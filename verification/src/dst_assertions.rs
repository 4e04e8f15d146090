//! The assertions of a simulated run: what must always hold, what must hold at
//! some time, and what must or must not be reached.

use vstd::prelude::*;

use crate::sorted::TextMap;

verus! {

/// Which promise an assertion makes.
#[derive(Debug, Clone, Copy, PartialEq, Eq, Structural)]
pub enum AssertionKind {
    Always,
    Sometimes,
    Reachable,
    Unreachable,
}

/// A promise that was broken.
#[derive(Debug, Clone, PartialEq, Eq)]
pub struct AssertionViolation {
    pub kind: AssertionKind,
    pub message: String,
    pub details: String,
}

/// The contents of an [`AssertionViolation`].
#[verifier::ext_equal]
pub struct ViolationFields {
    pub kind: AssertionKind,
    pub message: Seq<char>,
    pub details: Seq<char>,
}

impl View for AssertionViolation {
    type V = ViolationFields;

    open spec fn view(&self) -> ViolationFields {
        ViolationFields { kind: self.kind, message: self.message@, details: self.details@ }
    }
}

/// The contents of violations.
pub open spec fn violations(list: Seq<AssertionViolation>) -> Seq<ViolationFields> {
    list.map_values(|v: AssertionViolation| v@)
}

/// What a run has asserted.
#[derive(Debug, Clone, PartialEq, Eq)]
pub struct AssertionLog {
    pub always_violations: Vec<AssertionViolation>,
    pub unreachable_violations: Vec<AssertionViolation>,
    pub sometimes: TextMap<bool>,
    pub reachable: TextMap<()>,
}

/// The contents of an [`AssertionLog`].
#[verifier::ext_equal]
pub struct LogFields {
    pub always_violations: Seq<ViolationFields>,
    pub unreachable_violations: Seq<ViolationFields>,
    pub sometimes: Map<Seq<char>, bool>,
    pub reachable: Set<Seq<char>>,
}

impl View for AssertionLog {
    type V = LogFields;

    open spec fn view(&self) -> LogFields {
        LogFields {
            always_violations: violations(self.always_violations@),
            unreachable_violations: violations(self.unreachable_violations@),
            sometimes: self.sometimes@,
            reachable: self.reachable@.dom(),
        }
    }
}

/// An empty log.
pub open spec fn empty_log() -> LogFields {
    LogFields {
        always_violations: Seq::empty(),
        unreachable_violations: Seq::empty(),
        sometimes: Map::empty(),
        reachable: Set::empty(),
    }
}

/// Whether a message was asserted to hold at some time and did.
pub open spec fn satisfied(log: LogFields, message: Seq<char>) -> bool {
    log.sometimes.dom().contains(message) && log.sometimes[message]
}

impl Default for AssertionLog {
    /// An empty log.
    fn default() -> (log: Self)
        ensures
            log.well_formed(),
            log@ == empty_log(),
    {
        let log = AssertionLog {
            always_violations: Vec::new(),
            unreachable_violations: Vec::new(),
            sometimes: TextMap::new(),
            reachable: TextMap::new(),
        };
        assert(log@ =~= empty_log());
        log
    }
}

fn push_violation(
    list: &mut Vec<AssertionViolation>,
    kind: AssertionKind,
    message: String,
    details: String,
)
    ensures
        violations(final(list)@) == violations(old(list)@).push(
            ViolationFields { kind, message: message@, details: details@ },
        ),
{
    let violation = AssertionViolation { kind, message, details };
    list.push(violation);
    assert(violations(list@) =~= violations(old(list)@).push(violation@));
}

fn copy_violations(list: &Vec<AssertionViolation>) -> (copy: Vec<AssertionViolation>)
    ensures
        violations(copy@) == violations(list@),
{
    let mut copy: Vec<AssertionViolation> = Vec::new();
    let mut i: usize = 0;
    while i < list.len()
        invariant
            i <= list@.len(),
            violations(copy@) == violations(list@.take(i as int)),
        decreases list@.len() - i,
    {
        push_violation(
            &mut copy,
            list[i].kind,
            list[i].message.clone(),
            list[i].details.clone(),
        );
        assert(violations(copy@) =~= violations(list@.take(i + 1)));
        i = i + 1;
    }
    assert(list@.take(i as int) =~= list@);
    copy
}

impl AssertionLog {
    /// The maps of the log are in order.
    pub open spec fn well_formed(&self) -> bool {
        self.sometimes.well_formed() && self.reachable.well_formed()
    }

    /// Note a condition that must hold every time.
    pub fn assert_always(&mut self, condition: bool, message: String, details: String)
        requires
            old(self).well_formed(),
        ensures
            final(self).well_formed(),
            final(self)@ == (if condition {
                old(self)@
            } else {
                LogFields {
                    always_violations: old(self)@.always_violations.push(
                        ViolationFields {
                            kind: AssertionKind::Always,
                            message: message@,
                            details: details@,
                        },
                    ),
                    ..old(self)@
                }
            }),
    {
        if !condition {
            push_violation(&mut self.always_violations, AssertionKind::Always, message, details);
        }
    }

    /// Note a condition that must hold at some time.
    pub fn assert_sometimes(&mut self, condition: bool, message: String, _details: String)
        requires
            old(self).well_formed(),
        ensures
            final(self).well_formed(),
            final(self)@ == (LogFields {
                sometimes: old(self)@.sometimes.insert(
                    message@,
                    satisfied(old(self)@, message@) || condition,
                ),
                ..old(self)@
            }),
    {
        let held: bool = self.sometimes_satisfied(&message);
        self.sometimes.insert(message, held || condition);
    }

    /// Note that a place was reached.
    pub fn assert_reachable(&mut self, message: String)
        requires
            old(self).well_formed(),
        ensures
            final(self).well_formed(),
            final(self)@ == (LogFields {
                reachable: old(self)@.reachable.insert(message@),
                ..old(self)@
            }),
    {
        self.reachable.insert(message, ());
        assert(self@.reachable =~= old(self)@.reachable.insert(message@));
    }

    /// Note that a place was reached that must not be.
    pub fn assert_unreachable(&mut self, message: String, details: String)
        requires
            old(self).well_formed(),
        ensures
            final(self).well_formed(),
            final(self)@ == (LogFields {
                unreachable_violations: old(self)@.unreachable_violations.push(
                    ViolationFields {
                        kind: AssertionKind::Unreachable,
                        message: message@,
                        details: details@,
                    },
                ),
                ..old(self)@
            }),
    {
        push_violation(
            &mut self.unreachable_violations,
            AssertionKind::Unreachable,
            message,
            details,
        );
    }

    /// Whether a condition has held at some time.
    pub fn sometimes_satisfied(&self, message: &str) -> (held: bool)
        requires
            self.well_formed(),
        ensures
            held == satisfied(self@, message@),
    {
        match self.sometimes.get(message) {
            Some(held) => *held,
            None => false,
        }
    }
}

// ---- the log of a process ----

/// Empty the log.
pub fn reset_global_assertions(log: &mut AssertionLog)
    ensures
        final(log).well_formed(),
        final(log)@ == empty_log(),
{
    *log = AssertionLog::default();
}

fn copy_flags(map: &TextMap<bool>) -> (copy: TextMap<bool>)
    ensures
        copy.entries@.len() == map.entries@.len(),
        forall|i: int|
            0 <= i < map.entries@.len() ==> (#[trigger] copy.entries@[i]).0@ == map.entries@[i].0@
                && copy.entries@[i].1 == map.entries@[i].1,
{
    let mut entries: Vec<(String, bool)> = Vec::new();
    let mut i: usize = 0;
    while i < map.entries.len()
        invariant
            i <= map.entries@.len(),
            entries@.len() == i,
            forall|j: int|
                0 <= j < i ==> (#[trigger] entries@[j]).0@ == map.entries@[j].0@ && entries@[j].1
                    == map.entries@[j].1,
        decreases map.entries@.len() - i,
    {
        entries.push((map.entries[i].0.clone(), map.entries[i].1));
        i = i + 1;
    }
    TextMap { entries }
}

fn copy_marks(map: &TextMap<()>) -> (copy: TextMap<()>)
    ensures
        copy.entries@.len() == map.entries@.len(),
        forall|i: int|
            0 <= i < map.entries@.len() ==> (#[trigger] copy.entries@[i]).0@ == map.entries@[i].0@,
{
    let mut entries: Vec<(String, ())> = Vec::new();
    let mut i: usize = 0;
    while i < map.entries.len()
        invariant
            i <= map.entries@.len(),
            entries@.len() == i,
            forall|j: int| 0 <= j < i ==> (#[trigger] entries@[j]).0@ == map.entries@[j].0@,
        decreases map.entries@.len() - i,
    {
        entries.push((map.entries[i].0.clone(), ()));
        i = i + 1;
    }
    TextMap { entries }
}

/// Entries with the same keys and values make the same map.
proof fn lemma_same_maps<T>(a: Seq<(String, T)>, b: Seq<(String, T)>)
    requires
        a.len() == b.len(),
        forall|i: int| 0 <= i < a.len() ==> (#[trigger] a[i]).0@ == b[i].0@ && a[i].1 == b[i].1,
    ensures
        crate::text::entry_map(a) == crate::text::entry_map(b),
    decreases a.len(),
{
    if a.len() > 0 {
        assert forall|i: int| 0 <= i < a.len() - 1 implies (#[trigger] a.drop_last()[i]).0@
            == b.drop_last()[i].0@ && a.drop_last()[i].1 == b.drop_last()[i].1 by {
            assert(a.drop_last()[i] == a[i]);
        }
        lemma_same_maps(a.drop_last(), b.drop_last());
        assert(a[a.len() - 1].0@ == b[a.len() - 1].0@);
    }
}

/// A copy of the log as it stands.
pub fn snapshot_global_assertions(log: &AssertionLog) -> (snapshot: AssertionLog)
    requires
        log.well_formed(),
    ensures
        snapshot.well_formed(),
        snapshot@ == log@,
{
    let snapshot = AssertionLog {
        always_violations: copy_violations(&log.always_violations),
        unreachable_violations: copy_violations(&log.unreachable_violations),
        sometimes: copy_flags(&log.sometimes),
        reachable: copy_marks(&log.reachable),
    };
    proof {
        lemma_same_maps(snapshot.sometimes.entries@, log.sometimes.entries@);
        lemma_same_maps(snapshot.reachable.entries@, log.reachable.entries@);
    }
    snapshot
}

/// Note a condition that must hold every time, in the given log.
pub fn assert_always(log: &mut AssertionLog, condition: bool, message: String, details: String)
    requires
        old(log).well_formed(),
    ensures
        final(log).well_formed(),
        final(log)@ == (if condition {
            old(log)@
        } else {
            LogFields {
                always_violations: old(log)@.always_violations.push(
                    ViolationFields {
                        kind: AssertionKind::Always,
                        message: message@,
                        details: details@,
                    },
                ),
                ..old(log)@
            }
        }),
{
    log.assert_always(condition, message, details);
}

/// Note a condition that must hold at some time, in the given log.
pub fn assert_sometimes(log: &mut AssertionLog, condition: bool, message: String, details: String)
    requires
        old(log).well_formed(),
    ensures
        final(log).well_formed(),
        final(log)@ == (LogFields {
            sometimes: old(log)@.sometimes.insert(
                message@,
                satisfied(old(log)@, message@) || condition,
            ),
            ..old(log)@
        }),
{
    log.assert_sometimes(condition, message, details);
}

/// Note that a place was reached, in the given log.
pub fn assert_reachable(log: &mut AssertionLog, message: String)
    requires
        old(log).well_formed(),
    ensures
        final(log).well_formed(),
        final(log)@ == (LogFields {
            reachable: old(log)@.reachable.insert(message@),
            ..old(log)@
        }),
{
    log.assert_reachable(message);
}

/// Note that a place was reached that must not be, in the given log.
pub fn assert_unreachable(log: &mut AssertionLog, message: String, details: String)
    requires
        old(log).well_formed(),
    ensures
        final(log).well_formed(),
        final(log)@ == (LogFields {
            unreachable_violations: old(log)@.unreachable_violations.push(
                ViolationFields {
                    kind: AssertionKind::Unreachable,
                    message: message@,
                    details: details@,
                },
            ),
            ..old(log)@
        }),
{
    log.assert_unreachable(message, details);
}

/// What an assertion that must hold at some time leaves in a log.
pub open spec fn sometimes_noted(log: LogFields, condition: bool, message: Seq<char>) -> LogFields {
    LogFields {
        sometimes: log.sometimes.insert(message, satisfied(log, message) || condition),
        ..log
    }
}

/// An assertion that has held once stays satisfied, whatever is asserted later.
pub proof fn sometimes_sticks(
    log: LogFields,
    message: Seq<char>,
    condition: bool,
    other: Seq<char>,
)
    requires
        satisfied(log, message),
    ensures
        satisfied(sometimes_noted(log, condition, other), message),
{
}

/// An assertion that must hold at some time is satisfied once it has held, by this
/// condition or before, and no other assertion is touched.
pub proof fn sometimes_is_noted(
    log: LogFields,
    condition: bool,
    message: Seq<char>,
    other: Seq<char>,
)
    ensures
        satisfied(sometimes_noted(log, condition, message), message) <==> condition || satisfied(
            log,
            message,
        ),
        other != message ==> (satisfied(sometimes_noted(log, condition, message), other)
            <==> satisfied(log, other)),
        sometimes_noted(log, condition, message).sometimes.dom() == log.sometimes.dom().insert(
            message,
        ),
        sometimes_noted(log, condition, message).always_violations == log.always_violations,
        sometimes_noted(log, condition, message).unreachable_violations
            == log.unreachable_violations,
        sometimes_noted(log, condition, message).reachable == log.reachable,
        !satisfied(empty_log(), message),
{
}

} // verus!
