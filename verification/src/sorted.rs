//! Maps keyed by strings, kept in the order of their keys.

use vstd::prelude::*;

use crate::text::{chars_of, distinct_keys, entry_map, lemma_entry_map};

verus! {

/// Whether a text stands before another in the order of their characters.
pub open spec fn text_before(a: Seq<char>, b: Seq<char>) -> bool
    decreases a.len(),
{
    if b.len() == 0 {
        false
    } else if a.len() == 0 {
        true
    } else if a[0] != b[0] {
        a[0] < b[0]
    } else {
        text_before(a.drop_first(), b.drop_first())
    }
}

/// No text stands before itself.
pub proof fn lemma_before_irreflexive(a: Seq<char>)
    ensures
        !text_before(a, a),
    decreases a.len(),
{
    if a.len() > 0 {
        lemma_before_irreflexive(a.drop_first());
    }
}

/// The order of texts is transitive.
pub proof fn lemma_before_transitive(a: Seq<char>, b: Seq<char>, c: Seq<char>)
    requires
        text_before(a, b),
        text_before(b, c),
    ensures
        text_before(a, c),
    decreases a.len(),
{
    if a.len() > 0 && a[0] == b[0] && b[0] == c[0] {
        lemma_before_transitive(a.drop_first(), b.drop_first(), c.drop_first());
    }
}

/// Of two different texts one stands before the other.
pub proof fn lemma_before_total(a: Seq<char>, b: Seq<char>)
    requires
        a != b,
    ensures
        text_before(a, b) || text_before(b, a),
    decreases a.len(),
{
    if a.len() == 0 {
        if b.len() == 0 {
            assert(a =~= b);
        }
    } else if b.len() > 0 && a[0] == b[0] {
        if a.drop_first() == b.drop_first() {
            assert(a =~= seq![a[0]] + a.drop_first());
            assert(b =~= seq![b[0]] + b.drop_first());
        }
        lemma_before_total(a.drop_first(), b.drop_first());
    }
}

/// Whether a text stands before another.
pub fn stands_before(a: &str, b: &str) -> (before: bool)
    ensures
        before == text_before(a@, b@),
{
    let x = chars_of(a);
    let y = chars_of(b);
    let mut i: usize = 0;
    assert(x@.skip(0) =~= x@);
    assert(y@.skip(0) =~= y@);
    while i < x.len() && i < y.len() && x[i] == y[i]
        invariant
            i <= x@.len(),
            i <= y@.len(),
            text_before(x@, y@) == text_before(x@.skip(i as int), y@.skip(i as int)),
        decreases x@.len() - i,
    {
        assert(x@.skip(i as int).drop_first() =~= x@.skip(i + 1));
        assert(y@.skip(i as int).drop_first() =~= y@.skip(i + 1));
        i = i + 1;
    }
    if i == y.len() {
        false
    } else if i == x.len() {
        true
    } else {
        x[i] < y[i]
    }
}

/// Whether the keys of entries ascend.
pub open spec fn ascending<T>(entries: Seq<(String, T)>) -> bool {
    forall|i: int, j: int|
        0 <= i < j < entries.len() ==> text_before(
            (#[trigger] entries[i]).0@,
            (#[trigger] entries[j]).0@,
        )
}

/// Ascending keys are distinct.
pub proof fn lemma_ascending_distinct<T>(entries: Seq<(String, T)>)
    requires
        ascending(entries),
    ensures
        distinct_keys(entries),
{
    assert forall|i: int, j: int| 0 <= i < j < entries.len() implies (#[trigger] entries[i]).0@ != (
    #[trigger] entries[j]).0@ by {
        lemma_before_irreflexive(entries[i].0@);
    }
}

/// A map from strings, as a list of entries with ascending keys.
#[derive(Debug, Clone, PartialEq, Eq)]
pub struct TextMap<T> {
    pub entries: Vec<(String, T)>,
}

impl<T> View for TextMap<T> {
    type V = Map<Seq<char>, T>;

    open spec fn view(&self) -> Map<Seq<char>, T> {
        entry_map(self.entries@)
    }
}

/// The keys of entries, in order.
pub open spec fn entry_keys<T>(entries: Seq<(String, T)>) -> Seq<Seq<char>> {
    entries.map_values(|e: (String, T)| e.0@)
}

impl<T> TextMap<T> {
    /// The keys ascend.
    pub open spec fn well_formed(&self) -> bool {
        ascending(self.entries@)
    }

    /// An empty map.
    pub fn new() -> (map: Self)
        ensures
            map.well_formed(),
            map@ == Map::<Seq<char>, T>::empty(),
            map.entries@.len() == 0,
    {
        TextMap { entries: Vec::new() }
    }

    /// The number of entries.
    pub fn len(&self) -> (len: usize)
        ensures
            len == self.entries@.len(),
    {
        self.entries.len()
    }

    /// The first position whose key does not stand before the given one.
    fn place_of(&self, key: &str) -> (at: usize)
        requires
            self.well_formed(),
        ensures
            at <= self.entries@.len(),
            forall|i: int|
                0 <= i < at ==> text_before((#[trigger] self.entries@[i]).0@, key@),
            forall|i: int|
                at <= i < self.entries@.len() ==> !text_before(
                    (#[trigger] self.entries@[i]).0@,
                    key@,
                ),
    {
        let mut at: usize = 0;
        while at < self.entries.len() && stands_before(&self.entries[at].0, key)
            invariant
                at <= self.entries@.len(),
                forall|i: int|
                    0 <= i < at ==> text_before((#[trigger] self.entries@[i]).0@, key@),
            decreases self.entries@.len() - at,
        {
            at = at + 1;
        }
        proof {
            assert forall|i: int| at <= i < self.entries@.len() implies !text_before(
                (#[trigger] self.entries@[i]).0@,
                key@,
            ) by {
                if i > at && text_before(self.entries@[i].0@, key@) {
                    lemma_before_transitive(
                        self.entries@[at as int].0@,
                        self.entries@[i].0@,
                        key@,
                    );
                }
            }
        }
        at
    }

    /// The position of a key.
    pub fn position(&self, key: &str) -> (found: Option<usize>)
        requires
            self.well_formed(),
        ensures
            match found {
                Some(i) => i < self.entries@.len() && self.entries@[i as int].0@ == key@
                    && self@.dom().contains(key@) && self@[key@] == self.entries@[i as int].1,
                None => !self@.dom().contains(key@),
            },
    {
        let at: usize = self.place_of(key);
        proof {
            lemma_ascending_distinct(self.entries@);
            lemma_entry_map(self.entries@);
        }
        if at < self.entries.len() && !stands_before(key, &self.entries[at].0) {
            proof {
                if self.entries@[at as int].0@ != key@ {
                    lemma_before_total(self.entries@[at as int].0@, key@);
                }
            }
            return Some(at);
        }
        proof {
            if self@.dom().contains(key@) {
                let i = choose|i: int|
                    0 <= i < self.entries@.len() && (#[trigger] self.entries@[i]).0@ == key@;
                lemma_before_irreflexive(key@);
                if i > at {
                    lemma_before_transitive(
                        key@,
                        self.entries@[at as int].0@,
                        self.entries@[i].0@,
                    );
                }
            }
        }
        None
    }

    /// The value at a key.
    pub fn get(&self, key: &str) -> (value: Option<&T>)
        requires
            self.well_formed(),
        ensures
            match value {
                Some(v) => self@.dom().contains(key@) && self@[key@] == *v,
                None => !self@.dom().contains(key@),
            },
    {
        match self.position(key) {
            Some(i) => Some(&self.entries[i].1),
            None => None,
        }
    }

    /// Put a value at a key, in place of what is there.
    pub fn insert(&mut self, key: String, value: T)
        requires
            old(self).well_formed(),
        ensures
            final(self).well_formed(),
            final(self)@ == old(self)@.insert(key@, value),
            final(self).entries@.len() == old(self).entries@.len() + (if old(self)@.dom().contains(
                key@,
            ) {
                0int
            } else {
                1
            }),
    {
        let ghost before = self.entries@;
        let at: usize = self.place_of(&key);
        proof {
            lemma_ascending_distinct(before);
            lemma_entry_map(before);
        }
        if at < self.entries.len() && !stands_before(&key, &self.entries[at].0) {
            proof {
                if before[at as int].0@ != key@ {
                    lemma_before_total(before[at as int].0@, key@);
                }
            }
            let ghost key_text = key@;
            self.entries.set(at, (key, value));
            proof {
                let after = self.entries@;
                assert(after =~= before.update(at as int, (key, value)));
                assert forall|i: int, j: int| 0 <= i < j < after.len() implies text_before(
                    (#[trigger] after[i]).0@,
                    (#[trigger] after[j]).0@,
                ) by {
                    assert(after[i].0@ == before[i].0@);
                    assert(after[j].0@ == before[j].0@);
                }
                lemma_same_entries(before, after, key_text, value, at as int);
            }
            return;
        }
        let ghost key_text = key@;
        self.entries.insert(at, (key, value));
        proof {
            let after = self.entries@;
            assert(after =~= before.insert(at as int, (key, value)));
            assert forall|j: int| at <= j < before.len() implies text_before(
                key_text,
                (#[trigger] before[j]).0@,
            ) by {
                if j > at {
                    lemma_before_transitive(key_text, before[at as int].0@, before[j].0@);
                }
            }
            assert forall|i: int, j: int| 0 <= i < j < after.len() implies text_before(
                (#[trigger] after[i]).0@,
                (#[trigger] after[j]).0@,
            ) by {
                let bi = if i < at {
                    i
                } else {
                    i - 1
                };
                let bj = if j < at {
                    j
                } else {
                    j - 1
                };
                if i != at {
                    assert(after[i] == before[bi]);
                }
                if j != at {
                    assert(after[j] == before[bj]);
                }
            }
            lemma_more_entries(before, after, key_text, value, at as int);
        }
    }
}

/// Replacing the value of an entry replaces it in the map.
proof fn lemma_same_entries<T>(
    before: Seq<(String, T)>,
    after: Seq<(String, T)>,
    key: Seq<char>,
    value: T,
    at: int,
)
    requires
        ascending(before),
        ascending(after),
        0 <= at < before.len() == after.len(),
        before[at].0@ == key,
        after[at].0@ == key,
        after[at].1 == value,
        forall|i: int| 0 <= i < before.len() && i != at ==> after[i] == #[trigger] before[i],
    ensures
        entry_map(after) == entry_map(before).insert(key, value),
        entry_map(before).dom().contains(key),
{
    lemma_ascending_distinct(before);
    lemma_ascending_distinct(after);
    lemma_entry_map(before);
    lemma_entry_map(after);
    let x = entry_map(after);
    let y = entry_map(before).insert(key, value);
    assert(before[at].0@ == key);
    assert forall|k: Seq<char>| x.dom().contains(k) <==> y.dom().contains(k) by {
        if x.dom().contains(k) {
            let i = choose|i: int| 0 <= i < after.len() && (#[trigger] after[i]).0@ == k;
            if i != at {
                assert(after[i] == before[i]);
            }
        }
        if y.dom().contains(k) {
            if k == key {
                assert(after[at].0@ == k);
            } else {
                let i = choose|i: int| 0 <= i < before.len() && (#[trigger] before[i]).0@ == k;
                assert(after[i] == before[i]);
            }
        }
    }
    assert forall|k: Seq<char>| x.dom().contains(k) implies x[k] == y[k] by {
        let i = choose|i: int| 0 <= i < after.len() && (#[trigger] after[i]).0@ == k;
        if i != at {
            assert(after[i] == before[i]);
            if k == key {
                assert(before[i].0@ == before[at].0@);
            }
        }
    }
    assert(x =~= y);
}

/// Adding an entry adds it to the map.
proof fn lemma_more_entries<T>(
    before: Seq<(String, T)>,
    after: Seq<(String, T)>,
    key: Seq<char>,
    value: T,
    at: int,
)
    requires
        ascending(before),
        ascending(after),
        0 <= at <= before.len(),
        after.len() == before.len() + 1,
        after[at].0@ == key,
        after[at].1 == value,
        forall|i: int| 0 <= i < at ==> after[i] == #[trigger] before[i],
        forall|i: int| at <= i < before.len() ==> after[i + 1] == #[trigger] before[i],
    ensures
        entry_map(after) == entry_map(before).insert(key, value),
        !entry_map(before).dom().contains(key),
{
    lemma_ascending_distinct(before);
    lemma_ascending_distinct(after);
    lemma_entry_map(before);
    lemma_entry_map(after);
    let x = entry_map(after);
    let y = entry_map(before).insert(key, value);
    if entry_map(before).dom().contains(key) {
        let i = choose|i: int| 0 <= i < before.len() && (#[trigger] before[i]).0@ == key;
        let j = if i < at {
            i
        } else {
            i + 1
        };
        assert(after[j] == before[i]);
        assert(after[j].0@ == after[at].0@);
    }
    assert forall|k: Seq<char>| x.dom().contains(k) <==> y.dom().contains(k) by {
        if x.dom().contains(k) {
            let i = choose|i: int| 0 <= i < after.len() && (#[trigger] after[i]).0@ == k;
            if i < at {
                assert(after[i] == before[i]);
            } else if i > at {
                assert(after[i] == before[i - 1]);
            }
        }
        if y.dom().contains(k) {
            if k == key {
                assert(after[at].0@ == k);
            } else {
                let i = choose|i: int| 0 <= i < before.len() && (#[trigger] before[i]).0@ == k;
                if i < at {
                    assert(after[i] == before[i]);
                } else {
                    assert(after[i + 1] == before[i]);
                }
            }
        }
    }
    assert forall|k: Seq<char>| x.dom().contains(k) implies x[k] == y[k] by {
        let i = choose|i: int| 0 <= i < after.len() && (#[trigger] after[i]).0@ == k;
        if i < at {
            assert(after[i] == before[i]);
        } else if i > at {
            assert(after[i] == before[i - 1]);
        }
    }
    assert(x =~= y);
}

/// Texts are ordered by their first difference: by the characters there, and a text
/// stands before every longer one that starts with it.
pub proof fn first_difference_orders(
    common: Seq<char>,
    a: char,
    rest_a: Seq<char>,
    b: char,
    rest_b: Seq<char>,
)
    requires
        a != b,
    ensures
        text_before(common + seq![a] + rest_a, common + seq![b] + rest_b) <==> a < b,
        text_before(common, common + seq![a] + rest_a),
        !text_before(common + seq![a] + rest_a, common),
    decreases common.len(),
{
    let (x, y) = (common + seq![a] + rest_a, common + seq![b] + rest_b);
    if common.len() > 0 {
        let shorter = common.drop_first();
        first_difference_orders(shorter, a, rest_a, b, rest_b);
        assert(x[0] == common[0] && y[0] == common[0]);
        assert(x.drop_first() =~= shorter + seq![a] + rest_a);
        assert(y.drop_first() =~= shorter + seq![b] + rest_b);
    }
}

} // verus!
