//! Client lifecycle: the heartbeat file by which the daemon tells a live client
//! from one that is gone, and by which a new client tells whether a prefix is
//! taken. The application reads and writes the file and hands over its text
//! and the time.

use vstd::prelude::*;

use crate::config::{env_number_or, env_u64_or, join_path, joined};
use crate::text::{
    char_parts, chars_of, chars_start_with, copy_chars, debug_of, debug_text, dec, is_digit,
    lemma_dec_digits, lemma_dec_parses, lemma_dec_value, lemma_first_line, lemma_split_first,
    lemma_split_whole, lines_of, parse_uint, parsed_uint, push_dec, same_text, split_char,
    split_lines, strip_cr, text_of, text_opt,
};

verus! {

/// Time between two heartbeats by default, in milliseconds.
pub const DEFAULT_HEARTBEAT_INTERVAL_MS: u64 = 500;

/// Age at which a heartbeat is stale by default, in milliseconds.
pub const DEFAULT_HEARTBEAT_STALE_MS: u64 = 3_000;

/// Time between two looks at a heartbeat by default, in milliseconds.
pub const DEFAULT_HEARTBEAT_CHECK_MS: u64 = 250;

// ---- the record ----

/// What a heartbeat file says: which client, which process, and when.
#[derive(Debug, Clone)]
pub struct HeartbeatRecord {
    pub id: String,
    pub pid: u32,
    pub updated_ms: u128,
}

/// The fields of a [`HeartbeatRecord`].
#[verifier::ext_equal]
pub struct RecordFields {
    pub id: Seq<char>,
    pub pid: nat,
    pub updated_ms: nat,
}

impl View for HeartbeatRecord {
    type V = RecordFields;

    open spec fn view(&self) -> RecordFields {
        RecordFields { id: self.id@, pid: self.pid as nat, updated_ms: self.updated_ms as nat }
    }
}

/// The record of an optional [`HeartbeatRecord`].
pub open spec fn record_opt(record: Option<HeartbeatRecord>) -> Option<RecordFields> {
    match record {
        Some(r) => Some(r@),
        None => None,
    }
}

/// The text of a heartbeat file.
pub open spec fn record_text(record: RecordFields) -> Seq<char> {
    "id="@ + record.id + seq!['\n'] + ("pid="@ + dec(record.pid) + seq!['\n'] + ("updated_ms="@
        + dec(record.updated_ms) + seq!['\n']))
}

impl HeartbeatRecord {
    /// The text to write for this record.
    pub fn to_text(&self) -> (text: String)
        ensures
            text@ == record_text(self@),
    {
        let mut text = String::new();
        text.push_str("id=");
        text.push_str(&self.id);
        text.push('\n');
        text.push_str("pid=");
        push_dec(&mut text, self.pid as u128);
        text.push('\n');
        text.push_str("updated_ms=");
        push_dec(&mut text, self.updated_ms);
        text.push('\n');
        assert(text@ =~= record_text(self@));
        text
    }
}

/// The fields found so far while a heartbeat file is read.
#[verifier::ext_equal]
pub struct FoundFields {
    pub id: Option<Seq<char>>,
    pub pid: Option<nat>,
    pub updated_ms: Option<nat>,
}

/// What one line adds: the field that it names replaces an earlier one.
pub open spec fn with_line(found: FoundFields, line: Seq<char>) -> FoundFields {
    if "id="@.is_prefix_of(line) {
        FoundFields { id: Some(line.skip("id="@.len() as int)), ..found }
    } else if "pid="@.is_prefix_of(line) {
        FoundFields {
            pid: parsed_uint(line.skip("pid="@.len() as int), u32::MAX as nat),
            ..found
        }
    } else if "updated_ms="@.is_prefix_of(line) {
        FoundFields {
            updated_ms: parsed_uint(line.skip("updated_ms="@.len() as int), u128::MAX as nat),
            ..found
        }
    } else {
        found
    }
}

/// The fields that lines name, the later lines last.
pub open spec fn fields_of(lines: Seq<Seq<char>>) -> FoundFields
    decreases lines.len(),
{
    if lines.len() == 0 {
        FoundFields { id: None, pid: None, updated_ms: None }
    } else {
        with_line(fields_of(lines.drop_last()), lines.last())
    }
}

/// The record in the text of a heartbeat file; none unless all fields are
/// there.
pub open spec fn record_parsed(text: Seq<char>) -> Option<RecordFields> {
    let found = fields_of(lines_of(text));
    match (found.id, found.pid, found.updated_ms) {
        (Some(id), Some(pid), Some(updated_ms)) => Some(RecordFields { id, pid, updated_ms }),
        _ => None,
    }
}

/// The record in a heartbeat file, if there is a file.
pub open spec fn record_in(file: Option<Seq<char>>) -> Option<RecordFields> {
    match file {
        Some(text) => record_parsed(text),
        None => None,
    }
}

/// The rest of a line behind a prefix that it starts with.
fn rest_behind(line: &[char], prefix: &str) -> (rest: Option<Vec<char>>)
    ensures
        match rest {
            Some(r) => prefix@.is_prefix_of(line@) && r@ == line@.skip(prefix@.len() as int),
            None => !prefix@.is_prefix_of(line@),
        },
{
    let start = chars_of(prefix);
    if chars_start_with(line, &start) {
        let rest = copy_chars(line, start.len(), line.len());
        assert(rest@ =~= line@.skip(prefix@.len() as int));
        Some(rest)
    } else {
        None
    }
}

/// Read the record from the text of a heartbeat file.
pub fn read_record(file: &Option<String>) -> (record: Option<HeartbeatRecord>)
    ensures
        record_opt(record) == record_in(text_opt(*file)),
{
    let lines: Vec<Vec<char>> = match file {
        Some(text) => split_lines(&chars_of(text)),
        None => {
            return None;
        },
    };
    let ghost all = char_parts(lines@);
    let mut id: Option<String> = None;
    let mut pid: Option<u32> = None;
    let mut updated_ms: Option<u128> = None;
    let mut i: usize = 0;
    while i < lines.len()
        invariant
            i <= lines@.len(),
            all == char_parts(lines@),
            fields_of(all.take(i as int)) == (FoundFields {
                id: text_opt(id),
                pid: match pid {
                    Some(n) => Some(n as nat),
                    None => None,
                },
                updated_ms: match updated_ms {
                    Some(n) => Some(n as nat),
                    None => None,
                },
            }),
        decreases lines@.len() - i,
    {
        let line = &lines[i];
        proof {
            assert(all.take(i + 1).drop_last() =~= all.take(i as int));
            assert(all.take(i + 1).last() == line@);
        }
        match rest_behind(line, "id=") {
            Some(value) => {
                id = Some(text_of(&value));
            },
            None => match rest_behind(line, "pid=") {
                Some(value) => {
                    pid = match parse_uint(&value, u32::MAX as u128) {
                        Some(n) => Some(n as u32),
                        None => None,
                    };
                },
                None => match rest_behind(line, "updated_ms=") {
                    Some(value) => {
                        updated_ms = parse_uint(&value, u128::MAX);
                    },
                    None => {},
                },
            },
        }
        i = i + 1;
    }
    assert(all.take(i as int) =~= all);
    match (id, pid, updated_ms) {
        (Some(id), Some(pid), Some(updated_ms)) => Some(HeartbeatRecord { id, pid, updated_ms }),
        _ => None,
    }
}

/// Whether an id stays on its line: it holds no line feed and does not end in a
/// carriage return.
pub open spec fn one_line(id: Seq<char>) -> bool {
    &&& forall|i: int| 0 <= i < id.len() ==> #[trigger] id[i] != '\n'
    &&& id.len() > 0 ==> id.last() != '\r'
}

/// A record reads back as it was written.
pub proof fn heartbeat_round_trip(record: RecordFields)
    requires
        one_line(record.id),
        record.pid <= u32::MAX,
        record.updated_ms <= u128::MAX,
    ensures
        record_parsed(record_text(record)) == Some(record),
{
    reveal_strlit("id=");
    reveal_strlit("pid=");
    reveal_strlit("updated_ms=");
    lemma_dec_digits(record.pid);
    lemma_dec_digits(record.updated_ms);
    lemma_dec_parses(record.pid, u32::MAX as nat);
    lemma_dec_parses(record.updated_ms, u128::MAX as nat);
    let l1 = "id="@ + record.id;
    let l2 = "pid="@ + dec(record.pid);
    let l3 = "updated_ms="@ + dec(record.updated_ms);
    let empty = Seq::<char>::empty();
    let t3 = l3 + seq!['\n'];
    let t2 = l2 + seq!['\n'] + t3;
    assert(l3 + seq!['\n'] + empty =~= t3);
    lemma_first_line(l3, empty);
    lemma_first_line(l2, t3);
    lemma_first_line(l1, t2);
    assert(strip_cr(l1) == l1 && strip_cr(l2) == l2 && strip_cr(l3) == l3);
    let lines = lines_of(record_text(record));
    assert(lines_of(t3) =~= seq![l3]);
    assert(lines_of(t2) =~= seq![l2, l3]);
    assert(lines =~= seq![l1, l2, l3]);
    assert(lines.drop_last() =~= seq![l1, l2]);
    assert(lines.drop_last().drop_last() =~= seq![l1]);
    assert(lines.drop_last().drop_last().drop_last() =~= Seq::<Seq<char>>::empty());
    assert(l1.skip(3) =~= record.id);
    assert(l2.skip(4) =~= dec(record.pid));
    assert(l3.skip(11) =~= dec(record.updated_ms));
    assert("id="@ =~= l1.subrange(0, 3));
    assert("pid="@ =~= l2.subrange(0, 4));
    assert("updated_ms="@ =~= l3.subrange(0, 11));
    assert(!"id="@.is_prefix_of(l2)) by {
        assert(l2.subrange(0, 3)[0] == 'p');
        assert("id="@[0] == 'i');
    }
    assert(!"id="@.is_prefix_of(l3)) by {
        assert(l3.subrange(0, 3)[0] == 'u');
        assert("id="@[0] == 'i');
    }
    assert(!"pid="@.is_prefix_of(l3)) by {
        assert(l3.subrange(0, 4)[0] == 'u');
        assert("pid="@[0] == 'p');
    }
    reveal_with_fuel(fields_of, 4);
}

// ---- age and life ----

/// The age of a record; none if it lies in the future.
pub open spec fn age_of(record: RecordFields, now_ms: nat) -> nat {
    if now_ms > record.updated_ms {
        (now_ms - record.updated_ms) as nat
    } else {
        0
    }
}

/// Whether a record is older than it may be.
pub open spec fn is_stale(record: RecordFields, now_ms: nat, stale_after_ms: nat) -> bool {
    age_of(record, now_ms) > stale_after_ms
}

/// Whether a record is older than it may be.
pub fn record_is_stale(record: &HeartbeatRecord, now_ms: u128, stale_after_ms: u64) -> (stale: bool)
    ensures
        stale == is_stale(record@, now_ms as nat, stale_after_ms as nat),
{
    now_ms.saturating_sub(record.updated_ms) > stale_after_ms as u128
}

/// Whether a process may be alive: it is not the null process and the system
/// lists it.
pub fn pid_maybe_alive(pid: u32, listed: bool) -> (alive: bool)
    ensures
        alive == (pid != 0 && listed),
{
    pid != 0 && listed
}

// ---- settings ----

/// The settings of the heartbeat.
#[derive(Debug, Clone, Copy)]
pub struct HeartbeatSettings {
    pub enabled: bool,
    pub interval_ms: u64,
    pub stale_after_ms: u64,
    pub check_interval_ms: u64,
}

/// Whether a setting says no.
pub open spec fn falsy(value: Seq<char>) -> bool {
    value == "0"@ || value == "false"@ || value == "off"@ || value == "no"@
}

/// Whether a value of `WMBT_KV_DAEMON_SHM_HEARTBEAT_DISABLE` turns the
/// heartbeat off: any text does that is not empty and does not say no.
pub open spec fn disables(value: Option<Seq<char>>) -> bool {
    match value {
        Some(v) => v.len() > 0 && !falsy(v),
        None => false,
    }
}

/// Whether the heartbeat is on: it is, unless it is turned off.
pub fn heartbeat_enabled(disable: &Option<String>) -> (enabled: bool)
    ensures
        enabled == !disables(text_opt(*disable)),
{
    match disable {
        Some(v) => v.as_str().is_empty() || same_text(v, "0") || same_text(v, "false")
            || same_text(v, "off") || same_text(v, "no"),
        None => true,
    }
}

impl HeartbeatSettings {
    /// The settings from `WMBT_KV_DAEMON_SHM_HEARTBEAT_DISABLE`, `.._INTERVAL_MS`,
    /// `.._STALE_MS` and `.._CHECK_MS`.
    pub fn from_env(
        disable: &Option<String>,
        interval: &Option<String>,
        stale: &Option<String>,
        check: &Option<String>,
    ) -> (settings: Self)
        ensures
            settings.enabled == !disables(text_opt(*disable)),
            settings.interval_ms == env_number_or(text_opt(*interval), u64::MAX as nat, 500),
            settings.stale_after_ms == env_number_or(text_opt(*stale), u64::MAX as nat, 3000),
            settings.check_interval_ms == env_number_or(text_opt(*check), u64::MAX as nat, 250),
    {
        HeartbeatSettings {
            enabled: heartbeat_enabled(disable),
            interval_ms: env_u64_or(interval, DEFAULT_HEARTBEAT_INTERVAL_MS),
            stale_after_ms: env_u64_or(stale, DEFAULT_HEARTBEAT_STALE_MS),
            check_interval_ms: env_u64_or(check, DEFAULT_HEARTBEAT_CHECK_MS),
        }
    }
}

// ---- paths ----

/// Whether a character may stand in the name of a heartbeat file.
pub open spec fn is_name_char(c: char) -> bool {
    ('a' <= c && c <= 'z') || ('A' <= c && c <= 'Z') || ('0' <= c && c <= '9') || c == '-' || c
        == '_'
}

/// A prefix with every other character replaced by an underscore.
pub open spec fn sanitized(prefix: Seq<char>) -> Seq<char> {
    prefix.map_values(
        |c: char|
            if is_name_char(c) {
                c
            } else {
                '_'
            },
    )
}

/// Replace the characters of a prefix that may not stand in a file name.
pub fn sanitize_prefix(prefix: &str) -> (name: String)
    ensures
        name@ == sanitized(prefix@),
{
    let chars = chars_of(prefix);
    let mut name = String::new();
    let mut i: usize = 0;
    while i < chars.len()
        invariant
            i <= chars@.len(),
            name@ == sanitized(chars@.take(i as int)),
        decreases chars@.len() - i,
    {
        let c = chars[i];
        if ('a' <= c && c <= 'z') || ('A' <= c && c <= 'Z') || ('0' <= c && c <= '9') || c == '-'
            || c == '_' {
            name.push(c);
        } else {
            name.push('_');
        }
        assert(name@ =~= sanitized(chars@.take(i + 1)));
        i = i + 1;
    }
    assert(chars@.take(i as int) =~= prefix@);
    name
}

/// The directory of the heartbeat files.
pub open spec fn heartbeat_dir(dir: Option<Seq<char>>, temp_dir: Seq<char>) -> Seq<char> {
    match dir {
        Some(d) => d,
        None => joined(temp_dir, "wombatkv-puffer-shm"@),
    }
}

/// The path of a prefix's heartbeat file.
pub open spec fn heartbeat_file(dir: Seq<char>, prefix: Seq<char>) -> Seq<char> {
    joined(dir, sanitized(prefix) + ".heartbeat"@)
}

/// The path under which a process prepares a prefix's heartbeat file.
pub open spec fn heartbeat_draft(dir: Seq<char>, prefix: Seq<char>, pid: nat) -> Seq<char> {
    joined(
        dir,
        (if prefix.len() == 0 {
            ".heartbeat"@
        } else {
            sanitized(prefix)
        }) + ".tmp."@ + dec(pid),
    )
}

/// The directory of the heartbeat files: `WMBT_KV_DAEMON_SHM_HEARTBEAT_DIR`, or
/// a directory below that for temporary files.
pub fn resolve_heartbeat_dir(dir: &Option<String>, temp_dir: &str) -> (path: String)
    ensures
        path@ == heartbeat_dir(text_opt(*dir), temp_dir@),
{
    match dir {
        Some(d) => d.clone(),
        None => join_path(temp_dir, "wombatkv-puffer-shm"),
    }
}

/// The path of a prefix's heartbeat file.
pub fn heartbeat_path(dir: &str, prefix: &str) -> (path: String)
    ensures
        path@ == heartbeat_file(dir@, prefix@),
{
    let mut name = sanitize_prefix(prefix);
    name.push_str(".heartbeat");
    join_path(dir, &name)
}

/// The path under which a process prepares a prefix's heartbeat file, so that
/// the file itself is replaced in one step.
pub fn heartbeat_tmp_path(dir: &str, prefix: &str, pid: u32) -> (path: String)
    ensures
        path@ == heartbeat_draft(dir@, prefix@, pid as nat),
{
    let mut name = sanitize_prefix(prefix);
    if prefix.is_empty() {
        name = ".heartbeat".to_owned();
    }
    name.push_str(".tmp.");
    push_dec(&mut name, pid as u128);
    join_path(dir, &name)
}

// ---- the client's side ----

/// A client's hold on a prefix.
#[derive(Debug)]
pub struct ClientHeartbeat {
    /// The heartbeat file.
    pub path: String,
    /// The file that is written before it becomes the heartbeat file.
    pub tmp_path: String,
    /// The client's id.
    pub id: String,
    /// Time between two heartbeats, in milliseconds.
    pub interval_ms: u64,
    /// When the last heartbeat was written.
    pub written_at: Option<u128>,
}

/// What has to go before a client takes a prefix.
#[derive(Debug, Clone, Copy, PartialEq, Eq, Structural)]
pub struct Takeover {
    /// Remove the segments that a predecessor left.
    pub cleanup_segments: bool,
    /// Remove the record that a predecessor left.
    pub remove_record: bool,
}

/// What is said to a client whose prefix is taken.
pub open spec fn taken_text(prefix: Seq<char>, record: RecordFields) -> Seq<char> {
    "active SHM client for prefix "@ + debug_of(prefix) + ": pid="@ + dec(record.pid) + " id="@
        + record.id
}

/// How a prefix is taken: not at all from a live client with a fresh
/// heartbeat; from any other after its segments and its record are removed; and
/// segments without a record are removed.
pub open spec fn takeover(
    prefix: Seq<char>,
    record: Option<RecordFields>,
    listed: bool,
    segments_exist: bool,
    now_ms: nat,
    stale_after_ms: nat,
) -> Result<Takeover, Seq<char>> {
    match record {
        Some(r) => if r.pid != 0 && listed && !is_stale(r, now_ms, stale_after_ms) {
            Err(taken_text(prefix, r))
        } else {
            Ok(Takeover { cleanup_segments: true, remove_record: true })
        },
        None => Ok(Takeover { cleanup_segments: segments_exist, remove_record: false }),
    }
}

/// Decide how a prefix is taken, given the record in its heartbeat file,
/// whether the system lists the record's process, and whether the prefix's
/// segments exist.
pub fn plan_takeover(
    prefix: &str,
    record: &Option<HeartbeatRecord>,
    listed: bool,
    segments_exist: bool,
    now_ms: u128,
    stale_after_ms: u64,
) -> (plan: Result<Takeover, String>)
    ensures
        match plan {
            Ok(t) => takeover(
                prefix@,
                record_opt(*record),
                listed,
                segments_exist,
                now_ms as nat,
                stale_after_ms as nat,
            ) == Ok::<Takeover, Seq<char>>(t),
            Err(e) => takeover(
                prefix@,
                record_opt(*record),
                listed,
                segments_exist,
                now_ms as nat,
                stale_after_ms as nat,
            ) == Err::<Takeover, Seq<char>>(e@),
        },
{
    match record {
        Some(r) => {
            let active: bool = pid_maybe_alive(r.pid, listed) && !record_is_stale(
                r,
                now_ms,
                stale_after_ms,
            );
            if active {
                let mut text = String::new();
                text.push_str("active SHM client for prefix ");
                text.push_str(&debug_text(prefix));
                text.push_str(": pid=");
                push_dec(&mut text, r.pid as u128);
                text.push_str(" id=");
                text.push_str(&r.id);
                assert(text@ =~= taken_text(prefix@, r@));
                return Err(text);
            }
            Ok(Takeover { cleanup_segments: true, remove_record: true })
        },
        None => Ok(Takeover { cleanup_segments: segments_exist, remove_record: false }),
    }
}

/// A client's id: its process, the time and a number.
pub open spec fn connection_id(pid: nat, now_ms: nat, seq: nat) -> Seq<char> {
    dec(pid) + "-"@ + dec(now_ms) + "-"@ + dec(seq)
}

/// A heartbeat to write.
#[derive(Debug)]
pub struct HeartbeatWrite {
    /// Where to write first.
    pub tmp_path: String,
    /// What to rename it to.
    pub path: String,
    /// What to write.
    pub body: String,
}

/// What is said to a client whose record another one replaced.
pub open spec fn replaced_text(path: Seq<char>, id: Seq<char>) -> Seq<char> {
    "heartbeat "@ + path + " replaced by another client id="@ + id
}

impl ClientHeartbeat {
    /// Whether a heartbeat is due.
    pub open spec fn is_due(&self, at: u128) -> bool {
        match self.written_at {
            Some(last) => at - last >= self.interval_ms,
            None => true,
        }
    }

    /// Take a prefix for a new client: `pid`, `now_ms` and `seq` make its id.
    /// Its first heartbeat is due at once.
    pub fn acquire(
        dir: &str,
        prefix: &str,
        settings: HeartbeatSettings,
        pid: u32,
        now_ms: u128,
        seq: u64,
    ) -> (heartbeat: Option<Self>)
        ensures
            match heartbeat {
                Some(h) => {
                    &&& settings.enabled
                    &&& h.path@ == heartbeat_file(dir@, prefix@)
                    &&& h.tmp_path@ == heartbeat_draft(dir@, prefix@, pid as nat)
                    &&& h.id@ == connection_id(pid as nat, now_ms as nat, seq as nat)
                    &&& h.interval_ms == settings.interval_ms
                    &&& h.written_at is None
                },
                None => !settings.enabled,
            },
    {
        if !settings.enabled {
            return None;
        }
        let mut id = String::new();
        push_dec(&mut id, pid as u128);
        id.push_str("-");
        push_dec(&mut id, now_ms);
        id.push_str("-");
        push_dec(&mut id, seq as u128);
        assert(id@ =~= connection_id(pid as nat, now_ms as nat, seq as nat));
        Some(
            ClientHeartbeat {
                path: heartbeat_path(dir, prefix),
                tmp_path: heartbeat_tmp_path(dir, prefix, pid),
                id,
                interval_ms: settings.interval_ms,
                written_at: None,
            },
        )
    }

    /// Whether a heartbeat is due at a moment of the monotonic clock.
    pub fn due(&self, at: u128) -> (due: bool)
        ensures
            due == self.is_due(at),
    {
        match self.written_at {
            Some(last) => at >= last && at - last >= self.interval_ms as u128,
            None => true,
        }
    }

    /// The heartbeat to write, none where it is not due yet. `file` is what the
    /// heartbeat file says; a record of another client is an error.
    pub fn beat(&self, at: u128, file: &Option<String>, pid: u32, now_ms: u128) -> (write: Result<
        Option<HeartbeatWrite>,
        String,
    >)
        ensures
            match write {
                Ok(None) => !self.is_due(at),
                Ok(Some(w)) => {
                    &&& self.is_due(at)
                    &&& record_in(text_opt(*file)) matches Some(r) ==> r.id == self.id@
                    &&& w.tmp_path@ == self.tmp_path@
                    &&& w.path@ == self.path@
                    &&& w.body@ == record_text(
                        RecordFields { id: self.id@, pid: pid as nat, updated_ms: now_ms as nat },
                    )
                },
                Err(e) => {
                    &&& self.is_due(at)
                    &&& record_in(text_opt(*file)) matches Some(r)
                    &&& r.id != self.id@
                    &&& e@ == replaced_text(self.path@, r.id)
                },
            },
    {
        if !self.due(at) {
            return Ok(None);
        }
        let ghost found = record_in(text_opt(*file));
        if let Some(record) = read_record(file) {
            assert(found == Some(record@));
            if !same_text(&record.id, &self.id) {
                let mut text = String::new();
                text.push_str("heartbeat ");
                text.push_str(&self.path);
                text.push_str(" replaced by another client id=");
                text.push_str(&record.id);
                assert(text@ =~= replaced_text(self.path@, record.id@));
                return Err(text);
            }
        }
        let record = HeartbeatRecord { id: self.id.clone(), pid, updated_ms: now_ms };
        Ok(
            Some(
                HeartbeatWrite {
                    tmp_path: self.tmp_path.clone(),
                    path: self.path.clone(),
                    body: record.to_text(),
                },
            ),
        )
    }

    /// Note that a heartbeat was written.
    pub fn written(&mut self, at: u128)
        ensures
            final(self).written_at == Some(at),
            final(self).path == old(self).path,
            final(self).tmp_path == old(self).tmp_path,
            final(self).id == old(self).id,
            final(self).interval_ms == old(self).interval_ms,
    {
        self.written_at = Some(at);
    }

    /// The time between two heartbeats, in milliseconds.
    pub fn interval(&self) -> (millis: u64)
        ensures
            millis == self.interval_ms,
    {
        self.interval_ms
    }

    /// Whether the client, on leaving, removes the heartbeat file: only if the
    /// record in it is its own.
    pub fn remove(&self, file: &Option<String>) -> (own: bool)
        ensures
            own == (record_in(text_opt(*file)) matches Some(r) && r.id == self.id@),
    {
        match read_record(file) {
            Some(record) => same_text(&record.id, &self.id),
            None => false,
        }
    }
}

// ---- the daemon's side ----

/// Why a prefix has to be opened anew.
#[derive(Debug, Clone)]
pub enum ReopenReason {
    /// There is no heartbeat.
    Missing,
    /// Another client took the prefix.
    Replaced { old_id: String, new_id: String },
    /// The heartbeat stopped.
    Stale { age_ms: u128 },
}

/// What a [`ReopenReason`] says.
pub enum ReopenFact {
    Missing,
    Replaced { old_id: Seq<char>, new_id: Seq<char> },
    Stale { age_ms: nat },
}

impl View for ReopenReason {
    type V = ReopenFact;

    open spec fn view(&self) -> ReopenFact {
        match self {
            ReopenReason::Missing => ReopenFact::Missing,
            ReopenReason::Replaced { old_id, new_id } => ReopenFact::Replaced {
                old_id: old_id@,
                new_id: new_id@,
            },
            ReopenReason::Stale { age_ms } => ReopenFact::Stale { age_ms: *age_ms as nat },
        }
    }
}

/// The words for a reason to reopen.
pub open spec fn reopen_text(reason: ReopenFact) -> Seq<char> {
    match reason {
        ReopenFact::Missing => "heartbeat missing"@,
        ReopenFact::Replaced { old_id, new_id } => "heartbeat generation changed: "@ + old_id
            + " -> "@ + new_id,
        ReopenFact::Stale { age_ms } => "heartbeat stale for "@ + dec(age_ms) + " ms"@,
    }
}

impl ReopenReason {
    /// Whether the old segments have to be removed: unless a new client has
    /// made its own.
    pub fn requires_segment_cleanup(&self) -> (cleanup: bool)
        ensures
            cleanup == !(self is Replaced),
    {
        match self {
            ReopenReason::Missing => true,
            ReopenReason::Replaced { .. } => false,
            ReopenReason::Stale { .. } => true,
        }
    }

    /// The reason in words.
    pub fn message(&self) -> (text: String)
        ensures
            text@ == reopen_text(self@),
    {
        let mut text = String::new();
        match self {
            ReopenReason::Missing => {
                text.push_str("heartbeat missing");
            },
            ReopenReason::Replaced { old_id, new_id } => {
                text.push_str("heartbeat generation changed: ");
                text.push_str(old_id);
                text.push_str(" -> ");
                text.push_str(new_id);
            },
            ReopenReason::Stale { age_ms } => {
                text.push_str("heartbeat stale for ");
                push_dec(&mut text, *age_ms);
                text.push_str(" ms");
            },
        }
        assert(text@ =~= reopen_text(self@));
        text
    }
}

/// Why the daemon gives a client up, given the record in its heartbeat file.
pub open spec fn reopen_of(
    expected_id: Seq<char>,
    record: Option<RecordFields>,
    now_ms: nat,
    stale_after_ms: nat,
) -> Option<ReopenFact> {
    match record {
        None => Some(ReopenFact::Missing),
        Some(r) => if r.id != expected_id {
            Some(ReopenFact::Replaced { old_id: expected_id, new_id: r.id })
        } else if is_stale(r, now_ms, stale_after_ms) {
            Some(ReopenFact::Stale { age_ms: age_of(r, now_ms) })
        } else {
            None
        },
    }
}

/// The reason of an optional [`ReopenReason`].
pub open spec fn reason_opt(reason: Option<ReopenReason>) -> Option<ReopenFact> {
    match reason {
        Some(r) => Some(r@),
        None => None,
    }
}

/// The daemon's watch over the client of a prefix.
#[derive(Debug)]
pub struct HeartbeatMonitor {
    /// The heartbeat file.
    pub path: String,
    /// The client that it is expected to name.
    pub expected_id: String,
    /// Age at which a heartbeat is stale, in milliseconds.
    pub stale_after_ms: u64,
    /// Time between two looks, in milliseconds.
    pub check_interval_ms: u64,
    /// When it last looked.
    pub checked_at: Option<u128>,
}

impl HeartbeatMonitor {
    /// Whether a look is due.
    pub open spec fn is_due(&self, at: u128) -> bool {
        match self.checked_at {
            Some(last) => at - last >= self.check_interval_ms,
            None => true,
        }
    }

    /// Watch the client that a heartbeat file names; none where heartbeats are
    /// off or the file names no client.
    pub fn attach(path: String, file: &Option<String>, settings: HeartbeatSettings) -> (monitor:
        Option<Self>)
        ensures
            match monitor {
                Some(m) => {
                    &&& settings.enabled
                    &&& m.path == path
                    &&& record_in(text_opt(*file)) matches Some(r)
                    &&& r.id == m.expected_id@
                    &&& m.stale_after_ms == settings.stale_after_ms
                    &&& m.check_interval_ms == settings.check_interval_ms
                    &&& m.checked_at is None
                },
                None => !settings.enabled || record_in(text_opt(*file)) is None,
            },
    {
        if !settings.enabled {
            return None;
        }
        match read_record(file) {
            Some(record) => Some(
                HeartbeatMonitor {
                    path,
                    expected_id: record.id,
                    stale_after_ms: settings.stale_after_ms,
                    check_interval_ms: settings.check_interval_ms,
                    checked_at: None,
                },
            ),
            None => None,
        }
    }

    /// Whether a look is due at a moment of the monotonic clock.
    pub fn due(&self, at: u128) -> (due: bool)
        ensures
            due == self.is_due(at),
    {
        match self.checked_at {
            Some(last) => at >= last && at - last >= self.check_interval_ms as u128,
            None => true,
        }
    }

    /// Look at the heartbeat file: a reason to open the prefix anew, if there is
    /// one. Between looks nothing happens.
    pub fn poll_reopen_reason(&mut self, at: u128, file: &Option<String>, now_ms: u128) -> (reason:
        Option<ReopenReason>)
        ensures
            if old(self).is_due(at) {
                &&& reason_opt(reason) == reopen_of(
                    old(self).expected_id@,
                    record_in(text_opt(*file)),
                    now_ms as nat,
                    old(self).stale_after_ms as nat,
                )
                &&& final(self).checked_at == Some(at)
            } else {
                &&& reason is None
                &&& final(self).checked_at == old(self).checked_at
            },
            final(self).path == old(self).path,
            final(self).expected_id == old(self).expected_id,
            final(self).stale_after_ms == old(self).stale_after_ms,
            final(self).check_interval_ms == old(self).check_interval_ms,
    {
        if !self.due(at) {
            return None;
        }
        self.checked_at = Some(at);
        match read_record(file) {
            None => Some(ReopenReason::Missing),
            Some(record) => {
                if !same_text(&record.id, &self.expected_id) {
                    return Some(
                        ReopenReason::Replaced {
                            old_id: self.expected_id.clone(),
                            new_id: record.id,
                        },
                    );
                }
                if record_is_stale(&record, now_ms, self.stale_after_ms) {
                    return Some(
                        ReopenReason::Stale { age_ms: now_ms.saturating_sub(record.updated_ms) },
                    );
                }
                None
            },
        }
    }
}

// ---- both sides ----

/// The ids that clients are given stay on one line.
pub proof fn connection_ids_fit(pid: nat, now_ms: nat, seq: nat)
    ensures
        one_line(connection_id(pid, now_ms, seq)),
{
    reveal_strlit("-");
    lemma_dec_digits(pid);
    lemma_dec_digits(now_ms);
    lemma_dec_digits(seq);
    let id = connection_id(pid, now_ms, seq);
    assert forall|i: int| 0 <= i < id.len() implies #[trigger] id[i] != '\n' by {
        let a = dec(pid).len() as int;
        let b = a + 1 + dec(now_ms).len();
        if i < a {
            assert(id[i] == dec(pid)[i]);
        } else if i == a {
            assert(id[i] == '-');
        } else if i < b {
            assert(id[i] == dec(now_ms)[i - a - 1]);
        } else if i == b {
            assert(id[i] == '-');
        } else {
            assert(id[i] == dec(seq)[i - b - 1]);
        }
    }
    assert(id.last() == dec(seq).last());
}

/// As long as a client's heartbeats are fresh enough, the daemon that watches
/// it keeps its prefix open.
pub proof fn fresh_client_is_kept(record: RecordFields, now_ms: nat, stale_after_ms: nat)
    requires
        one_line(record.id),
        record.pid <= u32::MAX,
        record.updated_ms <= u128::MAX,
        now_ms <= record.updated_ms + stale_after_ms,
    ensures
        reopen_of(
            record.id,
            record_in(Some(record_text(record))),
            now_ms,
            stale_after_ms,
        ) is None,
{
    heartbeat_round_trip(record);
}

/// A prefix whose client is alive with a fresh heartbeat is refused to any other
/// client, and a dead client's prefix is not.
pub proof fn prefix_has_one_live_client(
    prefix: Seq<char>,
    record: RecordFields,
    listed: bool,
    segments_exist: bool,
    now_ms: nat,
    stale_after_ms: nat,
)
    requires
        one_line(record.id),
        record.pid <= u32::MAX,
        record.updated_ms <= u128::MAX,
    ensures
        takeover(
            prefix,
            record_in(Some(record_text(record))),
            listed,
            segments_exist,
            now_ms,
            stale_after_ms,
        ) is Err <==> record.pid != 0 && listed && !is_stale(record, now_ms, stale_after_ms),
{
    heartbeat_round_trip(record);
}

/// A prefix is refused only to keep a client that the system lists and whose heartbeat
/// is not older than it may be. From any other client it is taken once its segments
/// and its record are gone; where there is no record, left segments go.
pub proof fn prefix_is_taken_from_the_dead(
    prefix: Seq<char>,
    record: Option<RecordFields>,
    listed: bool,
    segments_exist: bool,
    now_ms: nat,
    stale_after_ms: nat,
)
    ensures
        match takeover(prefix, record, listed, segments_exist, now_ms, stale_after_ms) {
            Err(text) => {
                &&& record matches Some(r)
                &&& r.pid != 0
                &&& listed
                &&& now_ms <= r.updated_ms + stale_after_ms
                &&& text == "active SHM client for prefix "@ + debug_of(prefix) + ": pid="@ + dec(
                    r.pid,
                ) + " id="@ + r.id
            },
            Ok(plan) => match record {
                Some(r) => {
                    &&& r.pid == 0 || !listed || now_ms > r.updated_ms + stale_after_ms
                    &&& plan.cleanup_segments
                    &&& plan.remove_record
                },
                None => plan.cleanup_segments == segments_exist && !plan.remove_record,
            },
        },
{
}

/// A daemon keeps a client exactly as long as the heartbeat file names it and is not
/// older than it may be; otherwise it says which of the three holds: no record,
/// another client's, or an old one, and how old.
pub proof fn client_is_given_up_for_a_reason(
    expected_id: Seq<char>,
    record: Option<RecordFields>,
    now_ms: nat,
    stale_after_ms: nat,
)
    ensures
        match reopen_of(expected_id, record, now_ms, stale_after_ms) {
            None => record matches Some(r) && r.id == expected_id && now_ms <= r.updated_ms
                + stale_after_ms,
            Some(ReopenFact::Missing) => record is None,
            Some(ReopenFact::Replaced { old_id, new_id }) => record matches Some(r) && r.id
                != expected_id && old_id == expected_id && new_id == r.id,
            Some(ReopenFact::Stale { age_ms }) => record matches Some(r) && r.id == expected_id
                && now_ms > r.updated_ms + stale_after_ms && age_ms == now_ms - r.updated_ms,
        },
{
}

/// The heartbeat is off only where the variable says something that is not a no.
pub proof fn heartbeat_is_off_where_told(value: Option<Seq<char>>)
    ensures
        disables(value) <==> (value matches Some(v) && v != ""@ && v != "0"@ && v != "false"@ && v
            != "off"@ && v != "no"@),
{
    reveal_strlit("");
    if let Some(v) = value {
        if v.len() == 0 {
            assert(v =~= ""@);
        }
    }
}

/// A client beats at once and then each time its interval has passed, and the daemon
/// looks at once and then each time its own has.
pub proof fn heartbeats_keep_their_interval(
    client: ClientHeartbeat,
    monitor: HeartbeatMonitor,
    at: u128,
)
    ensures
        client.is_due(at) <==> (client.written_at matches Some(last) ==> at >= last
            + client.interval_ms),
        monitor.is_due(at) <==> (monitor.checked_at matches Some(last) ==> at >= last
            + monitor.check_interval_ms),
{
}

/// The name of a prefix's file has a character for each of the prefix's: the same one
/// where it is an ASCII letter, a digit, a dash or an underscore, and otherwise an
/// underscore.
pub proof fn sanitized_is_a_file_name(prefix: Seq<char>)
    ensures
        sanitized(prefix).len() == prefix.len(),
        forall|i: int|
            #![trigger sanitized(prefix)[i]]
            0 <= i < prefix.len() ==> {
                let c = prefix[i];
                sanitized(prefix)[i] == if ('a' <= c <= 'z') || ('A' <= c <= 'Z') || ('0' <= c
                    <= '9') || c == '-' || c == '_' {
                    c
                } else {
                    '_'
                }
            },
{
}

/// Heartbeat files of prefixes with different names are different files of the same
/// directory, and the file that a process prepares is never one of them.
pub proof fn heartbeat_files_are_apart(dir: Seq<char>, a: Seq<char>, b: Seq<char>, pid: nat)
    ensures
        dir.is_prefix_of(heartbeat_file(dir, a)),
        dir.is_prefix_of(heartbeat_draft(dir, a, pid)),
        heartbeat_file(dir, a) == heartbeat_file(dir, b) <==> sanitized(a) == sanitized(b),
        heartbeat_draft(dir, a, pid) != heartbeat_file(dir, b),
{
    reveal_strlit("/");
    reveal_strlit(".heartbeat");
    let (x, y, z) = (heartbeat_file(dir, a), heartbeat_file(dir, b), heartbeat_draft(dir, a, pid));
    let start = if dir.len() == 0 || dir.last() == '/' {
        dir.len() as int
    } else {
        dir.len() as int + 1
    };
    assert(dir =~= x.subrange(0, dir.len() as int));
    assert(dir =~= z.subrange(0, dir.len() as int));
    assert(x.subrange(start, x.len() - 10) =~= sanitized(a));
    assert(y.subrange(start, y.len() - 10) =~= sanitized(b));
    lemma_dec_digits(pid);
    assert(z.last() == dec(pid).last());
    assert(is_digit(dec(pid)[dec(pid).len() - 1]));
    assert(y.last() == 't');
}

/// A client's id names its process, the time and its number: two that differ in one of
/// these have different ids.
pub proof fn connection_ids_are_apart(
    pid: nat,
    now_ms: nat,
    seq: nat,
    other_pid: nat,
    other_ms: nat,
    other_seq: nat,
)
    requires
        connection_id(pid, now_ms, seq) == connection_id(other_pid, other_ms, other_seq),
    ensures
        pid == other_pid,
        now_ms == other_ms,
        seq == other_seq,
{
    lemma_id_parts(pid, now_ms, seq);
    lemma_id_parts(other_pid, other_ms, other_seq);
    let parts = split_char(connection_id(pid, now_ms, seq), '-');
    assert(parts[0] == dec(pid) && parts[0] == dec(other_pid));
    assert(parts[1] == dec(now_ms) && parts[1] == dec(other_ms));
    assert(parts[2] == dec(seq) && parts[2] == dec(other_seq));
    lemma_dec_value(pid);
    lemma_dec_value(other_pid);
    lemma_dec_value(now_ms);
    lemma_dec_value(other_ms);
    lemma_dec_value(seq);
    lemma_dec_value(other_seq);
}

proof fn lemma_id_parts(pid: nat, now_ms: nat, seq: nat)
    ensures
        split_char(connection_id(pid, now_ms, seq), '-') == seq![dec(pid), dec(now_ms), dec(seq)],
{
    reveal_strlit("-");
    lemma_dec_digits(pid);
    lemma_dec_digits(now_ms);
    lemma_dec_digits(seq);
    let tail = dec(now_ms) + seq!['-'] + dec(seq);
    assert(connection_id(pid, now_ms, seq) =~= dec(pid) + seq!['-'] + tail);
    lemma_split_first(dec(pid), '-', tail);
    lemma_split_first(dec(now_ms), '-', dec(seq));
    lemma_split_whole(dec(seq), '-');
    assert(split_char(connection_id(pid, now_ms, seq), '-') =~= seq![
        dec(pid),
        dec(now_ms),
        dec(seq),
    ]);
}

/// A record is read only from a text that names a client, a process and a time, each
/// on a line of its own.
pub proof fn record_names_all(text: Seq<char>)
    requires
        record_parsed(text) is Some,
    ensures
        lines_of(text).contains("id="@ + record_parsed(text)->0.id),
        exists|i: int|
            0 <= i < lines_of(text).len() && "pid="@.is_prefix_of(#[trigger] lines_of(text)[i])
                && parsed_uint(lines_of(text)[i].skip(4), u32::MAX as nat) == Some(
                record_parsed(text)->0.pid,
            ),
        exists|i: int|
            0 <= i < lines_of(text).len() && "updated_ms="@.is_prefix_of(
                #[trigger] lines_of(text)[i],
            ) && parsed_uint(lines_of(text)[i].skip(11), u128::MAX as nat) == Some(
                record_parsed(text)->0.updated_ms,
            ),
{
    reveal_strlit("pid=");
    reveal_strlit("updated_ms=");
    lemma_fields_named(lines_of(text));
}

proof fn lemma_fields_named(lines: Seq<Seq<char>>)
    ensures
        fields_of(lines).id matches Some(id) ==> lines.contains("id="@ + id),
        fields_of(lines).pid matches Some(pid) ==> exists|i: int|
            0 <= i < lines.len() && "pid="@.is_prefix_of(#[trigger] lines[i]) && parsed_uint(
                lines[i].skip("pid="@.len() as int),
                u32::MAX as nat,
            ) == Some(pid),
        fields_of(lines).updated_ms matches Some(updated_ms) ==> exists|i: int|
            0 <= i < lines.len() && "updated_ms="@.is_prefix_of(#[trigger] lines[i]) && parsed_uint(
                lines[i].skip("updated_ms="@.len() as int),
                u128::MAX as nat,
            ) == Some(updated_ms),
    decreases lines.len(),
{
    if lines.len() > 0 {
        let earlier = lines.drop_last();
        let last = lines.len() - 1;
        lemma_fields_named(earlier);
        assert forall|i: int| 0 <= i < earlier.len() implies #[trigger] earlier[i] == lines[i] by {}
        if "id="@.is_prefix_of(lines[last]) {
            assert("id="@ + lines[last].skip("id="@.len() as int) =~= lines[last]);
        } else if let Some(id) = fields_of(earlier).id {
            let i = choose|i: int| 0 <= i < earlier.len() && earlier[i] == "id="@ + id;
            assert(lines[i] == "id="@ + id);
        }
        if "id="@.is_prefix_of(lines[last]) || !"pid="@.is_prefix_of(lines[last]) {
            if let Some(pid) = fields_of(earlier).pid {
                let i = choose|i: int|
                    0 <= i < earlier.len() && "pid="@.is_prefix_of(#[trigger] earlier[i])
                        && parsed_uint(earlier[i].skip("pid="@.len() as int), u32::MAX as nat)
                        == Some(pid);
                assert("pid="@.is_prefix_of(lines[i]));
            }
        } else {
            assert("pid="@.is_prefix_of(lines[last]));
        }
        if fields_of(lines).updated_ms == fields_of(earlier).updated_ms {
            if let Some(updated_ms) = fields_of(earlier).updated_ms {
                let i = choose|i: int|
                    0 <= i < earlier.len() && "updated_ms="@.is_prefix_of(#[trigger] earlier[i])
                        && parsed_uint(
                        earlier[i].skip("updated_ms="@.len() as int),
                        u128::MAX as nat,
                    ) == Some(updated_ms);
                assert("updated_ms="@.is_prefix_of(lines[i]));
            }
        } else {
            assert("updated_ms="@.is_prefix_of(lines[last]));
        }
    }
}

} // verus!
