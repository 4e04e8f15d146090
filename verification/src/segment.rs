//! Names of the shared-memory segments behind a daemon prefix.

use vstd::prelude::*;
use vstd::utf8::encode_utf8;

use crate::text::{byte_len, dec, push_dec, texts};
use crate::wire::{WireCodecError, WireFault};

verus! {

/// The consumer of the request ring: the daemon.
pub const REQ_CONSUMER_ID: &'static str = "dn";

/// The consumer of the response ring: the client.
pub const RESP_CONSUMER_ID: &'static str = "cn";

/// What every segment name starts with.
const SHM_PREFIX: &'static str = "wk";

/// The longest suffix that a ring appends to its segment's name,
/// `_producer_seq`.
pub const MAX_DISRUPTOR_INTERNAL_SUFFIX_LEN: usize = 13;

/// The longest portable name of a POSIX shared-memory segment, one byte below
/// the limit of the strictest platform.
pub const SHM_SEGMENT_NAME_MAX_LEN_MACOS: usize = 30;

/// The name of a prefix's segment in the given role.
pub open spec fn segment_name(prefix: Seq<char>, role: char) -> Seq<char> {
    "wk"@ + prefix + seq![role]
}

/// Build the request and response segment names for a daemon prefix,
/// `wk<prefix>r` and `wk<prefix>s`.
pub fn segment_names(prefix: &str) -> (names: (String, String))
    ensures
        names.0@ == segment_name(prefix@, 'r'),
        names.1@ == segment_name(prefix@, 's'),
{
    (named(prefix, 'r'), named(prefix, 's'))
}

fn named(prefix: &str, role: char) -> (name: String)
    ensures
        name@ == segment_name(prefix@, role),
{
    let mut name = String::new();
    name.push_str(SHM_PREFIX);
    name.push_str(prefix);
    name.push(role);
    assert(name@ =~= segment_name(prefix@, role));
    name
}

/// The bytes of two texts in a row are the bytes of the one followed by those
/// of the other.
pub proof fn lemma_encode_concat(a: Seq<char>, b: Seq<char>)
    ensures
        encode_utf8(a + b) == encode_utf8(a) + encode_utf8(b),
    decreases a.len(),
{
    if a.len() == 0 {
        assert(a + b =~= b);
        assert(encode_utf8(a) + encode_utf8(b) =~= encode_utf8(b));
    } else {
        lemma_encode_concat(a.drop_first(), b);
        assert((a + b).drop_first() =~= a.drop_first() + b);
        assert(encode_utf8(a + b) =~= encode_utf8(a) + encode_utf8(b));
    }
}

/// A segment name is three bytes longer than the prefix.
proof fn lemma_segment_name_len(prefix: Seq<char>, role: char)
    requires
        role == 'r' || role == 's',
    ensures
        byte_len(segment_name(prefix, role)) == byte_len(prefix) + 3,
{
    reveal_strlit("wk");
    reveal_with_fuel(encode_utf8, 3);
    lemma_encode_concat("wk"@ + prefix, seq![role]);
    lemma_encode_concat("wk"@, prefix);
}

/// `myelon::PORTABLE_SHM_SEGMENT_NAME_MAX_LEN`, the name length that every
/// platform takes: 14.
#[verifier::external_body]
fn portable_name_max() -> (len: usize)
    ensures
        len == 14,
{
    myelon::PORTABLE_SHM_SEGMENT_NAME_MAX_LEN
}

/// What is said of a prefix whose segment names are too long.
pub open spec fn budget_text(prefix: Seq<char>) -> Seq<char> {
    let base = segment_name(prefix, 'r');
    "wombatkv: SHM segment '"@ + base + "_producer_seq' ("@ + dec(byte_len(base) + 13)
        + " chars) exceeds the macOS POSIX-SHM budget of "@ + dec(30)
        + " chars. Shorten the daemon prefix '"@ + prefix + "' ("@ + dec(byte_len(prefix))
        + " chars) to at most "@ + dec(14)
        + " chars. The internal disruptor-mp segments add up to "@ + dec(13)
        + " chars of suffix ('_producer_seq' is the longest); the wombatkv wrapper adds '"@ + "wk"@
        + "' + 1-char role. For strict cross-platform portability (Linux, FreeBSD), see `myelon::portable_shm_segment_name`, recommends total name ≤ "@
        + dec(14) + " chars."@
}

/// Check that every segment name derived from a prefix, with the longest suffix
/// that a ring appends, fits the strictest platform's limit. That holds of the
/// prefixes of at most fourteen bytes.
pub fn validate_segment_name_budget(prefix: &str) -> (checked: Result<(), WireCodecError>)
    ensures
        checked is Ok <==> byte_len(prefix@) <= 14,
        checked matches Err(e) ==> e@ == WireFault::SegmentNameBudget(budget_text(prefix@)),
{
    let (req, resp) = segment_names(prefix);
    proof {
        lemma_segment_name_len(prefix@, 'r');
        lemma_segment_name_len(prefix@, 's');
    }
    if exceeds_budget(&req) || exceeds_budget(&resp) {
        let base_len: usize = req.as_str().as_bytes().len();
        let prefix_len: usize = prefix.as_bytes().len();
        let fixed: usize = 2 + 1 + MAX_DISRUPTOR_INTERNAL_SUFFIX_LEN;
        let mut text = String::new();
        text.push_str("wombatkv: SHM segment '");
        text.push_str(&req);
        text.push_str("_producer_seq' (");
        push_dec(&mut text, base_len as u128 + MAX_DISRUPTOR_INTERNAL_SUFFIX_LEN as u128);
        text.push_str(" chars) exceeds the macOS POSIX-SHM budget of ");
        push_dec(&mut text, SHM_SEGMENT_NAME_MAX_LEN_MACOS as u128);
        text.push_str(" chars. Shorten the daemon prefix '");
        text.push_str(prefix);
        text.push_str("' (");
        push_dec(&mut text, prefix_len as u128);
        text.push_str(" chars) to at most ");
        push_dec(&mut text, (SHM_SEGMENT_NAME_MAX_LEN_MACOS - fixed) as u128);
        text.push_str(" chars. The internal disruptor-mp segments add up to ");
        push_dec(&mut text, MAX_DISRUPTOR_INTERNAL_SUFFIX_LEN as u128);
        text.push_str(
            " chars of suffix ('_producer_seq' is the longest); the wombatkv wrapper adds '",
        );
        text.push_str(SHM_PREFIX);
        text.push_str(
            "' + 1-char role. For strict cross-platform portability (Linux, FreeBSD), see `myelon::portable_shm_segment_name`, recommends total name ≤ ",
        );
        push_dec(&mut text, portable_name_max() as u128);
        text.push_str(" chars.");
        assert(text@ =~= budget_text(prefix@));
        return Err(WireCodecError::SegmentNameBudget(text));
    }
    Ok(())
}

fn exceeds_budget(base: &String) -> (exceeds: bool)
    ensures
        exceeds == (byte_len(base@) + 13 > 30),
{
    base.as_str().as_bytes().len() > SHM_SEGMENT_NAME_MAX_LEN_MACOS
        - MAX_DISRUPTOR_INTERNAL_SUFFIX_LEN
}

/// The names of a ring's segments: the ring itself and what it keeps beside it.
pub open spec fn ring_names(base: Seq<char>, consumer_id: Seq<char>) -> Seq<Seq<char>> {
    seq![
        base,
        base + "_cr"@,
        base + "_ci"@,
        base + "_producer_seq"@,
        base + "_"@ + consumer_id + "_seq"@,
    ]
}

fn push_ring_names(names: &mut Vec<String>, base: &str, consumer_id: &str)
    ensures
        texts(final(names)@) == texts(old(names)@) + ring_names(base@, consumer_id@),
{
    names.push(base.to_owned());
    names.push(suffixed(base, "_cr"));
    names.push(suffixed(base, "_ci"));
    names.push(suffixed(base, "_producer_seq"));
    let mut last = suffixed(base, "_");
    last.push_str(consumer_id);
    last.push_str("_seq");
    names.push(last);
    assert(texts(names@) =~= texts(old(names)@) + ring_names(base@, consumer_id@));
}

fn suffixed(base: &str, suffix: &str) -> (name: String)
    ensures
        name@ == base@ + suffix@,
{
    let mut name = base.to_owned();
    name.push_str(suffix);
    name
}

/// The names of all segments of a prefix, to be removed when its client is
/// gone: those of the request ring and those of the response ring.
pub fn cleanup_prefix_segments(prefix: &str) -> (names: Vec<String>)
    ensures
        texts(names@) == ring_names(segment_name(prefix@, 'r'), "dn"@) + ring_names(
            segment_name(prefix@, 's'),
            "cn"@,
        ),
{
    let (req, resp) = segment_names(prefix);
    let mut names: Vec<String> = Vec::new();
    push_ring_names(&mut names, &req, REQ_CONSUMER_ID);
    push_ring_names(&mut names, &resp, RESP_CONSUMER_ID);
    assert(texts(names@) =~= ring_names(segment_name(prefix@, 'r'), "dn"@) + ring_names(
        segment_name(prefix@, 's'),
        "cn"@,
    ));
    names
}

/// Two segment names are equal only for the same prefix and role.
pub proof fn segment_names_unique(a: Seq<char>, b: Seq<char>, r1: char, r2: char)
    requires
        segment_name(a, r1) == segment_name(b, r2),
    ensures
        a == b && r1 == r2,
{
    let x = segment_name(a, r1);
    let y = segment_name(b, r2);
    assert(x.last() == r1 && y.last() == r2);
    assert(a =~= x.subrange("wk"@.len() as int, x.len() - 1));
    assert(b =~= y.subrange("wk"@.len() as int, y.len() - 1));
}

} // verus!
