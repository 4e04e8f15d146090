//! What an archive can hold. An offset in it is a 32-bit number with a sign, so
//! what a field or an entry refers to stands at most two gibibytes before it, and
//! the length of a text takes 30 bits.

use vstd::prelude::*;

use crate::text::{blobs, byte_len, text_opt, texts};

verus! {

/// How many bytes back an offset reaches.
pub const REACH: u64 = 0x8000_0000;

/// The bytes of an entry in a list: its length and its offset, or a short text.
pub const ENTRY_BYTES: usize = 8;

/// The most bytes that a text of an archive may take.
pub const TEXT_MAX: usize = 0x3fff_ffff;

// ---- texts ----

/// The bytes that a text takes outside the entry or field that refers to it. One
/// of eight bytes at most stands inside.
pub open spec fn stored_len(text: Seq<char>) -> nat {
    if byte_len(text) <= ENTRY_BYTES {
        0
    } else {
        byte_len(text)
    }
}

/// The bytes that an optional text takes.
pub open spec fn stored_opt(text: Option<Seq<char>>) -> nat {
    match text {
        Some(t) => stored_len(t),
        None => 0,
    }
}

/// Whether a text is short enough for an archive.
pub open spec fn is_short(text: Seq<char>) -> bool {
    byte_len(text) <= TEXT_MAX
}

/// Whether all texts of a list are short enough for an archive.
pub open spec fn all_short(list: Seq<Seq<char>>) -> bool {
    forall|i: int| 0 <= i < list.len() ==> is_short(#[trigger] list[i])
}

/// Whether an optional text is short enough for an archive.
pub open spec fn is_short_opt(text: Option<Seq<char>>) -> bool {
    match text {
        Some(t) => is_short(t),
        None => true,
    }
}

/// Whether a text is refused as too long. Only the low 32 bits of its length count.
pub open spec fn is_refused(text: Seq<char>) -> bool {
    byte_len(text) % 0x1_0000_0000 > TEXT_MAX
}

/// Whether a text of a list is refused as too long.
pub open spec fn any_refused(list: Seq<Seq<char>>) -> bool {
    exists|i: int| 0 <= i < list.len() && is_refused(#[trigger] list[i])
}

/// Whether an optional text is refused as too long.
pub open spec fn is_refused_opt(text: Option<Seq<char>>) -> bool {
    match text {
        Some(t) => is_refused(t),
        None => false,
    }
}

// ---- positions ----

/// A position moved up to the next multiple of four, where a list starts.
pub open spec fn padded4(at: nat) -> nat {
    (at + 3) / 4 * 4
}

/// A position moved up to the next multiple of eight, where a message starts that
/// holds a 64-bit number.
pub open spec fn padded8(at: nat) -> nat {
    (at + 7) / 8 * 8
}

/// The bytes that the texts of a list take outside their entries.
pub open spec fn texts_bytes(list: Seq<Seq<char>>) -> nat
    decreases list.len(),
{
    if list.len() == 0 {
        0
    } else {
        texts_bytes(list.drop_last()) + stored_len(list.last())
    }
}

/// The bytes that the payloads of a list take.
pub open spec fn payloads_bytes(list: Seq<Seq<u8>>) -> nat
    decreases list.len(),
{
    if list.len() == 0 {
        0
    } else {
        payloads_bytes(list.drop_last()) + list.last().len()
    }
}

/// Whether an entry of a list of texts reaches its text. The texts stand one after
/// the other from `start`, the entries from `entries`.
pub open spec fn text_reached(list: Seq<Seq<char>>, start: nat, entries: nat, i: int) -> bool {
    stored_len(list[i]) > 0 ==> entries + ENTRY_BYTES * i <= REACH + start + texts_bytes(
        list.take(i),
    )
}

/// Whether each entry of a list of texts reaches its text.
pub open spec fn texts_reach(list: Seq<Seq<char>>, start: nat, entries: nat) -> bool {
    forall|i: int| 0 <= i < list.len() ==> #[trigger] text_reached(list, start, entries, i)
}

/// Whether an entry of a list of payloads reaches its payload. The payloads stand
/// one after the other from `start`, the entries from `entries`.
pub open spec fn payload_reached(list: Seq<Seq<u8>>, start: nat, entries: nat, i: int) -> bool {
    entries + ENTRY_BYTES * i <= REACH + start + payloads_bytes(list.take(i))
}

/// Whether each entry of a list of payloads reaches its payload.
pub open spec fn payloads_reach(list: Seq<Seq<u8>>, start: nat, entries: nat) -> bool {
    forall|i: int| 0 <= i < list.len() ==> #[trigger] payload_reached(list, start, entries, i)
}

proof fn lemma_texts_bytes_grow(list: Seq<Seq<char>>, n: int)
    requires
        0 <= n <= list.len(),
    ensures
        texts_bytes(list.take(n)) <= texts_bytes(list),
    decreases list.len(),
{
    if n == list.len() {
        assert(list.take(n) =~= list);
    } else {
        assert(list.drop_last().take(n) =~= list.take(n));
        lemma_texts_bytes_grow(list.drop_last(), n);
    }
}

proof fn lemma_payloads_bytes_grow(list: Seq<Seq<u8>>, n: int)
    requires
        0 <= n <= list.len(),
    ensures
        payloads_bytes(list.take(n)) <= payloads_bytes(list),
    decreases list.len(),
{
    if n == list.len() {
        assert(list.take(n) =~= list);
    } else {
        assert(list.drop_last().take(n) =~= list.take(n));
        lemma_payloads_bytes_grow(list.drop_last(), n);
    }
}

/// Texts that their entries reach do not take more than an offset reaches.
pub(crate) proof fn lemma_reached_texts(list: Seq<Seq<char>>, start: nat, entries: nat)
    requires
        texts_reach(list, start, entries),
    ensures
        texts_bytes(list) > 0 ==> entries <= REACH + start,
    decreases list.len(),
{
    if list.len() > 0 {
        let rest = list.drop_last();
        let last = list.len() - 1;
        assert(list.take(last) =~= rest);
        assert(text_reached(list, start, entries, last));
        assert forall|i: int| 0 <= i < rest.len() implies #[trigger] text_reached(
            rest,
            start,
            entries,
            i,
        ) by {
            assert(text_reached(list, start, entries, i));
            assert(rest.take(i) =~= list.take(i));
        }
        lemma_reached_texts(rest, start, entries);
    }
}

/// Payloads that their entries reach do not take more than an offset reaches.
pub(crate) proof fn lemma_reached_payloads(list: Seq<Seq<u8>>, start: nat, entries: nat)
    requires
        payloads_reach(list, start, entries),
    ensures
        payloads_bytes(list) > 0 ==> entries <= REACH + start,
{
    if list.len() > 0 {
        assert(payload_reached(list, start, entries, 0));
        assert(payloads_bytes(list.take(0)) == 0);
    }
}

// ---- measuring ----

/// The bytes that a text takes outside the entry or field that refers to it.
pub(crate) fn stored_bytes(text: &str) -> (len: usize)
    ensures
        len == stored_len(text@),
{
    let len: usize = text.as_bytes().len();
    if len <= ENTRY_BYTES {
        0
    } else {
        len
    }
}

/// Tells whether a text is short enough for an archive.
pub(crate) fn short(text: &str) -> (is: bool)
    ensures
        is == is_short(text@),
{
    text.as_bytes().len() <= TEXT_MAX
}

/// Tells whether a text is refused as too long.
pub(crate) fn refused(text: &str) -> (is: bool)
    ensures
        is == is_refused(text@),
{
    text.as_bytes().len() as u64 % 0x1_0000_0000 > TEXT_MAX as u64
}

/// Tells whether all texts of a list are short enough for an archive.
pub(crate) fn texts_short(list: &[String]) -> (are: bool)
    ensures
        are == all_short(texts(list@)),
{
    let ghost all = texts(list@);
    let mut i: usize = 0;
    while i < list.len()
        invariant
            i <= list@.len(),
            all == texts(list@),
            forall|j: int| 0 <= j < i ==> is_short(#[trigger] all[j]),
        decreases list@.len() - i,
    {
        assert(all[i as int] == list@[i as int]@);
        if !short(list[i].as_str()) {
            return false;
        }
        i = i + 1;
    }
    true
}

/// Tells whether a text of a list is refused as too long.
pub(crate) fn texts_refused(list: &[String]) -> (are: bool)
    ensures
        are == any_refused(texts(list@)),
{
    let ghost all = texts(list@);
    let mut i: usize = 0;
    while i < list.len()
        invariant
            i <= list@.len(),
            all == texts(list@),
            forall|j: int| 0 <= j < i ==> !is_refused(#[trigger] all[j]),
        decreases list@.len() - i,
    {
        assert(all[i as int] == list@[i as int]@);
        if refused(list[i].as_str()) {
            return true;
        }
        i = i + 1;
    }
    false
}

/// The bytes that the texts of a list take outside their entries; none where they
/// are more than an offset reaches.
pub(crate) fn texts_total(list: &[String]) -> (total: Option<u64>)
    ensures
        match total {
            Some(n) => n == texts_bytes(texts(list@)) && n <= REACH,
            None => texts_bytes(texts(list@)) > REACH,
        },
{
    let ghost all = texts(list@);
    let mut total: u64 = 0;
    let mut i: usize = 0;
    while i < list.len()
        invariant
            i <= list@.len(),
            all == texts(list@),
            total == texts_bytes(all.take(i as int)),
            total <= REACH,
        decreases list@.len() - i,
    {
        let len: u64 = stored_bytes(list[i].as_str()) as u64;
        proof {
            assert(all.take(i + 1).drop_last() =~= all.take(i as int));
            assert(all.take(i + 1).last() == list@[i as int]@);
            lemma_texts_bytes_grow(all, i + 1);
        }
        if len > REACH - total {
            return None;
        }
        total = total + len;
        i = i + 1;
    }
    assert(all.take(i as int) =~= all);
    Some(total)
}

/// The bytes that the payloads of a list take; none where they are more than an
/// offset reaches.
pub(crate) fn payloads_total(list: &[Vec<u8>]) -> (total: Option<u64>)
    ensures
        match total {
            Some(n) => n == payloads_bytes(blobs(list@)) && n <= REACH,
            None => payloads_bytes(blobs(list@)) > REACH,
        },
{
    let ghost all = blobs(list@);
    let mut total: u64 = 0;
    let mut i: usize = 0;
    while i < list.len()
        invariant
            i <= list@.len(),
            all == blobs(list@),
            total == payloads_bytes(all.take(i as int)),
            total <= REACH,
        decreases list@.len() - i,
    {
        let len: u64 = list[i].len() as u64;
        proof {
            assert(all.take(i + 1).drop_last() =~= all.take(i as int));
            assert(all.take(i + 1).last() == list@[i as int]@);
            lemma_payloads_bytes_grow(all, i + 1);
        }
        if len > REACH - total {
            return None;
        }
        total = total + len;
        i = i + 1;
    }
    assert(all.take(i as int) =~= all);
    Some(total)
}

/// Tells whether each entry of a list of texts reaches its text.
pub(crate) fn reaches_texts(list: &[String], start: u64, entries: u64) -> (reaches: bool)
    requires
        start <= 4 * REACH,
        entries <= 4 * REACH,
        texts_bytes(texts(list@)) <= REACH,
        ENTRY_BYTES * list@.len() <= REACH,
    ensures
        reaches == texts_reach(texts(list@), start as nat, entries as nat),
{
    let ghost all = texts(list@);
    let mut at: u64 = start;
    let mut i: usize = 0;
    while i < list.len()
        invariant
            i <= list@.len(),
            all == texts(list@),
            start <= 4 * REACH,
            entries <= 4 * REACH,
            texts_bytes(all) <= REACH,
            ENTRY_BYTES * list@.len() <= REACH,
            at == start + texts_bytes(all.take(i as int)),
            forall|j: int|
                0 <= j < i ==> #[trigger] text_reached(all, start as nat, entries as nat, j),
        decreases list@.len() - i,
    {
        let len: u64 = stored_bytes(list[i].as_str()) as u64;
        proof {
            assert(all[i as int] == list@[i as int]@);
            assert(all.take(i + 1).drop_last() =~= all.take(i as int));
            assert(all.take(i + 1).last() == list@[i as int]@);
            lemma_texts_bytes_grow(all, i + 1);
        }
        if len > 0 && entries + ENTRY_BYTES as u64 * i as u64 > REACH + at {
            assert(!text_reached(all, start as nat, entries as nat, i as int));
            return false;
        }
        at = at + len;
        i = i + 1;
    }
    true
}

/// Tells whether each entry of a list of payloads reaches its payload.
pub(crate) fn reaches_payloads(list: &[Vec<u8>], start: u64, entries: u64) -> (reaches: bool)
    requires
        start <= 4 * REACH,
        entries <= 8 * REACH,
        payloads_bytes(blobs(list@)) <= REACH,
    ensures
        reaches == payloads_reach(blobs(list@), start as nat, entries as nat),
{
    let ghost all = blobs(list@);
    let mut at: u64 = start;
    let mut entry: u64 = entries;
    let mut i: usize = 0;
    while i < list.len()
        invariant
            i <= list@.len(),
            all == blobs(list@),
            start <= 4 * REACH,
            entries <= 8 * REACH,
            payloads_bytes(all) <= REACH,
            at == start + payloads_bytes(all.take(i as int)),
            entry == entries + ENTRY_BYTES * i,
            entry <= 16 * REACH,
            at <= 5 * REACH,
            forall|j: int|
                0 <= j < i ==> #[trigger] payload_reached(all, start as nat, entries as nat, j),
        decreases list@.len() - i,
    {
        let len: u64 = list[i].len() as u64;
        proof {
            assert(all.take(i + 1).drop_last() =~= all.take(i as int));
            assert(all.take(i + 1).last() == list@[i as int]@);
            lemma_payloads_bytes_grow(all, i + 1);
        }
        if entry > REACH + at {
            assert(!payload_reached(all, start as nat, entries as nat, i as int));
            return false;
        }
        at = at + len;
        entry = entry + ENTRY_BYTES as u64;
        i = i + 1;
    }
    true
}

/// The bytes that an optional text takes.
pub(crate) fn stored_bytes_opt(text: &Option<String>) -> (len: usize)
    ensures
        len == stored_opt(text_opt(*text)),
{
    match text {
        Some(t) => stored_bytes(t.as_str()),
        None => 0,
    }
}

/// Tells whether an optional text is short enough for an archive.
pub(crate) fn short_opt(text: &Option<String>) -> (is: bool)
    ensures
        is == is_short_opt(text_opt(*text)),
{
    match text {
        Some(t) => short(t.as_str()),
        None => true,
    }
}

/// Tells whether an optional text is refused as too long.
pub(crate) fn refused_opt(text: &Option<String>) -> (is: bool)
    ensures
        is == is_refused_opt(text_opt(*text)),
{
    match text {
        Some(t) => refused(t.as_str()),
        None => false,
    }
}

} // verus!
