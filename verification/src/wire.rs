//! The daemon's wire messages: requests and responses, key and payload
//! batches, and the block-shaped payloads that ride inside them.

use bytes::Bytes;
use vstd::prelude::*;
use vstd::utf8::{decode_utf8, encode_utf8, valid_utf8};

use crate::le::{
    copy_bytes, get_u32, le_bytes, le_value, lemma_le_bytes_len, lemma_le_capacities,
    lemma_le_round_trip, lemma_le_unique, push_bytes, push_len, starts_with,
};
use crate::text::{byte_list, dec, push_byte_list, push_dec, texts, utf8_error_text, utf8_text};

verus! {

/// Per-frame data budget of a ring slot: 4 MiB minus a 16-byte header.
pub const FRAME_DATA_BYTES: usize = 4 * 1024 * 1024 - 16;

/// Ring depth: in-flight slots per direction.
pub const DEFAULT_RING_DEPTH: usize = 16;

/// `WMBT_KV_KEYS_V1`, NUL-terminated.
pub const KEY_BATCH_MAGIC: [u8; 16] = [
    0x57, 0x4d, 0x42, 0x54, 0x5f, 0x4b, 0x56, 0x5f, 0x4b, 0x45, 0x59, 0x53, 0x5f, 0x56, 0x31, 0x00,
];

/// `WMBT_KV_BYTES_V1`, NUL-terminated.
pub const BYTES_BATCH_MAGIC: [u8; 17] = [
    0x57, 0x4d, 0x42, 0x54, 0x5f, 0x4b, 0x56, 0x5f, 0x42, 0x59, 0x54, 0x45, 0x53, 0x5f, 0x56, 0x31,
    0x00,
];

/// `WMBT_LBP_REQ`, NUL-padded.
pub const LOOKUP_BLOCK_PREFIX_REQ_MAGIC: [u8; 16] = [
    0x57, 0x4d, 0x42, 0x54, 0x5f, 0x4c, 0x42, 0x50, 0x5f, 0x52, 0x45, 0x51, 0x00, 0x00, 0x00, 0x00,
];

/// `WMBT_LBP_RES`, NUL-padded.
pub const LOOKUP_BLOCK_PREFIX_RESP_MAGIC: [u8; 16] = [
    0x57, 0x4d, 0x42, 0x54, 0x5f, 0x4c, 0x42, 0x50, 0x5f, 0x52, 0x45, 0x53, 0x00, 0x00, 0x00, 0x00,
];

/// `WMBT_GBB_REQ`, NUL-padded.
pub const GET_KV_BLOCKS_BATCH_REQ_MAGIC: [u8; 16] = [
    0x57, 0x4d, 0x42, 0x54, 0x5f, 0x47, 0x42, 0x42, 0x5f, 0x52, 0x45, 0x51, 0x00, 0x00, 0x00, 0x00,
];

/// `WMBT_GBB_RES`, NUL-padded.
pub const GET_KV_BLOCKS_BATCH_RESP_MAGIC: [u8; 16] = [
    0x57, 0x4d, 0x42, 0x54, 0x5f, 0x47, 0x42, 0x42, 0x5f, 0x52, 0x45, 0x53, 0x00, 0x00, 0x00, 0x00,
];

/// `WMBT_PBB_REQ`, NUL-padded.
pub const PUT_KV_BLOCKS_BATCH_REQ_MAGIC: [u8; 16] = [
    0x57, 0x4d, 0x42, 0x54, 0x5f, 0x50, 0x42, 0x42, 0x5f, 0x52, 0x45, 0x51, 0x00, 0x00, 0x00, 0x00,
];

/// `WMBT_PBB_RES`, NUL-padded.
pub const PUT_KV_BLOCKS_BATCH_RESP_MAGIC: [u8; 16] = [
    0x57, 0x4d, 0x42, 0x54, 0x5f, 0x50, 0x42, 0x42, 0x5f, 0x52, 0x45, 0x53, 0x00, 0x00, 0x00, 0x00,
];

// ---- shared byte buffers ----

/// `bytes::Bytes`, a cheaply sliced and shared byte buffer.
#[verifier::external_type_specification]
#[verifier::external_body]
pub struct ExBytes(bytes::Bytes);

/// The bytes that a shared buffer holds.
pub uninterp spec fn bytes_of(buffer: Bytes) -> Seq<u8>;

/// The contents of a sequence of shared buffers.
pub open spec fn buffers(items: Seq<Bytes>) -> Seq<Seq<u8>> {
    items.map_values(|b: Bytes| bytes_of(b))
}

/// `Bytes::deref`: the whole buffer as a slice.
#[verifier::external_body]
pub(crate) fn bytes_slice(buffer: &Bytes) -> (slice: &[u8])
    ensures
        slice@ == bytes_of(*buffer),
{
    buffer
}

/// `Bytes::slice`: a buffer over the given range of this one.
#[verifier::external_body]
pub(crate) fn bytes_range(buffer: &Bytes, start: usize, end: usize) -> (part: Bytes)
    requires
        start <= end <= bytes_of(*buffer).len(),
    ensures
        bytes_of(part) == bytes_of(*buffer).subrange(start as int, end as int),
{
    buffer.slice(start..end)
}

/// `Bytes::from`: a buffer with the bytes of a vector.
#[verifier::external_body]
pub(crate) fn bytes_from(vector: Vec<u8>) -> (buffer: Bytes)
    ensures
        bytes_of(buffer) == vector@,
{
    Bytes::from(vector)
}

/// `Bytes::clone`: another handle on the same bytes.
pub assume_specification[ <bytes::Bytes as Clone>::clone ](buffer: &bytes::Bytes) -> (copy:
    bytes::Bytes)
    ensures
        bytes_of(copy) == bytes_of(*buffer),
;

// ---- errors ----

/// Typed error for the daemon's wire-codec helpers (encode/decode/
/// validate). Each variant carries enough context to be operator-actionable.
#[derive(Debug)]
pub enum WireCodecError {
    /// A length prefix or sentinel claimed more bytes than the payload contains.
    Truncated { what: &'static str, needed: usize, at: usize, got: usize },
    /// First N bytes don't match the expected magic for this op.
    BadMagic { op: &'static str, expected: Vec<u8>, got_len: usize, got: Vec<u8> },
    /// Length arithmetic would overflow `usize`.
    LengthOverflow { what: &'static str },
    /// Trailing bytes past the parsed end of the payload.
    TrailingBytes { what: &'static str, extra: usize },
    /// Body length stated in the prefix doesn't match the payload bytes.
    BodyLengthMismatch { what: &'static str, claimed: usize, actual: usize },
    /// UTF-8 decode failure for a key/string field.
    Utf8 { what: &'static str, source: String },
    /// Archive encode/decode failure, scoped by op name.
    Rkyv { op: &'static str, source: String },
    /// Shared-memory segment-name budget validation failure.
    SegmentNameBudget(String),
}

/// The contents of a [`WireCodecError`].
pub enum WireFault {
    Truncated { what: Seq<char>, needed: nat, at: nat, got: nat },
    BadMagic { op: Seq<char>, expected: Seq<u8>, got_len: nat, got: Seq<u8> },
    LengthOverflow { what: Seq<char> },
    TrailingBytes { what: Seq<char>, extra: nat },
    BodyLengthMismatch { what: Seq<char>, claimed: nat, actual: nat },
    Utf8 { what: Seq<char>, source: Seq<char> },
    Rkyv { op: Seq<char>, source: Seq<char> },
    SegmentNameBudget(Seq<char>),
}

impl View for WireCodecError {
    type V = WireFault;

    open spec fn view(&self) -> WireFault {
        match *self {
            WireCodecError::Truncated { what, needed, at, got } => WireFault::Truncated {
                what: what@,
                needed: needed as nat,
                at: at as nat,
                got: got as nat,
            },
            WireCodecError::BadMagic { op, expected, got_len, got } => WireFault::BadMagic {
                op: op@,
                expected: expected@,
                got_len: got_len as nat,
                got: got@,
            },
            WireCodecError::LengthOverflow { what } => WireFault::LengthOverflow { what: what@ },
            WireCodecError::TrailingBytes { what, extra } => WireFault::TrailingBytes {
                what: what@,
                extra: extra as nat,
            },
            WireCodecError::BodyLengthMismatch { what, claimed, actual } => {
                WireFault::BodyLengthMismatch {
                    what: what@,
                    claimed: claimed as nat,
                    actual: actual as nat,
                }
            },
            WireCodecError::Utf8 { what, source } => WireFault::Utf8 {
                what: what@,
                source: source@,
            },
            WireCodecError::Rkyv { op, source } => WireFault::Rkyv { op: op@, source: source@ },
            WireCodecError::SegmentNameBudget(text) => WireFault::SegmentNameBudget(text@),
        }
    }
}

/// The displayed text of a wire-codec error.
pub open spec fn wire_fault_text(fault: WireFault) -> Seq<char> {
    match fault {
        WireFault::Truncated { what, needed, at, got } => what + " truncated: need "@ + dec(needed)
            + " bytes at offset "@ + dec(at) + ", payload is "@ + dec(got),
        WireFault::BadMagic { op, expected, got_len, got } => op + ": bad magic; expected "@
            + byte_list(expected) + " got first "@ + dec(got_len) + " bytes "@ + byte_list(got),
        WireFault::LengthOverflow { what } => what + ": length overflow"@,
        WireFault::TrailingBytes { what, extra } => what + ": trailing bytes ("@ + dec(extra)
            + " unread)"@,
        WireFault::BodyLengthMismatch { what, claimed, actual } => what
            + ": body length mismatch (claimed="@ + dec(claimed) + ", actual="@ + dec(actual)
            + ")"@,
        WireFault::Utf8 { what, source } => what + ": utf8: "@ + source,
        WireFault::Rkyv { op, source } => op + ": rkyv: "@ + source,
        WireFault::SegmentNameBudget(text) => text,
    }
}

impl WireCodecError {
    /// The error in words.
    pub fn to_text(&self) -> (text: String)
        ensures
            text@ == wire_fault_text(self@),
    {
        let mut text = String::new();
        match self {
            WireCodecError::Truncated { what, needed, at, got } => {
                text.push_str(what);
                text.push_str(" truncated: need ");
                push_dec(&mut text, *needed as u128);
                text.push_str(" bytes at offset ");
                push_dec(&mut text, *at as u128);
                text.push_str(", payload is ");
                push_dec(&mut text, *got as u128);
            },
            WireCodecError::BadMagic { op, expected, got_len, got } => {
                text.push_str(op);
                text.push_str(": bad magic; expected ");
                push_byte_list(&mut text, expected);
                text.push_str(" got first ");
                push_dec(&mut text, *got_len as u128);
                text.push_str(" bytes ");
                push_byte_list(&mut text, got);
            },
            WireCodecError::LengthOverflow { what } => {
                text.push_str(what);
                text.push_str(": length overflow");
            },
            WireCodecError::TrailingBytes { what, extra } => {
                text.push_str(what);
                text.push_str(": trailing bytes (");
                push_dec(&mut text, *extra as u128);
                text.push_str(" unread)");
            },
            WireCodecError::BodyLengthMismatch { what, claimed, actual } => {
                text.push_str(what);
                text.push_str(": body length mismatch (claimed=");
                push_dec(&mut text, *claimed as u128);
                text.push_str(", actual=");
                push_dec(&mut text, *actual as u128);
                text.push_str(")");
            },
            WireCodecError::Utf8 { what, source } => {
                text.push_str(what);
                text.push_str(": utf8: ");
                text.push_str(source);
            },
            WireCodecError::Rkyv { op, source } => {
                text.push_str(op);
                text.push_str(": rkyv: ");
                text.push_str(source);
            },
            WireCodecError::SegmentNameBudget(message) => {
                text.push_str(message);
            },
        }
        assert(text@ =~= wire_fault_text(self@));
        text
    }
}

// ---- key batches ----

/// The entries of a key batch: each key's length and UTF-8 bytes.
pub open spec fn key_entries(keys: Seq<Seq<char>>) -> Seq<u8>
    decreases keys.len(),
{
    if keys.len() == 0 {
        Seq::empty()
    } else {
        key_entries(keys.drop_last()) + le_bytes(encode_utf8(keys.last()).len(), 4) + encode_utf8(
            keys.last(),
        )
    }
}

/// The bytes of a key batch. Lengths keep their 32 low-order bits.
pub open spec fn key_batch_bytes(keys: Seq<Seq<char>>) -> Seq<u8> {
    KEY_BATCH_MAGIC@ + le_bytes(keys.len(), 4) + key_entries(keys)
}

/// The 32-bit number at a cursor, or why there is none.
pub open spec fn u32_at(payload: Seq<u8>, cursor: nat) -> Result<nat, WireFault> {
    if cursor + 4 > usize::MAX {
        Err(WireFault::LengthOverflow { what: "u32_cursor"@ })
    } else if cursor + 4 > payload.len() {
        Err(WireFault::Truncated { what: "u32"@, needed: 4, at: cursor, got: payload.len() })
    } else {
        Ok(le_value(payload.subrange(cursor as int, (cursor + 4) as int)))
    }
}

/// The `count` keys that start at a cursor and must end with the payload.
pub open spec fn keys_from(payload: Seq<u8>, cursor: nat, count: nat) -> Result<
    Seq<Seq<char>>,
    WireFault,
>
    decreases count,
{
    if count == 0 {
        if cursor != payload.len() {
            Err(
                WireFault::TrailingBytes {
                    what: "key_batch"@,
                    extra: (payload.len() - cursor) as nat,
                },
            )
        } else {
            Ok(Seq::empty())
        }
    } else {
        match u32_at(payload, cursor) {
            Err(fault) => Err(fault),
            Ok(len) => {
                let start = cursor + 4;
                let end = start + len;
                if end > usize::MAX {
                    Err(WireFault::LengthOverflow { what: "key_batch"@ })
                } else if end > payload.len() {
                    Err(
                        WireFault::Truncated {
                            what: "key_batch"@,
                            needed: len,
                            at: start,
                            got: payload.len(),
                        },
                    )
                } else {
                    let key = payload.subrange(start as int, end as int);
                    if !valid_utf8(key) {
                        Err(WireFault::Utf8 { what: "key_batch"@, source: utf8_error_text(key) })
                    } else {
                        match keys_from(payload, end, (count - 1) as nat) {
                            Err(fault) => Err(fault),
                            Ok(rest) => Ok(seq![decode_utf8(key)] + rest),
                        }
                    }
                }
            },
        }
    }
}

/// Why a payload does not start with a magic.
pub open spec fn bad_magic(payload: Seq<u8>, magic: Seq<u8>, op: Seq<char>) -> WireFault {
    let got_len = if magic.len() <= payload.len() {
        magic.len()
    } else {
        payload.len()
    };
    WireFault::BadMagic { op, expected: magic, got_len, got: payload.take(got_len as int) }
}

/// What a key-batch payload decodes to.
pub open spec fn key_batch_decoded(payload: Seq<u8>) -> Result<Seq<Seq<char>>, WireFault> {
    if !KEY_BATCH_MAGIC@.is_prefix_of(payload) {
        Err(bad_magic(payload, KEY_BATCH_MAGIC@, "key_batch"@))
    } else {
        match u32_at(payload, 16) {
            Err(fault) => Err(fault),
            Ok(count) => keys_from(payload, 20, count),
        }
    }
}

/// The texts of decoded keys, or the fault.
pub open spec fn keys_result(result: Result<Vec<String>, WireCodecError>) -> Result<
    Seq<Seq<char>>,
    WireFault,
> {
    match result {
        Ok(keys) => Ok(texts(keys@)),
        Err(error) => Err(error@),
    }
}

/// Encode an ordered key list for the daemon batched GET control path.
pub fn encode_key_batch(keys: &[String]) -> (payload: Vec<u8>)
    ensures
        payload@ == key_batch_bytes(texts(keys@)),
{
    let ghost all = texts(keys@);
    let mut out: Vec<u8> = Vec::new();
    push_bytes(&mut out, &KEY_BATCH_MAGIC);
    push_len(&mut out, keys.len());
    let ghost head = out@;
    let mut i: usize = 0;
    assert(out@ =~= head + key_entries(all.take(0)));
    while i < keys.len()
        invariant
            i <= keys@.len(),
            all == texts(keys@),
            out@ == head + key_entries(all.take(i as int)),
        decreases keys@.len() - i,
    {
        let bytes = keys[i].as_str().as_bytes();
        push_len(&mut out, bytes.len());
        push_bytes(&mut out, bytes);
        proof {
            let upto = all.take(i + 1);
            assert(upto.drop_last() =~= all.take(i as int));
            assert(out@ =~= head + key_entries(upto));
        }
        i = i + 1;
    }
    assert(all.take(i as int) =~= all);
    assert(out@ =~= key_batch_bytes(all));
    out
}

/// Builds the bad-magic error.
pub(crate) fn bad_magic_error(payload: &[u8], magic: &[u8], op: &'static str) -> (error: WireCodecError)
    ensures
        error@ == bad_magic(payload@, magic@, op@),
{
    let got_len: usize = if magic.len() <= payload.len() {
        magic.len()
    } else {
        payload.len()
    };
    let got = copy_bytes(&payload[0..got_len]);
    assert(got@ =~= payload@.take(got_len as int));
    WireCodecError::BadMagic { op, expected: copy_bytes(magic), got_len, got }
}

/// Reads a 32-bit number and moves the cursor behind it.
fn read_u32(payload: &[u8], cursor: &mut usize) -> (value: Result<u32, WireCodecError>)
    ensures
        match value {
            Ok(v) => u32_at(payload@, *old(cursor) as nat) == Ok::<nat, WireFault>(v as nat)
                && *final(cursor) == *old(cursor) + 4 && *final(cursor) <= payload@.len(),
            Err(error) => u32_at(payload@, *old(cursor) as nat) == Err::<nat, WireFault>(error@)
                && *final(cursor) == *old(cursor),
        },
{
    let at: usize = *cursor;
    let end: usize = match at.checked_add(4) {
        Some(end) => end,
        None => {
            return Err(WireCodecError::LengthOverflow { what: "u32_cursor" });
        },
    };
    if end > payload.len() {
        return Err(
            WireCodecError::Truncated { what: "u32", needed: 4, at, got: payload.len() },
        );
    }
    let value: u32 = get_u32(payload, at);
    *cursor = end;
    Ok(value)
}

/// Decode an ordered key list encoded by [`encode_key_batch`].
pub fn decode_key_batch(payload: &[u8]) -> (decoded: Result<Vec<String>, WireCodecError>)
    ensures
        keys_result(decoded) == key_batch_decoded(payload@),
{
    if !starts_with(payload, &KEY_BATCH_MAGIC) {
        return Err(bad_magic_error(payload, &KEY_BATCH_MAGIC, "key_batch"));
    }
    let mut cursor: usize = 16;
    let count: u32 = match read_u32(payload, &mut cursor) {
        Ok(count) => count,
        Err(error) => {
            return Err(error);
        },
    };
    let mut keys: Vec<String> = Vec::new();
    let mut i: u32 = 0;
    proof {
        if let Ok(rest) = keys_from(payload@, 20, count as nat) {
            assert(texts(keys@) + rest =~= rest);
        }
    }
    while i < count
        invariant
            i <= count,
            cursor <= payload@.len(),
            match keys_from(payload@, cursor as nat, (count - i) as nat) {
                Ok(rest) => key_batch_decoded(payload@) == Ok::<Seq<Seq<char>>, WireFault>(
                    texts(keys@) + rest,
                ),
                Err(fault) => key_batch_decoded(payload@) == Err::<Seq<Seq<char>>, WireFault>(
                    fault,
                ),
            },
        decreases count - i,
    {
        let ghost before = cursor as nat;
        let len: usize = match read_u32(payload, &mut cursor) {
            Ok(len) => len as usize,
            Err(error) => {
                return Err(error);
            },
        };
        let end: usize = match cursor.checked_add(len) {
            Some(end) => end,
            None => {
                return Err(WireCodecError::LengthOverflow { what: "key_batch" });
            },
        };
        if end > payload.len() {
            return Err(
                WireCodecError::Truncated {
                    what: "key_batch",
                    needed: len,
                    at: cursor,
                    got: payload.len(),
                },
            );
        }
        let key: String = match utf8_text(&payload[cursor..end]) {
            Ok(key) => key,
            Err(source) => {
                return Err(WireCodecError::Utf8 { what: "key_batch", source });
            },
        };
        let ghost earlier = keys@;
        keys.push(key);
        proof {
            assert(texts(keys@) =~= texts(earlier).push(key@));
            if let Ok(rest) = keys_from(payload@, end as nat, (count - i - 1) as nat) {
                assert(texts(earlier) + (seq![key@] + rest) =~= texts(keys@) + rest);
            }
        }
        cursor = end;
        i = i + 1;
    }
    if cursor != payload.len() {
        return Err(
            WireCodecError::TrailingBytes { what: "key_batch", extra: payload.len() - cursor },
        );
    }
    assert(texts(keys@) + Seq::<Seq<char>>::empty() =~= texts(keys@));
    Ok(keys)
}

/// A key batch starts with `head`; the keys behind it are decoded in order.
proof fn lemma_keys_from(payload: Seq<u8>, head: Seq<u8>, keys: Seq<Seq<char>>)
    requires
        payload == head + key_entries_front(keys),
        payload.len() <= usize::MAX,
        forall|i: int|
            0 <= i < keys.len() ==> #[trigger] encode_utf8(keys[i]).len() <= u32::MAX,
    ensures
        keys_from(payload, head.len(), keys.len()) == Ok::<Seq<Seq<char>>, WireFault>(keys),
    decreases keys.len(),
{
    if keys.len() == 0 {
        assert(keys =~= Seq::<Seq<char>>::empty());
    } else {
        let first = encode_utf8(keys[0]);
        let rest = keys.drop_first();
        lemma_le_capacities();
        lemma_le_round_trip(first.len(), 4);
        vstd::utf8::encode_utf8_valid_utf8(keys[0]);
        vstd::utf8::encode_utf8_decode_utf8(keys[0]);
        let next = head + le_bytes(first.len(), 4) + first;
        assert(payload =~= next + key_entries_front(rest));
        assert forall|i: int| 0 <= i < rest.len() implies #[trigger] encode_utf8(rest[i]).len()
            <= u32::MAX by {
            assert(encode_utf8(keys[i + 1]).len() <= u32::MAX);
        }
        lemma_keys_from(payload, next, rest);
        let start = (head.len() + 4) as int;
        assert(payload.subrange(head.len() as int, start) =~= le_bytes(first.len(), 4));
        assert(payload.subrange(start, start + first.len()) =~= first);
        assert(seq![keys[0]] + rest =~= keys);
    }
}

/// The entries of a key batch, written from the front.
spec fn key_entries_front(keys: Seq<Seq<char>>) -> Seq<u8>
    decreases keys.len(),
{
    if keys.len() == 0 {
        Seq::empty()
    } else {
        le_bytes(encode_utf8(keys[0]).len(), 4) + encode_utf8(keys[0]) + key_entries_front(
            keys.drop_first(),
        )
    }
}

proof fn lemma_key_entries_front(keys: Seq<Seq<char>>)
    ensures
        key_entries(keys) == key_entries_front(keys),
    decreases keys.len(),
{
    if keys.len() == 1 {
        assert(keys.drop_last() =~= Seq::<Seq<char>>::empty());
        assert(keys.drop_first() =~= Seq::<Seq<char>>::empty());
        assert(key_entries(keys.drop_last()) =~= Seq::<u8>::empty());
        assert(key_entries_front(keys.drop_first()) =~= Seq::<u8>::empty());
        assert(key_entries(keys) =~= key_entries_front(keys));
    } else if keys.len() > 1 {
        let middle = keys.drop_first().drop_last();
        lemma_key_entries_front(keys.drop_last());
        lemma_key_entries_front(keys.drop_first());
        lemma_key_entries_front(middle);
        assert(keys.drop_last().drop_first() =~= middle);
        assert(key_entries(keys.drop_first()) == key_entries(middle) + le_bytes(
            encode_utf8(keys.last()).len(),
            4,
        ) + encode_utf8(keys.last()));
        assert(key_entries(keys) =~= key_entries_front(keys));
    }
}

/// Decoding a key batch gives the keys back in order.
pub proof fn key_batch_round_trip(keys: Seq<Seq<char>>)
    requires
        keys.len() <= u32::MAX,
        forall|i: int|
            0 <= i < keys.len() ==> #[trigger] encode_utf8(keys[i]).len() <= u32::MAX,
        key_batch_bytes(keys).len() <= usize::MAX,
    ensures
        key_batch_decoded(key_batch_bytes(keys)) == Ok::<Seq<Seq<char>>, WireFault>(keys),
{
    let payload = key_batch_bytes(keys);
    let head = KEY_BATCH_MAGIC@ + le_bytes(keys.len(), 4);
    lemma_le_capacities();
    lemma_le_round_trip(keys.len(), 4);
    lemma_key_entries_front(keys);
    assert(payload =~= head + key_entries_front(keys));
    assert(payload.subrange(0, 16) =~= KEY_BATCH_MAGIC@);
    assert(payload.subrange(16, 20) =~= le_bytes(keys.len(), 4));
    lemma_keys_from(payload, head, keys);
}

/// The keys read from a cursor on are all that stands there.
proof fn lemma_keys_read(payload: Seq<u8>, cursor: nat, count: nat, keys: Seq<Seq<char>>)
    requires
        cursor <= payload.len(),
        keys_from(payload, cursor, count) == Ok::<Seq<Seq<char>>, WireFault>(keys),
    ensures
        keys.len() == count,
        payload.skip(cursor as int) == key_entries_front(keys),
    decreases count,
{
    if count == 0 {
        assert(payload.skip(cursor as int) =~= Seq::<u8>::empty());
    } else {
        let head = payload.subrange(cursor as int, cursor as int + 4);
        let len = le_value(head);
        let start = cursor + 4;
        let end = start + len;
        let key = payload.subrange(start as int, end as int);
        let rest = keys_from(payload, end, (count - 1) as nat)->Ok_0;
        lemma_keys_read(payload, end, (count - 1) as nat, rest);
        lemma_le_unique(head);
        vstd::utf8::decode_utf8_encode_utf8(key);
        assert(keys.drop_first() =~= rest);
        assert(payload.skip(cursor as int) =~= head + key + payload.skip(end as int));
    }
}

/// A payload decodes to keys if and only if it is their encoding: nothing else
/// is accepted.
pub proof fn key_batch_is_the_encoding(payload: Seq<u8>, keys: Seq<Seq<char>>)
    requires
        payload.len() <= usize::MAX,
        keys.len() <= u32::MAX,
        forall|i: int|
            0 <= i < keys.len() ==> #[trigger] encode_utf8(keys[i]).len() <= u32::MAX,
    ensures
        key_batch_decoded(payload) == Ok::<Seq<Seq<char>>, WireFault>(keys) <==> payload
            == key_batch_bytes(keys),
{
    if payload == key_batch_bytes(keys) {
        key_batch_round_trip(keys);
    }
    if key_batch_decoded(payload) == Ok::<Seq<Seq<char>>, WireFault>(keys) {
        let count = payload.subrange(16, 20);
        lemma_le_unique(count);
        lemma_keys_read(payload, 20, le_value(count), keys);
        lemma_key_entries_front(keys);
        assert(payload =~= KEY_BATCH_MAGIC@ + count + payload.skip(20));
    }
}

// ---- payload batches ----

/// The length table of a payload batch.
pub open spec fn length_table(items: Seq<Seq<u8>>) -> Seq<u8>
    decreases items.len(),
{
    if items.len() == 0 {
        Seq::empty()
    } else {
        length_table(items.drop_last()) + le_bytes(items.last().len(), 4)
    }
}

/// The payloads of a batch, one behind the other.
pub open spec fn bodies(items: Seq<Seq<u8>>) -> Seq<u8>
    decreases items.len(),
{
    if items.len() == 0 {
        Seq::empty()
    } else {
        bodies(items.drop_last()) + items.last()
    }
}

/// The bytes of a payload batch. Lengths keep their 32 low-order bits.
pub open spec fn bytes_batch_bytes(items: Seq<Seq<u8>>) -> Seq<u8> {
    BYTES_BATCH_MAGIC@ + le_bytes(items.len(), 4) + length_table(items) + bodies(items)
}

/// The `count` lengths that start at a cursor.
pub open spec fn lengths_from(data: Seq<u8>, cursor: nat, count: nat) -> Result<
    Seq<nat>,
    WireFault,
>
    decreases count,
{
    if count == 0 {
        Ok(Seq::empty())
    } else {
        match u32_at(data, cursor) {
            Err(fault) => Err(fault),
            Ok(len) => match lengths_from(data, cursor + 4, (count - 1) as nat) {
                Err(fault) => Err(fault),
                Ok(rest) => Ok(seq![len] + rest),
            },
        }
    }
}

/// The sum of lengths.
pub open spec fn total_of(lengths: Seq<nat>) -> nat
    decreases lengths.len(),
{
    if lengths.len() == 0 {
        0
    } else {
        total_of(lengths.drop_last()) + lengths.last()
    }
}

/// Consecutive parts of the given lengths, from an offset on.
pub open spec fn parts_from(data: Seq<u8>, offset: nat, lengths: Seq<nat>) -> Seq<Seq<u8>> {
    Seq::new(
        lengths.len(),
        |i: int|
            data.subrange(
                (offset + total_of(lengths.take(i))) as int,
                (offset + total_of(lengths.take(i + 1))) as int,
            ),
    )
}

/// What a payload batch decodes to.
pub open spec fn bytes_batch_decoded(data: Seq<u8>) -> Result<Seq<Seq<u8>>, WireFault> {
    if !BYTES_BATCH_MAGIC@.is_prefix_of(data) {
        Err(bad_magic(data, BYTES_BATCH_MAGIC@, "bytes_batch"@))
    } else {
        match u32_at(data, 17) {
            Err(fault) => Err(fault),
            Ok(count) => match lengths_from(data, 21, count) {
                Err(fault) => Err(fault),
                Ok(lengths) => {
                    let start = 21 + 4 * count;
                    let end = start + total_of(lengths);
                    if end > usize::MAX {
                        Err(WireFault::LengthOverflow { what: "bytes_batch"@ })
                    } else if end != data.len() {
                        Err(
                            WireFault::BodyLengthMismatch {
                                what: "bytes_batch"@,
                                claimed: end,
                                actual: data.len(),
                            },
                        )
                    } else {
                        Ok(parts_from(data, start, lengths))
                    }
                },
            },
        }
    }
}

/// The contents of decoded payloads, or the fault.
pub open spec fn buffers_result(result: Result<Vec<Bytes>, WireCodecError>) -> Result<
    Seq<Seq<u8>>,
    WireFault,
> {
    match result {
        Ok(items) => Ok(buffers(items@)),
        Err(error) => Err(error@),
    }
}

/// Encode ordered payload bytes for a batched GET response.
pub fn encode_bytes_batch(items: &[Bytes]) -> (batch: Vec<u8>)
    ensures
        batch@ == bytes_batch_bytes(buffers(items@)),
{
    let ghost all = buffers(items@);
    let mut out: Vec<u8> = Vec::new();
    push_bytes(&mut out, &BYTES_BATCH_MAGIC);
    push_len(&mut out, items.len());
    let ghost head = out@;
    let mut i: usize = 0;
    assert(out@ =~= head + length_table(all.take(0)));
    while i < items.len()
        invariant
            i <= items@.len(),
            all == buffers(items@),
            out@ == head + length_table(all.take(i as int)),
        decreases items@.len() - i,
    {
        push_len(&mut out, bytes_slice(&items[i]).len());
        proof {
            assert(all.take(i + 1).drop_last() =~= all.take(i as int));
            assert(out@ =~= head + length_table(all.take(i + 1)));
        }
        i = i + 1;
    }
    assert(all.take(i as int) =~= all);
    let ghost table = out@;
    i = 0;
    assert(out@ =~= table + bodies(all.take(0)));
    while i < items.len()
        invariant
            i <= items@.len(),
            all == buffers(items@),
            out@ == table + bodies(all.take(i as int)),
        decreases items@.len() - i,
    {
        push_bytes(&mut out, bytes_slice(&items[i]));
        proof {
            assert(all.take(i + 1).drop_last() =~= all.take(i as int));
            assert(out@ =~= table + bodies(all.take(i + 1)));
        }
        i = i + 1;
    }
    assert(all.take(i as int) =~= all);
    assert(out@ =~= bytes_batch_bytes(all));
    out
}

/// The lengths of a table read so far.
spec fn as_nats(lengths: Seq<usize>) -> Seq<nat> {
    lengths.map_values(|n: usize| n as nat)
}

/// A longer run of lengths has at least the same sum.
proof fn lemma_total_monotonic(lengths: Seq<nat>, n: int)
    requires
        0 <= n <= lengths.len(),
    ensures
        total_of(lengths.take(n)) <= total_of(lengths),
    decreases lengths.len(),
{
    if n == lengths.len() {
        assert(lengths.take(n) =~= lengths);
    } else {
        assert(lengths.drop_last().take(n) =~= lengths.take(n));
        lemma_total_monotonic(lengths.drop_last(), n);
    }
}

/// Decode an ordered payload batch without copying individual payloads.
pub fn decode_bytes_batch(batch: Bytes) -> (decoded: Result<Vec<Bytes>, WireCodecError>)
    ensures
        buffers_result(decoded) == bytes_batch_decoded(bytes_of(batch)),
{
    let data = bytes_slice(&batch);
    if !starts_with(data, &BYTES_BATCH_MAGIC) {
        return Err(bad_magic_error(data, &BYTES_BATCH_MAGIC, "bytes_batch"));
    }
    let mut cursor: usize = 17;
    let count: u32 = match read_u32(data, &mut cursor) {
        Ok(count) => count,
        Err(error) => {
            return Err(error);
        },
    };
    let mut lengths: Vec<usize> = Vec::new();
    let ghost table = lengths_from(data@, 21, count as nat);
    let mut i: u32 = 0;
    proof {
        if let Ok(rest) = table {
            assert(as_nats(lengths@) + rest =~= rest);
        }
    }
    while i < count
        invariant
            i <= count,
            cursor == 21 + 4 * i,
            cursor <= data@.len(),
            lengths@.len() == i,
            match lengths_from(data@, cursor as nat, (count - i) as nat) {
                Ok(rest) => table == Ok::<Seq<nat>, WireFault>(as_nats(lengths@) + rest),
                Err(fault) => table == Err::<Seq<nat>, WireFault>(fault),
            },
            BYTES_BATCH_MAGIC@.is_prefix_of(data@),
            u32_at(data@, 17) == Ok::<nat, WireFault>(count as nat),
            table == lengths_from(data@, 21, count as nat),
            data@ == bytes_of(batch),
        decreases count - i,
    {
        let ghost before = lengths@;
        let len: usize = match read_u32(data, &mut cursor) {
            Ok(len) => len as usize,
            Err(error) => {
                return Err(error);
            },
        };
        lengths.push(len);
        proof {
            assert(as_nats(lengths@) =~= as_nats(before).push(len as nat));
            if let Ok(rest) = lengths_from(data@, cursor as nat, (count - i - 1) as nat) {
                assert(as_nats(before) + (seq![len as nat] + rest) =~= as_nats(lengths@) + rest);
            }
        }
        i = i + 1;
    }
    let ghost all = as_nats(lengths@);
    assert(as_nats(lengths@) + Seq::<nat>::empty() =~= all);
    assert(table == Ok::<Seq<nat>, WireFault>(all));

    let body_start: usize = cursor;
    let mut end: usize = body_start;
    let mut k: usize = 0;
    while k < lengths.len()
        invariant
            k <= lengths@.len(),
            all == as_nats(lengths@),
            end == body_start + total_of(all.take(k as int)),
            body_start + total_of(all) > usize::MAX ==> bytes_batch_decoded(bytes_of(batch))
                == Err::<Seq<Seq<u8>>, WireFault>(
                WireFault::LengthOverflow { what: "bytes_batch"@ },
            ),
        decreases lengths@.len() - k,
    {
        proof {
            assert(all.take(k + 1).drop_last() =~= all.take(k as int));
            lemma_total_monotonic(all, k + 1);
        }
        end = match end.checked_add(lengths[k]) {
            Some(sum) => sum,
            None => {
                return Err(WireCodecError::LengthOverflow { what: "bytes_batch" });
            },
        };
        k = k + 1;
    }
    assert(all.take(k as int) =~= all);
    if end != data.len() {
        return Err(
            WireCodecError::BodyLengthMismatch {
                what: "bytes_batch",
                claimed: end,
                actual: data.len(),
            },
        );
    }
    let mut out: Vec<Bytes> = Vec::new();
    let mut offset: usize = body_start;
    k = 0;
    while k < lengths.len()
        invariant
            k <= lengths@.len(),
            all == as_nats(lengths@),
            offset == body_start + total_of(all.take(k as int)),
            body_start + total_of(all) == bytes_of(batch).len(),
            bytes_of(batch).len() <= usize::MAX,
            out@.len() == k,
            forall|j: int|
                0 <= j < k ==> bytes_of(#[trigger] out@[j]) == parts_from(
                    bytes_of(batch),
                    body_start as nat,
                    all,
                )[j],
        decreases lengths@.len() - k,
    {
        proof {
            assert(all.take(k + 1).drop_last() =~= all.take(k as int));
            lemma_total_monotonic(all, k + 1);
        }
        let next: usize = offset + lengths[k];
        out.push(bytes_range(&batch, offset, next));
        offset = next;
        k = k + 1;
    }
    assert(buffers(out@) =~= parts_from(bytes_of(batch), body_start as nat, all));
    Ok(out)
}

/// The lengths of payloads.
spec fn lengths_of(items: Seq<Seq<u8>>) -> Seq<nat> {
    items.map_values(|b: Seq<u8>| b.len())
}

/// The end of a run of payloads is their total length.
proof fn lemma_bodies_total(items: Seq<Seq<u8>>)
    ensures
        bodies(items).len() == total_of(lengths_of(items)),
        length_table(items).len() == 4 * items.len(),
    decreases items.len(),
{
    if items.len() > 0 {
        lemma_bodies_total(items.drop_last());
        assert(lengths_of(items).drop_last() =~= lengths_of(items.drop_last()));
        lemma_le_bytes_len(items.last().len(), 4);
    }
}

/// The runs of payloads nest.
proof fn lemma_bodies_nest(items: Seq<Seq<u8>>, n: int)
    requires
        0 <= n <= items.len(),
    ensures
        bodies(items.take(n)).is_prefix_of(bodies(items)),
    decreases items.len(),
{
    if n == items.len() {
        assert(items.take(n) =~= items);
        assert(bodies(items) =~= bodies(items).subrange(0, bodies(items).len() as int));
    } else {
        let shorter = items.drop_last();
        lemma_bodies_nest(shorter, n);
        assert(shorter.take(n) =~= items.take(n));
        let inner = bodies(items.take(n));
        assert(bodies(items).subrange(0, inner.len() as int) =~= bodies(shorter).subrange(
            0,
            inner.len() as int,
        ));
    }
}

/// The length tables nest.
proof fn lemma_tables_nest(items: Seq<Seq<u8>>, n: int)
    requires
        0 <= n < items.len(),
    ensures
        length_table(items).len() == 4 * items.len(),
        length_table(items).subrange(4 * n, 4 * n + 4) == le_bytes(items[n].len(), 4),
    decreases items.len(),
{
    lemma_bodies_total(items);
    lemma_bodies_total(items.drop_last());
    lemma_le_bytes_len(items.last().len(), 4);
    if n == items.len() - 1 {
        assert(length_table(items).subrange(4 * n, 4 * n + 4) =~= le_bytes(items[n].len(), 4));
    } else {
        lemma_tables_nest(items.drop_last(), n);
        assert(length_table(items).subrange(4 * n, 4 * n + 4) =~= length_table(
            items.drop_last(),
        ).subrange(4 * n, 4 * n + 4));
    }
}

/// Reading a length table from its `n`th entry on.
proof fn lemma_lengths_from(data: Seq<u8>, items: Seq<Seq<u8>>, n: nat)
    requires
        data == bytes_batch_bytes(items),
        data.len() <= usize::MAX,
        n <= items.len(),
        forall|i: int| 0 <= i < items.len() ==> #[trigger] items[i].len() <= u32::MAX,
    ensures
        lengths_from(data, 21 + 4 * n, (items.len() - n) as nat) == Ok::<Seq<nat>, WireFault>(
            lengths_of(items).skip(n as int),
        ),
    decreases items.len() - n,
{
    if n == items.len() {
        assert(lengths_of(items).skip(n as int) =~= Seq::<nat>::empty());
    } else {
        lemma_lengths_from(data, items, n + 1);
        lemma_tables_nest(items, n as int);
        lemma_le_bytes_len(items.len(), 4);
        lemma_le_capacities();
        assert(items[n as int].len() <= u32::MAX);
        lemma_le_round_trip(items[n as int].len(), 4);
        let at = (21 + 4 * n) as int;
        assert(data.subrange(at, at + 4) =~= length_table(items).subrange(
            4 * n as int,
            4 * n as int + 4,
        ));
        assert(seq![items[n as int].len()] + lengths_of(items).skip(n as int + 1) =~= lengths_of(
            items,
        ).skip(n as int));
    }
}

/// A payload stands in the run of payloads behind those before it.
proof fn lemma_body_at(items: Seq<Seq<u8>>, i: int)
    requires
        0 <= i < items.len(),
    ensures
        ({
            let from = total_of(lengths_of(items).take(i));
            let to = total_of(lengths_of(items).take(i + 1));
            &&& from <= to <= bodies(items).len()
            &&& bodies(items).subrange(from as int, to as int) == items[i]
        }),
{
    let lengths = lengths_of(items);
    let upto = items.take(i + 1);
    lemma_bodies_nest(items, i + 1);
    lemma_bodies_total(upto);
    lemma_bodies_total(items.take(i));
    assert(upto.drop_last() =~= items.take(i));
    assert(lengths_of(upto) =~= lengths.take(i + 1));
    assert(lengths_of(items.take(i)) =~= lengths.take(i));
    let from = total_of(lengths.take(i)) as int;
    let to = total_of(lengths.take(i + 1)) as int;
    assert(bodies(upto).subrange(from, to) =~= items[i]);
    assert(bodies(items).subrange(0, to) =~= bodies(upto));
    assert(bodies(items).subrange(from, to) =~= bodies(upto).subrange(from, to));
}

/// Decoding a payload batch gives the payloads back in order.
pub proof fn bytes_batch_round_trip(items: Seq<Seq<u8>>)
    requires
        items.len() <= u32::MAX,
        forall|i: int| 0 <= i < items.len() ==> #[trigger] items[i].len() <= u32::MAX,
        bytes_batch_bytes(items).len() <= usize::MAX,
    ensures
        bytes_batch_decoded(bytes_batch_bytes(items)) == Ok::<Seq<Seq<u8>>, WireFault>(items),
{
    let data = bytes_batch_bytes(items);
    let lengths = lengths_of(items);
    lemma_le_capacities();
    lemma_le_round_trip(items.len(), 4);
    lemma_bodies_total(items);
    assert(data.subrange(0, 17) =~= BYTES_BATCH_MAGIC@);
    assert(data.subrange(17, 21) =~= le_bytes(items.len(), 4));
    lemma_lengths_from(data, items, 0);
    assert(lengths.skip(0) =~= lengths);
    let start = (21 + 4 * items.len()) as nat;
    assert(data.skip(start as int) =~= bodies(items));
    let parts = parts_from(data, start, lengths);
    assert forall|i: int| 0 <= i < items.len() implies parts[i] == items[i] by {
        lemma_body_at(items, i);
        let from = total_of(lengths.take(i)) as int;
        let to = total_of(lengths.take(i + 1)) as int;
        assert(data.subrange(start + from, start + to) =~= data.skip(start as int).subrange(
            from,
            to,
        ));
    }
    assert(parts =~= items);
}

/// The lengths read from a cursor on are the numbers that stand there.
proof fn lemma_lengths_read(data: Seq<u8>, cursor: nat, count: nat, lengths: Seq<nat>)
    requires
        cursor <= data.len(),
        lengths_from(data, cursor, count) == Ok::<Seq<nat>, WireFault>(lengths),
    ensures
        lengths.len() == count,
        cursor + 4 * count <= data.len(),
        forall|i: int|
            0 <= i < count ==> #[trigger] lengths[i] == le_value(
                data.subrange(cursor + 4 * i, cursor + 4 * i + 4),
            ),
    decreases count,
{
    if count > 0 {
        let rest = lengths_from(data, cursor + 4, (count - 1) as nat)->Ok_0;
        lemma_lengths_read(data, cursor + 4, (count - 1) as nat, rest);
        assert forall|i: int| 0 <= i < count implies #[trigger] lengths[i] == le_value(
            data.subrange(cursor + 4 * i, cursor + 4 * i + 4),
        ) by {
            if i > 0 {
                assert(lengths[i] == rest[i - 1]);
            }
        }
    }
}

/// The first parts of a batch are what stands in its table and behind it.
proof fn lemma_parts_read(data: Seq<u8>, start: nat, lengths: Seq<nat>, n: int)
    requires
        0 <= n <= lengths.len(),
        start == 21 + 4 * lengths.len(),
        data.len() == start + total_of(lengths),
        forall|i: int|
            0 <= i < lengths.len() ==> #[trigger] lengths[i] == le_value(
                data.subrange(21 + 4 * i, 21 + 4 * i + 4),
            ),
    ensures
        total_of(lengths.take(n)) <= total_of(lengths),
        length_table(parts_from(data, start, lengths).take(n)) == data.subrange(21, 21 + 4 * n),
        bodies(parts_from(data, start, lengths).take(n)) == data.subrange(
            start as int,
            (start + total_of(lengths.take(n))) as int,
        ),
    decreases n,
{
    let parts = parts_from(data, start, lengths);
    lemma_total_monotonic(lengths, n);
    if n == 0 {
        assert(length_table(parts.take(0)) =~= data.subrange(21, 21));
        assert(bodies(parts.take(0)) =~= data.subrange(start as int, start as int));
    } else {
        lemma_parts_read(data, start, lengths, n - 1);
        let upto = parts.take(n);
        assert(upto.drop_last() =~= parts.take(n - 1));
        assert(lengths.take(n).drop_last() =~= lengths.take(n - 1));
        let field = data.subrange(21 + 4 * (n - 1), 21 + 4 * (n - 1) + 4);
        lemma_le_unique(field);
        assert(upto.last() == parts[n - 1]);
        assert(upto.last().len() == lengths[n - 1]);
        assert(length_table(upto) =~= data.subrange(21, 21 + 4 * n));
        let end = (start + total_of(lengths.take(n))) as int;
        assert(bodies(upto) =~= data.subrange(start as int, end));
    }
}

/// A batch decodes to payloads if and only if it is their encoding: nothing else
/// is accepted.
pub proof fn bytes_batch_is_the_encoding(data: Seq<u8>, items: Seq<Seq<u8>>)
    requires
        data.len() <= usize::MAX,
        items.len() <= u32::MAX,
        forall|i: int| 0 <= i < items.len() ==> #[trigger] items[i].len() <= u32::MAX,
    ensures
        bytes_batch_decoded(data) == Ok::<Seq<Seq<u8>>, WireFault>(items) <==> data
            == bytes_batch_bytes(items),
{
    if data == bytes_batch_bytes(items) {
        bytes_batch_round_trip(items);
    }
    if bytes_batch_decoded(data) == Ok::<Seq<Seq<u8>>, WireFault>(items) {
        let count = data.subrange(17, 21);
        let n = le_value(count);
        let lengths = lengths_from(data, 21, n)->Ok_0;
        let start = (21 + 4 * n) as nat;
        lemma_le_unique(count);
        lemma_lengths_read(data, 21, n, lengths);
        lemma_parts_read(data, start, lengths, n as int);
        assert(items.take(n as int) =~= items);
        assert(lengths.take(n as int) =~= lengths);
        assert(data =~= BYTES_BATCH_MAGIC@ + count + data.subrange(21, start as int) + data.subrange(
            start as int,
            data.len() as int,
        ));
    }
}

/// A payload batch is as long as any of its payloads, and as long as its length
/// table.
pub proof fn lemma_batch_holds_items(items: Seq<Seq<u8>>)
    ensures
        4 * items.len() <= bytes_batch_bytes(items).len(),
        forall|i: int|
            0 <= i < items.len() ==> #[trigger] items[i].len() <= bytes_batch_bytes(items).len(),
{
    lemma_bodies_total(items);
    assert forall|i: int| 0 <= i < items.len() implies #[trigger] items[i].len()
        <= bytes_batch_bytes(items).len() by {
        lemma_bodies_nest(items, i + 1);
        assert(items.take(i + 1).last() == items[i]);
    }
}

/// Returns true when a payload of `len` bytes fits in a single frame
/// (after the archive envelope's overhead, budgeted at 256 bytes).
pub fn fits_one_frame(len: usize) -> (fits: bool)
    ensures
        fits == (len + 256 <= FRAME_DATA_BYTES),
{
    len.saturating_add(256) <= FRAME_DATA_BYTES
}

} // verus!
