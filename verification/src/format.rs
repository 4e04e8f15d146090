//! On-disk formats: write-ahead-log records and compact segments.
//!
//! A log record is `magic(12) key_len(u16) meta_len(u16) payload_len(u32)
//! checksum(u32)` followed by key, meta and payload. A segment is a header, a
//! run of blocks, an index that maps each key to its payload's byte range, and
//! a footer that protects the index. All numbers are little-endian.

use vstd::prelude::*;

use crate::le::{
    copy_bytes, get_u16, get_u32, le_bytes, le_value, lemma_le_bytes_len, lemma_le_capacities,
    lemma_le_round_trip, lemma_le_unique, push_bytes, push_u16, push_u32, starts_with,
};

verus! {

/// `WMBT_KV_WAL1`
pub const WAL_MAGIC: [u8; 12] = [
    0x57, 0x4d, 0x42, 0x54, 0x5f, 0x4b, 0x56, 0x5f, 0x57, 0x41, 0x4c, 0x31,
];

/// `WMBT_KV_SEG1`
pub const SEGMENT_FOOTER_MAGIC: [u8; 12] = [
    0x57, 0x4d, 0x42, 0x54, 0x5f, 0x4b, 0x56, 0x5f, 0x53, 0x45, 0x47, 0x31,
];

/// `WMBT_KV_SGV1`
pub const SEGMENT_MAGIC: [u8; 12] = [
    0x57, 0x4d, 0x42, 0x54, 0x5f, 0x4b, 0x56, 0x5f, 0x53, 0x47, 0x56, 0x31,
];

pub const WAL_HEADER_SIZE: usize = 24;

pub const SEGMENT_FOOTER_SIZE: usize = 20;

pub const SEGMENT_HEADER_SIZE: usize = 16;

/// Returns crate identity for smoke tests.
pub fn crate_id() -> (id: &'static str)
    ensures
        id@ == "wombatkv-format"@,
{
    "wombatkv-format"
}

/// WAL record v1 used for append-only chunk payloads.
#[derive(Clone, Debug, PartialEq, Eq)]
pub struct WalRecord {
    pub key: Vec<u8>,
    pub meta: Vec<u8>,
    pub payload: Vec<u8>,
}

/// The contents of a [`WalRecord`].
pub struct WalFields {
    pub key: Seq<u8>,
    pub meta: Seq<u8>,
    pub payload: Seq<u8>,
}

impl View for WalRecord {
    type V = WalFields;

    open spec fn view(&self) -> WalFields {
        WalFields { key: self.key@, meta: self.meta@, payload: self.payload@ }
    }
}

/// Binary format parsing and encoding errors.
#[derive(Clone, Copy, Debug, PartialEq, Eq)]
pub enum FormatError {
    InvalidMagic,
    UnexpectedEof,
    ChecksumMismatch,
    FieldTooLarge,
}

/// One step of the checksum: exclusive-or with the byte, then multiply by the
/// FNV prime, keeping 32 bits.
pub open spec fn checksum_step(state: u32, byte: u8) -> u32 {
    (((state ^ (byte as u32)) as nat * 16_777_619) % 0x1_0000_0000) as u32
}

/// The FNV-1a checksum of a byte sequence.
pub open spec fn checksum_of(bytes: Seq<u8>) -> u32
    decreases bytes.len(),
{
    if bytes.len() == 0 {
        0x811c_9dc5
    } else {
        checksum_step(checksum_of(bytes.drop_last()), bytes.last())
    }
}

/// Lightweight deterministic checksum over a byte slice.
pub fn checksum32(bytes: &[u8]) -> (sum: u32)
    ensures
        sum == checksum_of(bytes@),
{
    let mut state: u32 = 0x811c_9dc5;
    let mut i: usize = 0;
    while i < bytes.len()
        invariant
            i <= bytes@.len(),
            state == checksum_of(bytes@.take(i as int)),
        decreases bytes@.len() - i,
    {
        state = (state ^ (bytes[i] as u32)).wrapping_mul(16_777_619);
        i = i + 1;
        assert(bytes@.take(i as int).drop_last() =~= bytes@.take(i - 1));
    }
    assert(bytes@.take(i as int) =~= bytes@);
    state
}

/// A step loses neither the state nor the byte: the prime has an inverse.
proof fn lemma_checksum_step_injective(a: u32, b: u32, x: u8, y: u8)
    requires
        checksum_step(a, x) == checksum_step(b, y),
    ensures
        x == y ==> a == b,
        a == b ==> x == y,
{
    let p: int = (a ^ (x as u32)) as int;
    let q: int = (b ^ (y as u32)) as int;
    let m: int = 0x1_0000_0000;
    let r = (p * 16_777_619) % m;
    assert(r == (q * 16_777_619) % m);
    let i = (p * 16_777_619) / m;
    let j = (q * 16_777_619) / m;
    assert(p * 16_777_619 == m * i + r);
    assert(q * 16_777_619 == m * j + r);
    assert(16_777_619int * 899_433_627 == 1 + 3_513_497 * m);
    let z = (i - j) * 899_433_627 - (p - q) * 3_513_497;
    assert(p - q == m * z);
    assert(p == q);
    assert(x == y && (a ^ (x as u32)) == (b ^ (y as u32)) ==> a == b) by (bit_vector);
    assert(a == b && (a ^ (x as u32)) == (b ^ (y as u32)) ==> x == y) by (bit_vector);
}

/// The checksums of two sequences that differ in one byte differ.
pub proof fn one_byte_changes_the_checksum(bytes: Seq<u8>, i: int, byte: u8)
    requires
        0 <= i < bytes.len(),
        byte != bytes[i],
    ensures
        checksum_of(bytes.update(i, byte)) != checksum_of(bytes),
    decreases bytes.len(),
{
    let changed = bytes.update(i, byte);
    let before = checksum_of(bytes.drop_last());
    if i == bytes.len() - 1 {
        assert(changed.drop_last() =~= bytes.drop_last());
        if checksum_of(changed) == checksum_of(bytes) {
            lemma_checksum_step_injective(before, before, byte, bytes.last());
        }
    } else {
        one_byte_changes_the_checksum(bytes.drop_last(), i, byte);
        assert(changed.drop_last() =~= bytes.drop_last().update(i, byte));
        if checksum_of(changed) == checksum_of(bytes) {
            lemma_checksum_step_injective(
                checksum_of(changed.drop_last()),
                before,
                bytes.last(),
                bytes.last(),
            );
        }
    }
}

// ---- log records ----

/// Whether the record's fields fit their length prefixes.
pub open spec fn wal_fits(record: WalFields) -> bool {
    record.key.len() <= u16::MAX && record.meta.len() <= u16::MAX && record.payload.len()
        <= u32::MAX
}

/// The bytes of a record whose fields fit.
pub open spec fn wal_bytes(record: WalFields) -> Seq<u8> {
    let body = record.key + record.meta + record.payload;
    WAL_MAGIC@ + le_bytes(record.key.len(), 2) + le_bytes(record.meta.len(), 2) + le_bytes(
        record.payload.len(),
        4,
    ) + le_bytes(checksum_of(body) as nat, 4) + body
}

/// What a byte sequence decodes to. Bytes after the record are ignored.
pub open spec fn wal_decoded(data: Seq<u8>) -> Result<WalFields, FormatError> {
    if data.len() < WAL_HEADER_SIZE {
        Err(FormatError::UnexpectedEof)
    } else if !WAL_MAGIC@.is_prefix_of(data) {
        Err(FormatError::InvalidMagic)
    } else {
        let key_end = WAL_HEADER_SIZE + le_value(data.subrange(12, 14));
        let meta_end = key_end + le_value(data.subrange(14, 16));
        let end = meta_end + le_value(data.subrange(16, 20));
        if end > usize::MAX {
            Err(FormatError::FieldTooLarge)
        } else if data.len() < end {
            Err(FormatError::UnexpectedEof)
        } else if checksum_of(data.subrange(24, end as int)) != le_value(data.subrange(20, 24)) {
            Err(FormatError::ChecksumMismatch)
        } else {
            Ok(
                WalFields {
                    key: data.subrange(24, key_end as int),
                    meta: data.subrange(key_end as int, meta_end as int),
                    payload: data.subrange(meta_end as int, end as int),
                },
            )
        }
    }
}

/// The fields of a decoded record, or the error.
pub open spec fn wal_result(result: Result<WalRecord, FormatError>) -> Result<
    WalFields,
    FormatError,
> {
    match result {
        Ok(record) => Ok(record@),
        Err(error) => Err(error),
    }
}

/// Encodes a single `WalRecord` using the `WMBT_KV_WAL1` layout.
pub fn encode_wal_record(record: &WalRecord) -> (encoded: Result<Vec<u8>, FormatError>)
    ensures
        wal_fits(record@) ==> (encoded matches Ok(bytes) && bytes@ == wal_bytes(record@)),
        !wal_fits(record@) ==> encoded == Err::<Vec<u8>, FormatError>(FormatError::FieldTooLarge),
{
    if record.key.len() > 0xffff || record.meta.len() > 0xffff || record.payload.len()
        > 0xffff_ffff {
        return Err(FormatError::FieldTooLarge);
    }
    let mut body: Vec<u8> = Vec::new();
    push_bytes(&mut body, &record.key);
    push_bytes(&mut body, &record.meta);
    push_bytes(&mut body, &record.payload);
    assert(body@ =~= record.key@ + record.meta@ + record.payload@);

    let checksum: u32 = checksum32(&body);

    let mut out: Vec<u8> = Vec::new();
    push_bytes(&mut out, &WAL_MAGIC);
    push_u16(&mut out, record.key.len() as u16);
    push_u16(&mut out, record.meta.len() as u16);
    push_u32(&mut out, record.payload.len() as u32);
    push_u32(&mut out, checksum);
    push_bytes(&mut out, &body);
    assert(out@ =~= wal_bytes(record@));
    Ok(out)
}

/// Decodes a single `WalRecord` from binary bytes.
pub fn decode_wal_record(data: &[u8]) -> (decoded: Result<WalRecord, FormatError>)
    ensures
        wal_result(decoded) == wal_decoded(data@),
{
    if data.len() < WAL_HEADER_SIZE {
        return Err(FormatError::UnexpectedEof);
    }
    if !starts_with(data, &WAL_MAGIC) {
        return Err(FormatError::InvalidMagic);
    }
    let key_len: usize = get_u16(data, 12) as usize;
    let meta_len: usize = get_u16(data, 14) as usize;
    let payload_len: usize = get_u32(data, 16) as usize;
    let checksum: u32 = get_u32(data, 20);

    let key_end: usize = WAL_HEADER_SIZE + key_len;
    let meta_end: usize = key_end + meta_len;
    let end: usize = match meta_end.checked_add(payload_len) {
        Some(end) => end,
        None => {
            return Err(FormatError::FieldTooLarge);
        },
    };
    if data.len() < end {
        return Err(FormatError::UnexpectedEof);
    }
    if checksum32(&data[WAL_HEADER_SIZE..end]) != checksum {
        return Err(FormatError::ChecksumMismatch);
    }
    Ok(
        WalRecord {
            key: copy_bytes(&data[WAL_HEADER_SIZE..key_end]),
            meta: copy_bytes(&data[key_end..meta_end]),
            payload: copy_bytes(&data[meta_end..end]),
        },
    )
}

/// A record that fits decodes to itself, whatever bytes follow it.
pub proof fn wal_round_trip(record: WalFields, rest: Seq<u8>)
    requires
        wal_fits(record),
        wal_bytes(record).len() <= usize::MAX,
    ensures
        wal_decoded(wal_bytes(record) + rest) == Ok::<WalFields, FormatError>(record),
{
    let body = record.key + record.meta + record.payload;
    let sum = checksum_of(body) as nat;
    let data = wal_bytes(record) + rest;
    lemma_le_capacities();
    lemma_le_round_trip(record.key.len(), 2);
    lemma_le_round_trip(record.meta.len(), 2);
    lemma_le_round_trip(record.payload.len(), 4);
    lemma_le_round_trip(sum, 4);
    let key_end = (24 + record.key.len()) as int;
    let meta_end = (key_end + record.meta.len()) as int;
    let end = (meta_end + record.payload.len()) as int;
    assert(data.len() >= 24);
    assert(WAL_MAGIC@ =~= data.subrange(0, 12));
    assert(data.subrange(12, 14) =~= le_bytes(record.key.len(), 2));
    assert(data.subrange(14, 16) =~= le_bytes(record.meta.len(), 2));
    assert(data.subrange(16, 20) =~= le_bytes(record.payload.len(), 4));
    assert(data.subrange(20, 24) =~= le_bytes(sum, 4));
    assert(data.subrange(24, end) =~= body);
    assert(data.subrange(24, key_end) =~= record.key);
    assert(data.subrange(key_end, meta_end) =~= record.meta);
    assert(data.subrange(meta_end, end) =~= record.payload);
}

/// Bytes decode to a record if and only if they begin with its encoding: nothing
/// else is accepted.
pub proof fn wal_is_the_encoding(data: Seq<u8>, record: WalFields)
    requires
        wal_fits(record),
        data.len() <= usize::MAX,
    ensures
        wal_decoded(data) == Ok::<WalFields, FormatError>(record) <==> wal_bytes(
            record,
        ).is_prefix_of(data),
{
    if wal_bytes(record).is_prefix_of(data) {
        let rest = data.skip(wal_bytes(record).len() as int);
        assert(data =~= wal_bytes(record) + rest);
        wal_round_trip(record, rest);
    }
    if wal_decoded(data) == Ok::<WalFields, FormatError>(record) {
        let (key_len, meta_len, payload_len, sum) = (
            data.subrange(12, 14),
            data.subrange(14, 16),
            data.subrange(16, 20),
            data.subrange(20, 24),
        );
        lemma_le_unique(key_len);
        lemma_le_unique(meta_len);
        lemma_le_unique(payload_len);
        lemma_le_unique(sum);
        let body = record.key + record.meta + record.payload;
        let end = 24 + body.len();
        assert(data.subrange(24, end as int) =~= body);
        assert(data.take(end as int) =~= data.take(12) + key_len + meta_len + payload_len + sum
            + body);
        assert(data.take(12) =~= WAL_MAGIC@);
        assert(wal_bytes(record) =~= data.take(end as int));
    }
}

/// A record of which one byte of key, meta or payload has changed is rejected.
pub proof fn damaged_record_is_rejected(record: WalFields, i: int, byte: u8, rest: Seq<u8>)
    requires
        wal_fits(record),
        wal_bytes(record).len() <= usize::MAX,
        WAL_HEADER_SIZE <= i < wal_bytes(record).len(),
        byte != wal_bytes(record)[i],
    ensures
        wal_decoded(wal_bytes(record).update(i, byte) + rest) == Err::<WalFields, FormatError>(
            FormatError::ChecksumMismatch,
        ),
{
    let body = record.key + record.meta + record.payload;
    let sum = checksum_of(body) as nat;
    lemma_le_capacities();
    lemma_le_round_trip(record.key.len(), 2);
    lemma_le_round_trip(record.meta.len(), 2);
    lemma_le_round_trip(record.payload.len(), 4);
    lemma_le_round_trip(sum, 4);
    let data = wal_bytes(record).update(i, byte) + rest;
    let end = (24 + body.len()) as int;
    assert(wal_bytes(record).len() == end);
    assert(WAL_MAGIC@ =~= data.subrange(0, 12));
    assert(data.subrange(12, 14) =~= le_bytes(record.key.len(), 2));
    assert(data.subrange(14, 16) =~= le_bytes(record.meta.len(), 2));
    assert(data.subrange(16, 20) =~= le_bytes(record.payload.len(), 4));
    assert(data.subrange(20, 24) =~= le_bytes(sum, 4));
    assert(wal_bytes(record)[i] == body[i - 24]);
    assert(data.subrange(24, end) =~= body.update(i - 24, byte));
    one_byte_changes_the_checksum(body, i - 24, byte);
}

// ---- segment footer ----

/// Segment footer v1 for validating index footer integrity.
#[derive(Clone, Copy, Debug, PartialEq, Eq)]
pub struct SegmentFooter {
    pub index_len: u32,
    pub index_checksum: u32,
}

/// The bytes of a footer.
pub open spec fn footer_bytes(footer: SegmentFooter) -> Seq<u8> {
    SEGMENT_FOOTER_MAGIC@ + le_bytes(footer.index_len as nat, 4) + le_bytes(
        footer.index_checksum as nat,
        4,
    )
}

/// What footer bytes decode to, held against the index they protect. Bytes
/// after the footer are ignored.
pub open spec fn footer_decoded(footer: Seq<u8>, index: Seq<u8>) -> Result<
    SegmentFooter,
    FormatError,
> {
    if footer.len() < SEGMENT_FOOTER_SIZE {
        Err(FormatError::UnexpectedEof)
    } else if !SEGMENT_FOOTER_MAGIC@.is_prefix_of(footer) {
        Err(FormatError::InvalidMagic)
    } else if le_value(footer.subrange(12, 16)) != index.len() {
        Err(FormatError::UnexpectedEof)
    } else if le_value(footer.subrange(16, 20)) != checksum_of(index) {
        Err(FormatError::ChecksumMismatch)
    } else {
        Ok(
            SegmentFooter {
                index_len: le_value(footer.subrange(12, 16)) as u32,
                index_checksum: le_value(footer.subrange(16, 20)) as u32,
            },
        )
    }
}

/// Encodes a v1 segment footer.
pub fn encode_segment_footer(footer: SegmentFooter) -> (encoded: [u8; 20])
    ensures
        encoded@ == footer_bytes(footer),
{
    let mut bytes: Vec<u8> = Vec::new();
    push_bytes(&mut bytes, &SEGMENT_FOOTER_MAGIC);
    push_u32(&mut bytes, footer.index_len);
    push_u32(&mut bytes, footer.index_checksum);
    proof {
        lemma_le_bytes_len(footer.index_len as nat, 4);
        lemma_le_bytes_len(footer.index_checksum as nat, 4);
    }
    let mut out: [u8; 20] = [0;20];
    let mut i: usize = 0;
    while i < 20
        invariant
            i <= 20,
            bytes@.len() == 20,
            forall|j: int| 0 <= j < i ==> out@[j] == bytes@[j],
        decreases 20 - i,
    {
        out[i] = bytes[i];
        i = i + 1;
    }
    assert(out@ =~= bytes@);
    out
}

/// Parses and validates a v1 segment footer and index payload.
pub fn decode_segment_footer(footer_bytes: &[u8], index_bytes: &[u8]) -> (decoded: Result<
    SegmentFooter,
    FormatError,
>)
    ensures
        decoded == footer_decoded(footer_bytes@, index_bytes@),
{
    if footer_bytes.len() < SEGMENT_FOOTER_SIZE {
        return Err(FormatError::UnexpectedEof);
    }
    if !starts_with(footer_bytes, &SEGMENT_FOOTER_MAGIC) {
        return Err(FormatError::InvalidMagic);
    }
    let index_len: u32 = get_u32(footer_bytes, 12);
    let index_checksum: u32 = get_u32(footer_bytes, 16);
    if index_len as usize != index_bytes.len() {
        return Err(FormatError::UnexpectedEof);
    }
    if checksum32(index_bytes) != index_checksum {
        return Err(FormatError::ChecksumMismatch);
    }
    Ok(SegmentFooter { index_len, index_checksum })
}

/// A footer made for an index validates against that index.
pub proof fn footer_round_trip(index: Seq<u8>)
    requires
        index.len() <= u32::MAX,
    ensures
        footer_decoded(
            footer_bytes(
                SegmentFooter { index_len: index.len() as u32, index_checksum: checksum_of(index) },
            ),
            index,
        ) == Ok::<SegmentFooter, FormatError>(
            SegmentFooter { index_len: index.len() as u32, index_checksum: checksum_of(index) },
        ),
{
    let footer = SegmentFooter {
        index_len: index.len() as u32,
        index_checksum: checksum_of(index),
    };
    let bytes = footer_bytes(footer);
    lemma_le_capacities();
    lemma_le_round_trip(footer.index_len as nat, 4);
    lemma_le_round_trip(footer.index_checksum as nat, 4);
    assert(SEGMENT_FOOTER_MAGIC@ =~= bytes.subrange(0, 12));
    assert(bytes.subrange(12, 16) =~= le_bytes(footer.index_len as nat, 4));
    assert(bytes.subrange(16, 20) =~= le_bytes(footer.index_checksum as nat, 4));
}

/// A footer rejects an index of which one byte has changed.
pub proof fn damaged_index_is_rejected(index: Seq<u8>, i: int, byte: u8)
    requires
        index.len() <= u32::MAX,
        0 <= i < index.len(),
        byte != index[i],
    ensures
        footer_decoded(
            footer_bytes(
                SegmentFooter { index_len: index.len() as u32, index_checksum: checksum_of(index) },
            ),
            index.update(i, byte),
        ) == Err::<SegmentFooter, FormatError>(FormatError::ChecksumMismatch),
{
    footer_round_trip(index);
    one_byte_changes_the_checksum(index, i, byte);
}

// ---- segments ----

/// Segment index entry mapping key -> payload byte range.
#[derive(Clone, Debug, PartialEq, Eq)]
pub struct SegmentIndexEntry {
    pub key: Vec<u8>,
    pub payload_offset: u32,
    pub payload_len: u32,
}

/// The contents of a [`SegmentIndexEntry`].
pub struct IndexFields {
    pub key: Seq<u8>,
    pub payload_offset: nat,
    pub payload_len: nat,
}

impl View for SegmentIndexEntry {
    type V = IndexFields;

    open spec fn view(&self) -> IndexFields {
        IndexFields {
            key: self.key@,
            payload_offset: self.payload_offset as nat,
            payload_len: self.payload_len as nat,
        }
    }
}

/// The contents of a sequence of index entries.
pub open spec fn index_fields(entries: Seq<SegmentIndexEntry>) -> Seq<IndexFields> {
    entries.map_values(|e: SegmentIndexEntry| e@)
}

/// The contents of a sequence of blocks.
pub open spec fn block_fields(blocks: Seq<(Vec<u8>, Vec<u8>)>) -> Seq<(Seq<u8>, Seq<u8>)> {
    blocks.map_values(|b: (Vec<u8>, Vec<u8>)| (b.0@, b.1@))
}

/// The bytes of one index entry.
pub open spec fn entry_bytes(entry: IndexFields) -> Seq<u8> {
    le_bytes(entry.key.len(), 2) + entry.key + le_bytes(entry.payload_offset, 4) + le_bytes(
        entry.payload_len,
        4,
    )
}

/// The bytes of an index.
pub open spec fn index_bytes(entries: Seq<IndexFields>) -> Seq<u8>
    decreases entries.len(),
{
    if entries.len() == 0 {
        Seq::empty()
    } else {
        entry_bytes(entries[0]) + index_bytes(entries.drop_first())
    }
}

/// Whether an entry's fields fit their on-disk widths.
pub open spec fn entry_fits(entry: IndexFields) -> bool {
    entry.key.len() <= u16::MAX && entry.payload_offset <= u32::MAX && entry.payload_len
        <= u32::MAX
}

/// The entries that index bytes hold, or `None` where they end inside one.
pub open spec fn index_parsed(bytes: Seq<u8>) -> Option<Seq<IndexFields>>
    decreases bytes.len(),
{
    if bytes.len() == 0 {
        Some(Seq::empty())
    } else if bytes.len() < 2 {
        None
    } else {
        let key_len = le_value(bytes.subrange(0, 2));
        if bytes.len() < 2 + key_len + 8 {
            None
        } else {
            let at = (2 + key_len) as int;
            let entry = IndexFields {
                key: bytes.subrange(2, at),
                payload_offset: le_value(bytes.subrange(at, at + 4)),
                payload_len: le_value(bytes.subrange(at + 4, at + 8)),
            };
            match index_parsed(bytes.skip(at + 8)) {
                Some(rest) => Some(seq![entry] + rest),
                None => None,
            }
        }
    }
}

/// The bytes of one block.
pub open spec fn block_bytes(block: (Seq<u8>, Seq<u8>)) -> Seq<u8> {
    le_bytes(block.0.len(), 2) + le_bytes(block.1.len(), 4) + block.0 + block.1
}

/// The header of a segment that announces `count` blocks, and its first blocks.
pub open spec fn segment_prefix(blocks: Seq<(Seq<u8>, Seq<u8>)>, count: nat) -> Seq<u8>
    decreases blocks.len(),
{
    if blocks.len() == 0 {
        SEGMENT_MAGIC@ + le_bytes(count, 4)
    } else {
        segment_prefix(blocks.drop_last(), count) + block_bytes(blocks.last())
    }
}

/// The index entry of the last of `blocks`: its payload lies behind everything
/// before it, the two lengths and the key.
pub open spec fn last_entry(blocks: Seq<(Seq<u8>, Seq<u8>)>, count: nat) -> IndexFields {
    IndexFields {
        key: blocks.last().0,
        payload_offset: segment_prefix(blocks.drop_last(), count).len() + 6
            + blocks.last().0.len(),
        payload_len: blocks.last().1.len(),
    }
}

/// The index entries of a run of blocks.
pub open spec fn segment_entries(blocks: Seq<(Seq<u8>, Seq<u8>)>, count: nat) -> Seq<IndexFields>
    decreases blocks.len(),
{
    if blocks.len() == 0 {
        Seq::empty()
    } else {
        segment_entries(blocks.drop_last(), count).push(last_entry(blocks, count))
    }
}

/// Whether every block of the run fits its lengths and its index entry.
pub open spec fn blocks_fit(blocks: Seq<(Seq<u8>, Seq<u8>)>, count: nat) -> bool
    decreases blocks.len(),
{
    blocks.len() > 0 ==> blocks_fit(blocks.drop_last(), count) && entry_fits(
        last_entry(blocks, count),
    )
}

/// Whether blocks can be held in one segment.
pub open spec fn segment_fits(blocks: Seq<(Seq<u8>, Seq<u8>)>) -> bool {
    blocks.len() <= u32::MAX && blocks_fit(blocks, blocks.len()) && index_bytes(
        segment_entries(blocks, blocks.len()),
    ).len() <= u32::MAX
}

/// The bytes of a segment whose blocks fit.
pub open spec fn segment_bytes(blocks: Seq<(Seq<u8>, Seq<u8>)>) -> Seq<u8> {
    let index = index_bytes(segment_entries(blocks, blocks.len()));
    segment_prefix(blocks, blocks.len()) + index + footer_bytes(
        SegmentFooter { index_len: index.len() as u32, index_checksum: checksum_of(index) },
    )
}

/// The index that a segment object holds.
pub open spec fn segment_index(segment: Seq<u8>) -> Result<Seq<IndexFields>, FormatError> {
    if segment.len() < SEGMENT_HEADER_SIZE + SEGMENT_FOOTER_SIZE {
        Err(FormatError::UnexpectedEof)
    } else if !SEGMENT_MAGIC@.is_prefix_of(segment) {
        Err(FormatError::InvalidMagic)
    } else {
        let footer_start = segment.len() - SEGMENT_FOOTER_SIZE;
        let footer = segment.skip(footer_start);
        let index_start = footer_start - le_value(footer.subrange(12, 16));
        if index_start < 0 {
            Err(FormatError::UnexpectedEof)
        } else {
            let index = segment.subrange(index_start, footer_start);
            match footer_decoded(footer, index) {
                Err(error) => Err(error),
                Ok(_) => match index_parsed(index) {
                    Some(entries) => Ok(entries),
                    None => Err(FormatError::UnexpectedEof),
                },
            }
        }
    }
}

/// The entries of a decoded index, or the error.
pub open spec fn index_result(result: Result<Vec<SegmentIndexEntry>, FormatError>) -> Result<
    Seq<IndexFields>,
    FormatError,
> {
    match result {
        Ok(entries) => Ok(index_fields(entries@)),
        Err(error) => Err(error),
    }
}

/// Index bytes of a longer index.
proof fn lemma_index_bytes_push(entries: Seq<IndexFields>, entry: IndexFields)
    ensures
        index_bytes(entries.push(entry)) == index_bytes(entries) + entry_bytes(entry),
    decreases entries.len(),
{
    let all = entries.push(entry);
    if entries.len() == 0 {
        assert(all.drop_first() =~= Seq::<IndexFields>::empty());
        assert(index_bytes(all.drop_first()) =~= Seq::<u8>::empty());
        assert(index_bytes(all) =~= entry_bytes(entry));
        assert(index_bytes(entries) + entry_bytes(entry) =~= entry_bytes(entry));
    } else {
        lemma_index_bytes_push(entries.drop_first(), entry);
        assert(all.drop_first() =~= entries.drop_first().push(entry));
        assert(index_bytes(all) =~= index_bytes(entries) + entry_bytes(entry));
    }
}

/// Encodes index entries.
fn encode_segment_index(entries: &[SegmentIndexEntry]) -> (encoded: Result<Vec<u8>, FormatError>)
    ensures
        encoded matches Ok(bytes) ==> bytes@ == index_bytes(index_fields(entries@)),
        encoded is Err <==> exists|i: int|
            0 <= i < entries@.len() && #[trigger] entries@[i].key@.len() > u16::MAX,
        encoded matches Err(error) ==> error == FormatError::FieldTooLarge,
{
    let mut out: Vec<u8> = Vec::new();
    let ghost all = index_fields(entries@);
    let mut i: usize = 0;
    while i < entries.len()
        invariant
            i <= entries@.len(),
            all == index_fields(entries@),
            out@ == index_bytes(all.take(i as int)),
            forall|j: int| 0 <= j < i ==> #[trigger] entries@[j].key@.len() <= u16::MAX,
        decreases entries@.len() - i,
    {
        let entry = &entries[i];
        if entry.key.len() > 0xffff {
            assert(entries@[i as int].key@.len() > u16::MAX);
            return Err(FormatError::FieldTooLarge);
        }
        push_u16(&mut out, entry.key.len() as u16);
        push_bytes(&mut out, &entry.key);
        push_u32(&mut out, entry.payload_offset);
        push_u32(&mut out, entry.payload_len);
        proof {
            lemma_index_bytes_push(all.take(i as int), all[i as int]);
            assert(all.take(i + 1) =~= all.take(i as int).push(all[i as int]));
            assert(out@ =~= index_bytes(all.take(i as int)) + entry_bytes(all[i as int]));
        }
        i = i + 1;
    }
    assert(all.take(i as int) =~= all);
    Ok(out)
}

/// Encode compact segment object with sparse index + footer.
pub fn encode_segment_v1(blocks: &[(Vec<u8>, Vec<u8>)]) -> (encoded: Result<Vec<u8>, FormatError>)
    ensures
        segment_fits(block_fields(blocks@)) ==> (encoded matches Ok(bytes) && bytes@
            == segment_bytes(block_fields(blocks@))),
        !segment_fits(block_fields(blocks@)) ==> encoded == Err::<Vec<u8>, FormatError>(
            FormatError::FieldTooLarge,
        ),
{
    if blocks.len() > 0xffff_ffff {
        return Err(FormatError::FieldTooLarge);
    }
    let ghost all = block_fields(blocks@);
    let ghost count = all.len();
    let mut out: Vec<u8> = Vec::new();
    push_bytes(&mut out, &SEGMENT_MAGIC);
    push_u32(&mut out, blocks.len() as u32);

    let mut index_entries: Vec<SegmentIndexEntry> = Vec::new();
    let mut i: usize = 0;
    assert(all.take(0) =~= Seq::empty());
    assert(out@ =~= segment_prefix(all.take(0), count));
    assert(index_fields(index_entries@) =~= segment_entries(all.take(0), count));
    while i < blocks.len()
        invariant
            i <= blocks@.len(),
            blocks@.len() <= u32::MAX,
            all == block_fields(blocks@),
            count == all.len(),
            out@ == segment_prefix(all.take(i as int), count),
            index_fields(index_entries@) == segment_entries(all.take(i as int), count),
            blocks_fit(all.take(i as int), count),
            index_entries@.len() == i,
            forall|j: int| 0 <= j < i ==> #[trigger] index_entries@[j].key@.len() <= u16::MAX,
        decreases blocks@.len() - i,
    {
        let ghost upto = all.take(i + 1);
        proof {
            assert(upto.drop_last() =~= all.take(i as int));
            assert(upto.last() == all[i as int]);
        }
        let key = &blocks[i].0;
        let payload = &blocks[i].1;
        if key.len() > 0xffff || payload.len() > 0xffff_ffff {
            proof {
                lemma_unfit_prefix(all, i + 1, count);
            }
            return Err(FormatError::FieldTooLarge);
        }
        let at: usize = out.len();
        if at > 0xffff_ffff || at as u64 + 6 + key.len() as u64 > 0xffff_ffff {
            proof {
                lemma_unfit_prefix(all, i + 1, count);
            }
            return Err(FormatError::FieldTooLarge);
        }
        let payload_offset: u32 = (at as u64 + 6 + key.len() as u64) as u32;
        push_u16(&mut out, key.len() as u16);
        push_u32(&mut out, payload.len() as u32);
        push_bytes(&mut out, key);
        push_bytes(&mut out, payload);
        let entry = SegmentIndexEntry {
            key: copy_bytes(key),
            payload_offset,
            payload_len: payload.len() as u32,
        };
        proof {
            assert(entry@ == last_entry(upto, count));
        }
        let ghost before = index_entries@;
        index_entries.push(entry);
        proof {
            assert(index_fields(index_entries@) =~= index_fields(before).push(entry@));
            assert(out@ =~= segment_prefix(all.take(i as int), count) + block_bytes(
                all[i as int],
            ));
        }
        i = i + 1;
    }
    assert(all.take(i as int) =~= all);

    let index: Vec<u8> = match encode_segment_index(&index_entries) {
        Ok(index) => index,
        Err(error) => {
            return Err(error);
        },
    };
    if index.len() > 0xffff_ffff {
        return Err(FormatError::FieldTooLarge);
    }
    let footer = encode_segment_footer(
        SegmentFooter { index_len: index.len() as u32, index_checksum: checksum32(&index) },
    );
    push_bytes(&mut out, &index);
    push_bytes(&mut out, &footer);
    Ok(out)
}

/// Blocks of which some first part does not fit do not fit.
proof fn lemma_unfit_prefix(blocks: Seq<(Seq<u8>, Seq<u8>)>, n: int, count: nat)
    requires
        0 <= n <= blocks.len(),
        !blocks_fit(blocks.take(n), count),
    ensures
        !blocks_fit(blocks, count),
    decreases blocks.len(),
{
    if n == blocks.len() {
        assert(blocks.take(n) =~= blocks);
    } else {
        assert(blocks.drop_last().take(n) =~= blocks.take(n));
        lemma_unfit_prefix(blocks.drop_last(), n, count);
    }
}

/// Parses index entries until the bytes are used up.
fn parse_segment_index(index: &[u8]) -> (parsed: Result<Vec<SegmentIndexEntry>, FormatError>)
    ensures
        match index_parsed(index@) {
            Some(entries) => parsed matches Ok(p) && index_fields(p@) == entries,
            None => parsed == Err::<Vec<SegmentIndexEntry>, FormatError>(
                FormatError::UnexpectedEof,
            ),
        },
{
    let mut cursor: usize = 0;
    let mut entries: Vec<SegmentIndexEntry> = Vec::new();
    proof {
        assert(index@.skip(0) =~= index@);
        if let Some(rest) = index_parsed(index@) {
            assert(index_fields(entries@) + rest =~= rest);
        }
    }
    while cursor < index.len()
        invariant
            cursor <= index@.len(),
            match index_parsed(index@.skip(cursor as int)) {
                Some(rest) => index_parsed(index@) == Some(index_fields(entries@) + rest),
                None => index_parsed(index@) is None,
            },
        decreases index@.len() - cursor,
    {
        let ghost window = index@.skip(cursor as int);
        let ghost before = entries@;
        if index.len() - cursor < 2 {
            return Err(FormatError::UnexpectedEof);
        }
        let key_len: usize = get_u16(index, cursor) as usize;
        assert(window.subrange(0, 2) =~= index@.subrange(cursor as int, cursor + 2));
        if index.len() - cursor - 2 < key_len + 8 {
            return Err(FormatError::UnexpectedEof);
        }
        let at: usize = cursor + 2 + key_len;
        let key: Vec<u8> = copy_bytes(&index[cursor + 2..at]);
        let payload_offset: u32 = get_u32(index, at);
        let payload_len: u32 = get_u32(index, at + 4);
        let ghost local = (2 + key_len) as int;
        assert(window.subrange(2, local) =~= index@.subrange(cursor + 2, at as int));
        assert(window.subrange(local, local + 4) =~= index@.subrange(at as int, at + 4));
        assert(window.subrange(local + 4, local + 8) =~= index@.subrange(at + 4, at + 8));
        assert(window.skip(local + 8) =~= index@.skip(at + 8));
        let entry = SegmentIndexEntry { key, payload_offset, payload_len };
        entries.push(entry);
        proof {
            assert(index_fields(entries@) =~= index_fields(before).push(entry@));
            if let Some(rest) = index_parsed(index@.skip(at + 8)) {
                assert(index_fields(before) + (seq![entry@] + rest) =~= index_fields(entries@)
                    + rest);
            }
        }
        cursor = at + 8;
    }
    proof {
        assert(index@.skip(cursor as int).len() == 0);
        assert(index_fields(entries@) + Seq::<IndexFields>::empty() =~= index_fields(entries@));
    }
    Ok(entries)
}

/// Decode segment index from a full segment object.
pub fn decode_segment_index(segment: &[u8]) -> (decoded: Result<
    Vec<SegmentIndexEntry>,
    FormatError,
>)
    ensures
        index_result(decoded) == segment_index(segment@),
{
    if segment.len() < SEGMENT_HEADER_SIZE + SEGMENT_FOOTER_SIZE {
        return Err(FormatError::UnexpectedEof);
    }
    if !starts_with(segment, &SEGMENT_MAGIC) {
        return Err(FormatError::InvalidMagic);
    }
    let footer_start: usize = segment.len() - SEGMENT_FOOTER_SIZE;
    let footer = &segment[footer_start..segment.len()];
    assert(footer@ =~= segment@.skip(footer_start as int));
    let index_len: usize = get_u32(footer, 12) as usize;
    if footer_start < index_len {
        return Err(FormatError::UnexpectedEof);
    }
    let index = &segment[footer_start - index_len..footer_start];
    match decode_segment_footer(footer, index) {
        Err(error) => Err(error),
        Ok(_) => parse_segment_index(index),
    }
}

/// Parsing an encoded index gives its entries back.
pub proof fn index_round_trip(entries: Seq<IndexFields>)
    requires
        forall|i: int| 0 <= i < entries.len() ==> #[trigger] entry_fits(entries[i]),
    ensures
        index_parsed(index_bytes(entries)) == Some(entries),
    decreases entries.len(),
{
    if entries.len() > 0 {
        let entry = entries[0];
        let rest = entries.drop_first();
        assert(entry_fits(entry));
        assert forall|i: int| 0 <= i < rest.len() implies #[trigger] entry_fits(rest[i]) by {
            assert(rest[i] == entries[i + 1]);
            assert(entry_fits(entries[i + 1]));
        }
        index_round_trip(rest);
        lemma_le_capacities();
        lemma_le_round_trip(entry.key.len(), 2);
        lemma_le_round_trip(entry.payload_offset, 4);
        lemma_le_round_trip(entry.payload_len, 4);
        let bytes = index_bytes(entries);
        let at = (2 + entry.key.len()) as int;
        assert(bytes.subrange(0, 2) =~= le_bytes(entry.key.len(), 2));
        assert(bytes.subrange(2, at) =~= entry.key);
        assert(bytes.subrange(at, at + 4) =~= le_bytes(entry.payload_offset, 4));
        assert(bytes.subrange(at + 4, at + 8) =~= le_bytes(entry.payload_len, 4));
        assert(bytes.skip(at + 8) =~= index_bytes(rest));
        assert(seq![entry] + rest =~= entries);
    } else {
        assert(entries =~= Seq::<IndexFields>::empty());
    }
}

/// Fitting blocks have fitting index entries.
proof fn lemma_entries_fit(blocks: Seq<(Seq<u8>, Seq<u8>)>, count: nat)
    requires
        blocks_fit(blocks, count),
    ensures
        segment_entries(blocks, count).len() == blocks.len(),
        forall|i: int|
            0 <= i < blocks.len() ==> #[trigger] entry_fits(segment_entries(blocks, count)[i]),
    decreases blocks.len(),
{
    if blocks.len() > 0 {
        lemma_entries_fit(blocks.drop_last(), count);
        let shorter = segment_entries(blocks.drop_last(), count);
        assert forall|i: int| 0 <= i < blocks.len() implies #[trigger] entry_fits(
            segment_entries(blocks, count)[i],
        ) by {
            if i < blocks.len() - 1 {
                assert(entry_fits(shorter[i]));
            }
        }
    }
}

/// The header of a segment starts its every prefix.
proof fn lemma_prefix_starts(blocks: Seq<(Seq<u8>, Seq<u8>)>, count: nat)
    ensures
        segment_prefix(blocks, count).len() >= SEGMENT_HEADER_SIZE,
        SEGMENT_MAGIC@.is_prefix_of(segment_prefix(blocks, count)),
    decreases blocks.len(),
{
    lemma_le_bytes_len(count, 4);
    if blocks.len() > 0 {
        lemma_prefix_starts(blocks.drop_last(), count);
        let shorter = segment_prefix(blocks.drop_last(), count);
        assert(segment_prefix(blocks, count).subrange(0, 12) =~= shorter.subrange(0, 12));
    } else {
        assert(segment_prefix(blocks, count).subrange(0, 12) =~= SEGMENT_MAGIC@);
    }
}

/// Decoding the index of an encoded segment gives one entry per block, in
/// block order.
pub proof fn segment_round_trip(blocks: Seq<(Seq<u8>, Seq<u8>)>)
    requires
        segment_fits(blocks),
    ensures
        segment_index(segment_bytes(blocks)) == Ok::<Seq<IndexFields>, FormatError>(
            segment_entries(blocks, blocks.len()),
        ),
{
    let count = blocks.len();
    let entries = segment_entries(blocks, count);
    let index = index_bytes(entries);
    let footer = SegmentFooter {
        index_len: index.len() as u32,
        index_checksum: checksum_of(index),
    };
    let prefix = segment_prefix(blocks, count);
    let segment = segment_bytes(blocks);
    lemma_prefix_starts(blocks, count);
    lemma_entries_fit(blocks, count);
    index_round_trip(entries);
    footer_round_trip(index);
    lemma_le_capacities();
    lemma_le_round_trip(footer.index_len as nat, 4);
    lemma_le_round_trip(footer.index_checksum as nat, 4);
    assert(segment.subrange(0, 12) =~= prefix.subrange(0, 12));
    let footer_start = segment.len() - 20;
    assert(footer_bytes(footer).len() == 20);
    assert(segment.skip(footer_start) =~= footer_bytes(footer));
    assert(footer_bytes(footer).subrange(12, 16) =~= le_bytes(footer.index_len as nat, 4));
    assert(segment.subrange(footer_start - index.len(), footer_start) =~= index);
}

/// A segment of which one byte of the index has changed is rejected.
pub proof fn damaged_segment_is_rejected(blocks: Seq<(Seq<u8>, Seq<u8>)>, i: int, byte: u8)
    requires
        segment_fits(blocks),
        segment_prefix(blocks, blocks.len()).len() <= i < segment_bytes(blocks).len()
            - SEGMENT_FOOTER_SIZE,
        byte != segment_bytes(blocks)[i],
    ensures
        segment_index(segment_bytes(blocks).update(i, byte)) == Err::<
            Seq<IndexFields>,
            FormatError,
        >(FormatError::ChecksumMismatch),
{
    let count = blocks.len();
    let index = index_bytes(segment_entries(blocks, count));
    let footer = SegmentFooter {
        index_len: index.len() as u32,
        index_checksum: checksum_of(index),
    };
    let prefix = segment_prefix(blocks, count);
    let segment = segment_bytes(blocks).update(i, byte);
    lemma_prefix_starts(blocks, count);
    lemma_le_capacities();
    lemma_le_round_trip(footer.index_len as nat, 4);
    lemma_le_round_trip(footer.index_checksum as nat, 4);
    assert(segment.subrange(0, 12) =~= prefix.subrange(0, 12));
    let footer_start = segment.len() - 20;
    assert(footer_bytes(footer).len() == 20);
    assert(segment.skip(footer_start) =~= footer_bytes(footer));
    assert(footer_bytes(footer).subrange(12, 16) =~= le_bytes(footer.index_len as nat, 4));
    let at = i - prefix.len();
    assert(segment_bytes(blocks)[i] == index[at]);
    assert(segment.subrange(footer_start - index.len(), footer_start) =~= index.update(at, byte));
    damaged_index_is_rejected(index, at, byte);
}

/// Prefixes of a segment nest.
proof fn lemma_prefix_nests(blocks: Seq<(Seq<u8>, Seq<u8>)>, n: int, count: nat)
    requires
        0 <= n <= blocks.len(),
    ensures
        segment_prefix(blocks.take(n), count).is_prefix_of(segment_prefix(blocks, count)),
        n < blocks.len() ==> segment_entries(blocks, count).len() == blocks.len()
            && segment_entries(blocks, count)[n] == last_entry(blocks.take(n + 1), count),
    decreases blocks.len(),
{
    if n == blocks.len() {
        assert(blocks.take(n) =~= blocks);
        assert(segment_prefix(blocks, count) =~= segment_prefix(blocks, count).subrange(
            0,
            segment_prefix(blocks, count).len() as int,
        ));
    } else {
        let shorter = blocks.drop_last();
        lemma_prefix_nests(shorter, n, count);
        lemma_entries_len(blocks, count);
        assert(shorter.take(n) =~= blocks.take(n));
        let inner = segment_prefix(blocks.take(n), count);
        let outer = segment_prefix(blocks, count);
        assert(outer.subrange(0, inner.len() as int) =~= segment_prefix(shorter, count).subrange(
            0,
            inner.len() as int,
        ));
        if n == blocks.len() - 1 {
            assert(blocks.take(n + 1) =~= blocks);
        } else {
            assert(shorter.take(n + 1) =~= blocks.take(n + 1));
        }
    }
}

proof fn lemma_entries_len(blocks: Seq<(Seq<u8>, Seq<u8>)>, count: nat)
    ensures
        segment_entries(blocks, count).len() == blocks.len(),
    decreases blocks.len(),
{
    if blocks.len() > 0 {
        lemma_entries_len(blocks.drop_last(), count);
    }
}

/// Each index entry of a segment names its block's key and the byte range at
/// which the segment holds that block's payload.
pub proof fn segment_entry_locates_payload(blocks: Seq<(Seq<u8>, Seq<u8>)>, i: int)
    requires
        segment_fits(blocks),
        0 <= i < blocks.len(),
    ensures
        segment_entries(blocks, blocks.len()).len() == blocks.len(),
        ({
            let entry = segment_entries(blocks, blocks.len())[i];
            &&& entry.key == blocks[i].0
            &&& entry.payload_offset + entry.payload_len <= segment_bytes(blocks).len()
            &&& segment_bytes(blocks).subrange(
                entry.payload_offset as int,
                (entry.payload_offset + entry.payload_len) as int,
            ) == blocks[i].1
        }),
{
    let count = blocks.len();
    let upto = blocks.take(i + 1);
    lemma_prefix_nests(blocks, i, count);
    lemma_prefix_nests(blocks, i + 1, count);
    assert(upto.drop_last() =~= blocks.take(i));
    assert(upto.last() == blocks[i]);
    let entry = last_entry(upto, count);
    let before = segment_prefix(blocks.take(i), count);
    let through = segment_prefix(upto, count);
    assert(through == before + block_bytes(blocks[i]));
    lemma_le_bytes_len(blocks[i].0.len(), 2);
    lemma_le_bytes_len(blocks[i].1.len(), 4);
    let start = entry.payload_offset as int;
    let end = start + entry.payload_len;
    assert(through.subrange(start, end) =~= blocks[i].1);
    let prefix = segment_prefix(blocks, count);
    assert(prefix.subrange(0, through.len() as int) =~= through);
    assert(segment_bytes(blocks).subrange(start, end) =~= prefix.subrange(start, end));
    assert(prefix.subrange(start, end) =~= through.subrange(start, end));
}

/// A record that was cut short anywhere is reported as ending too early.
pub proof fn torn_record_ends_too_early(record: WalFields, n: int)
    requires
        wal_fits(record),
        wal_bytes(record).len() <= usize::MAX,
        0 <= n < wal_bytes(record).len(),
    ensures
        wal_decoded(wal_bytes(record).take(n)) == Err::<WalFields, FormatError>(
            FormatError::UnexpectedEof,
        ),
{
    let whole = wal_bytes(record);
    let cut = whole.take(n);
    lemma_le_capacities();
    lemma_le_round_trip(record.key.len(), 2);
    lemma_le_round_trip(record.meta.len(), 2);
    lemma_le_round_trip(record.payload.len(), 4);
    lemma_le_bytes_len(
        checksum_of(record.key + record.meta + record.payload) as nat,
        4,
    );
    if n >= 24 {
        assert(cut.subrange(12, 14) =~= le_bytes(record.key.len(), 2));
        assert(cut.subrange(14, 16) =~= le_bytes(record.meta.len(), 2));
        assert(cut.subrange(16, 20) =~= le_bytes(record.payload.len(), 4));
        assert(WAL_MAGIC@ =~= cut.subrange(0, 12));
    }
}

/// Bytes that do not start with the mark of a record are reported as no record, and
/// bytes too few for a header as ending too early, whatever they are.
pub proof fn foreign_bytes_are_no_record(data: Seq<u8>)
    ensures
        data.len() < 24 ==> wal_decoded(data) == Err::<WalFields, FormatError>(
            FormatError::UnexpectedEof,
        ),
        data.len() >= 24 && data.subrange(0, 12) != seq![
            0x57u8,
            0x4du8,
            0x42u8,
            0x54u8,
            0x5fu8,
            0x4bu8,
            0x56u8,
            0x5fu8,
            0x57u8,
            0x41u8,
            0x4cu8,
            0x31u8,
        ] ==> wal_decoded(data) == Err::<WalFields, FormatError>(FormatError::InvalidMagic),
{
    assert(WAL_MAGIC@ =~= seq![
        0x57u8,
        0x4du8,
        0x42u8,
        0x54u8,
        0x5fu8,
        0x4bu8,
        0x56u8,
        0x5fu8,
        0x57u8,
        0x41u8,
        0x4cu8,
        0x31u8,
    ]);
}

/// Whether a number can be read back from a field of so many bytes.
pub open spec fn is_kept(value: nat, width: nat) -> bool {
    le_value(le_bytes(value, width)) == value
}

/// A record is refused exactly where one of its lengths could not be read back from its
/// prefix, and an index entry exactly where one of its fields could not.
pub proof fn fields_are_refused_where_they_would_be_cut(record: WalFields, entry: IndexFields)
    ensures
        wal_fits(record) <==> is_kept(record.key.len(), 2) && is_kept(record.meta.len(), 2)
            && is_kept(record.payload.len(), 4),
        entry_fits(entry) <==> is_kept(entry.key.len(), 2) && is_kept(entry.payload_offset, 4)
            && is_kept(entry.payload_len, 4),
{
    lemma_kept(record.key.len(), 2);
    lemma_kept(record.meta.len(), 2);
    lemma_kept(record.payload.len(), 4);
    lemma_kept(entry.key.len(), 2);
    lemma_kept(entry.payload_offset, 4);
    lemma_kept(entry.payload_len, 4);
    lemma_le_capacities();
}

proof fn lemma_kept(value: nat, width: nat)
    ensures
        is_kept(value, width) <==> value < crate::le::le_capacity(width),
{
    lemma_le_bytes_len(value, width);
    crate::le::lemma_le_value_bound(le_bytes(value, width));
    if value < crate::le::le_capacity(width) {
        lemma_le_round_trip(value, width);
    }
}

} // verus!
