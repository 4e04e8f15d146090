//! Little-endian integers inside byte sequences.

use vstd::prelude::*;

verus! {

/// The `width` low-order bytes of `value`, least significant first.
pub open spec fn le_bytes(value: nat, width: nat) -> Seq<u8>
    decreases width,
{
    if width == 0 {
        Seq::empty()
    } else {
        seq![(value % 256) as u8] + le_bytes(value / 256, (width - 1) as nat)
    }
}

/// The number whose little-endian bytes are `bytes`.
pub open spec fn le_value(bytes: Seq<u8>) -> nat
    decreases bytes.len(),
{
    if bytes.len() == 0 {
        0
    } else {
        bytes[0] as nat + 256 * le_value(bytes.drop_first())
    }
}

/// How many numbers `width` bytes can hold.
pub open spec fn le_capacity(width: nat) -> nat
    decreases width,
{
    if width == 0 {
        1
    } else {
        256 * le_capacity((width - 1) as nat)
    }
}

/// An encoding has exactly the requested width.
pub proof fn lemma_le_bytes_len(value: nat, width: nat)
    ensures
        le_bytes(value, width).len() == width,
    decreases width,
{
    if width > 0 {
        lemma_le_bytes_len(value / 256, (width - 1) as nat);
    }
}

/// Decoding an encoding gives the number back, when it fits the width.
pub proof fn lemma_le_round_trip(value: nat, width: nat)
    requires
        value < le_capacity(width),
    ensures
        le_bytes(value, width).len() == width,
        le_value(le_bytes(value, width)) == value,
    decreases width,
{
    lemma_le_bytes_len(value, width);
    if width > 0 {
        let rest = (width - 1) as nat;
        assert(value / 256 < le_capacity(rest));
        lemma_le_round_trip(value / 256, rest);
        assert(le_bytes(value, width).drop_first() =~= le_bytes(value / 256, rest));
    }
}

/// Decoded numbers fit the width they were read from.
pub proof fn lemma_le_value_bound(bytes: Seq<u8>)
    ensures
        le_value(bytes) < le_capacity(bytes.len()),
    decreases bytes.len(),
{
    if bytes.len() > 0 {
        lemma_le_value_bound(bytes.drop_first());
    }
}

/// Encoding a decoded number gives the bytes back.
pub proof fn lemma_le_unique(bytes: Seq<u8>)
    ensures
        le_bytes(le_value(bytes), bytes.len()) == bytes,
    decreases bytes.len(),
{
    if bytes.len() > 0 {
        let rest = bytes.drop_first();
        lemma_le_unique(rest);
        assert(le_value(bytes) % 256 == bytes[0] as nat);
        assert(le_value(bytes) / 256 == le_value(rest));
        assert(seq![bytes[0]] + rest =~= bytes);
    } else {
        assert(le_bytes(le_value(bytes), 0) =~= bytes);
    }
}

/// The capacities of the widths used on the wire.
pub proof fn lemma_le_capacities()
    ensures
        le_capacity(2) == 0x1_0000,
        le_capacity(4) == 0x1_0000_0000,
        le_capacity(8) == 0x1_0000_0000_0000_0000,
{
    reveal_with_fuel(le_capacity, 9);
}

/// Appends the `width` low-order bytes of `value`.
fn push_le(out: &mut Vec<u8>, value: u64, width: usize)
    ensures
        final(out)@ == old(out)@ + le_bytes(value as nat, width as nat),
    decreases width,
{
    if width == 0 {
        assert(out@ =~= out@ + le_bytes(value as nat, 0));
        return ;
    }
    out.push((value % 256) as u8);
    push_le(out, value / 256, width - 1);
    assert(out@ =~= old(out)@ + le_bytes(value as nat, width as nat));
}

/// Appends a 16-bit number.
pub fn push_u16(out: &mut Vec<u8>, value: u16)
    ensures
        final(out)@ == old(out)@ + le_bytes(value as nat, 2),
{
    push_le(out, value as u64, 2);
}

/// Appends a 32-bit number.
pub fn push_u32(out: &mut Vec<u8>, value: u32)
    ensures
        final(out)@ == old(out)@ + le_bytes(value as nat, 4),
{
    push_le(out, value as u64, 4);
}

/// Appends a 64-bit number.
pub fn push_u64(out: &mut Vec<u8>, value: u64)
    ensures
        final(out)@ == old(out)@ + le_bytes(value as nat, 8),
{
    push_le(out, value, 8);
}

/// Appends the 32 low-order bits of a length.
pub fn push_len(out: &mut Vec<u8>, len: usize)
    ensures
        final(out)@ == old(out)@ + le_bytes(len as nat, 4),
{
    push_le(out, len as u64, 4);
}

/// Reads `width` bytes at `at`.
fn get_le(bytes: &[u8], at: usize, width: usize) -> (value: u64)
    requires
        width <= 8,
        at + width <= bytes@.len(),
    ensures
        value == le_value(bytes@.subrange(at as int, at + width)),
        value < le_capacity(width as nat),
    decreases width,
{
    let ghost window = bytes@.subrange(at as int, at + width);
    proof {
        lemma_le_value_bound(window);
        reveal_with_fuel(le_capacity, 9);
    }
    if width == 0 {
        return 0;
    }
    assert(bytes.len() == bytes@.len());
    let rest: u64 = get_le(bytes, at + 1, width - 1);
    assert(window.drop_first() =~= bytes@.subrange(at + 1, at + width));
    bytes[at] as u64 + 256 * rest
}

/// The 16-bit number at `at`.
pub fn get_u16(bytes: &[u8], at: usize) -> (value: u16)
    requires
        at + 2 <= bytes@.len(),
    ensures
        value == le_value(bytes@.subrange(at as int, at + 2)),
{
    proof {
        lemma_le_capacities();
    }
    get_le(bytes, at, 2) as u16
}

/// The 32-bit number at `at`.
pub fn get_u32(bytes: &[u8], at: usize) -> (value: u32)
    requires
        at + 4 <= bytes@.len(),
    ensures
        value == le_value(bytes@.subrange(at as int, at + 4)),
{
    proof {
        lemma_le_capacities();
    }
    get_le(bytes, at, 4) as u32
}

/// The 64-bit number at `at`.
pub fn get_u64(bytes: &[u8], at: usize) -> (value: u64)
    requires
        at + 8 <= bytes@.len(),
    ensures
        value == le_value(bytes@.subrange(at as int, at + 8)),
{
    get_le(bytes, at, 8)
}

/// An owned copy of a byte slice.
pub fn copy_bytes(bytes: &[u8]) -> (copy: Vec<u8>)
    ensures
        copy@ == bytes@,
{
    let mut copy: Vec<u8> = Vec::with_capacity(bytes.len());
    copy.extend_from_slice(bytes);
    assert(copy@ =~= bytes@);
    copy
}

/// Appends a byte slice.
pub fn push_bytes(out: &mut Vec<u8>, bytes: &[u8])
    ensures
        final(out)@ == old(out)@ + bytes@,
{
    out.extend_from_slice(bytes);
    assert(out@ =~= old(out)@ + bytes@);
}

/// Whether `bytes` begins with `prefix`.
pub fn starts_with(bytes: &[u8], prefix: &[u8]) -> (found: bool)
    ensures
        found == prefix@.is_prefix_of(bytes@),
{
    if bytes.len() < prefix.len() {
        return false;
    }
    let mut i: usize = 0;
    while i < prefix.len()
        invariant
            i <= prefix@.len() <= bytes@.len(),
            forall|j: int| 0 <= j < i ==> prefix@[j] == bytes@[j],
        decreases prefix@.len() - i,
    {
        if bytes[i] != prefix[i] {
            assert(prefix@[i as int] != bytes@.subrange(0, prefix@.len() as int)[i as int]);
            return false;
        }
        i = i + 1;
    }
    assert(prefix@ =~= bytes@.subrange(0, prefix@.len() as int));
    true
}

/// Whether two byte slices hold the same bytes.
pub fn same_bytes(a: &[u8], b: &[u8]) -> (same: bool)
    ensures
        same == (a@ == b@),
{
    if a.len() != b.len() {
        return false;
    }
    let prefix: bool = starts_with(a, b);
    proof {
        if prefix {
            assert(a@ =~= b@);
        }
    }
    prefix
}

} // verus!
