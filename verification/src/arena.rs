//! The shared payload arena: a bump allocator over a byte region that the
//! daemon maps read-write and its clients map read-only.
//!
//! ```text
//! [u64 next_offset] [u64 wrap_epoch] [zero-padding to 64] [DATA ...]
//! ```
//!
//! `next_offset` moves forward with every slab. A payload that does not fit
//! before the end of the region goes to its start and `wrap_epoch` counts up:
//! a slab is valid until the allocator wraps past it.

use vstd::prelude::*;

use crate::le::{get_u64, le_bytes, le_value, lemma_le_capacities, lemma_le_round_trip, push_u64};
use crate::text::{
    absent, dec, distinct_keys, entry_map, lemma_entry_map, lemma_find_char_is, position_of, push_dec,
};

verus! {

/// Header size in bytes. Cache-line aligned; payload starts at offset 64.
pub const ARENA_HEADER_BYTES: usize = 64;

/// Default arena size.
pub const DEFAULT_ARENA_BYTES: u64 = 1024 * 1024 * 1024;

/// Errors from arena operations.
#[derive(Debug)]
pub enum ArenaError {
    /// I/O error opening / sizing the backing file.
    Io(String),
    /// The slab does not fit even on a fresh wrap.
    PayloadTooLarge { payload: u64, max_slab: u64 },
    /// Read offset + length exceed the arena bounds.
    OutOfBounds { offset: u64, len: u32, arena: u64 },
}

/// The displayed text of an arena error.
pub open spec fn arena_error_text(error: ArenaError) -> Seq<char> {
    match error {
        ArenaError::Io(source) => "arena io: "@ + source@,
        ArenaError::PayloadTooLarge { payload, max_slab } => "arena payload "@ + dec(payload as nat)
            + " > max_slab "@ + dec(max_slab as nat),
        ArenaError::OutOfBounds { offset, len, arena } => "arena read out of bounds: offset="@
            + dec(offset as nat) + " len="@ + dec(len as nat) + " arena_size="@ + dec(arena as nat),
    }
}

impl ArenaError {
    /// The error in words.
    pub fn to_text(&self) -> (text: String)
        ensures
            text@ == arena_error_text(*self),
    {
        let mut text = String::new();
        match self {
            ArenaError::Io(source) => {
                text.push_str("arena io: ");
                text.push_str(source);
            },
            ArenaError::PayloadTooLarge { payload, max_slab } => {
                text.push_str("arena payload ");
                push_dec(&mut text, *payload as u128);
                text.push_str(" > max_slab ");
                push_dec(&mut text, *max_slab as u128);
            },
            ArenaError::OutOfBounds { offset, len, arena } => {
                text.push_str("arena read out of bounds: offset=");
                push_dec(&mut text, *offset as u128);
                text.push_str(" len=");
                push_dec(&mut text, *len as u128);
                text.push_str(" arena_size=");
                push_dec(&mut text, *arena as u128);
            },
        }
        assert(text@ =~= arena_error_text(*self));
        text
    }
}

/// The offset at which the next slab starts.
pub open spec fn next_offset_of(region: Seq<u8>) -> nat {
    le_value(region.subrange(0, 8))
}

/// How often the allocator has wrapped.
pub open spec fn wrap_epoch_of(region: Seq<u8>) -> nat {
    le_value(region.subrange(8, 16))
}

/// Whether a region is an arena: it is larger than its header, and the next
/// slab starts behind the header and not behind the end.
pub open spec fn arena_ok(region: Seq<u8>) -> bool {
    ARENA_HEADER_BYTES < region.len() <= u64::MAX && ARENA_HEADER_BYTES <= next_offset_of(region)
        <= region.len()
}

/// A region with `bytes` written at `at`.
pub open spec fn written(region: Seq<u8>, at: int, bytes: Seq<u8>) -> Seq<u8> {
    region.take(at) + bytes + region.skip(at + bytes.len())
}

/// Whether a payload of `len` bytes has to wrap.
pub open spec fn wraps(region: Seq<u8>, len: nat) -> bool {
    next_offset_of(region) + len > region.len()
}

/// Where a payload of `len` bytes goes.
pub open spec fn slab_start(region: Seq<u8>, len: nat) -> nat {
    if wraps(region, len) {
        ARENA_HEADER_BYTES as nat
    } else {
        next_offset_of(region)
    }
}

/// Whether the epoch can count up where a payload of `len` bytes makes it.
pub open spec fn epoch_has_room(region: Seq<u8>, len: nat) -> bool {
    len <= region.len() - ARENA_HEADER_BYTES && wraps(region, len) ==> wrap_epoch_of(region)
        < u64::MAX
}

/// The region after a payload was written: the slab holds it, the next offset
/// lies behind it, and a wrap counts up the epoch.
pub open spec fn with_payload(region: Seq<u8>, bytes: Seq<u8>) -> Seq<u8> {
    let start = slab_start(region, bytes.len());
    let copied = written(region, start as int, bytes);
    let moved = written(copied, 0, le_bytes(start + bytes.len(), 8));
    if wraps(region, bytes.len()) {
        written(moved, 8, le_bytes(wrap_epoch_of(region) + 1, 8))
    } else {
        moved
    }
}

/// Copies bytes into a region.
fn write_at(region: &mut [u8], at: usize, bytes: &[u8])
    requires
        at + bytes@.len() <= old(region)@.len(),
    ensures
        final(region)@ == written(old(region)@, at as int, bytes@),
{
    assert(region.len() == region@.len());
    let mut i: usize = 0;
    while i < bytes.len()
        invariant
            i <= bytes@.len(),
            at + bytes@.len() <= old(region)@.len() <= usize::MAX,
            region@.len() == old(region)@.len(),
            forall|j: int| 0 <= j < i ==> region@[at + j] == bytes@[j],
            forall|j: int|
                0 <= j < region@.len() && !(at <= j < at + i) ==> region@[j] == old(region)@[j],
        decreases bytes@.len() - i,
    {
        region[at + i] = bytes[i];
        i = i + 1;
    }
    proof {
        let goal = written(old(region)@, at as int, bytes@);
        assert forall|j: int| 0 <= j < goal.len() implies region@[j] == goal[j] by {
            if at <= j < at + bytes@.len() {
                assert(region@[at + (j - at)] == bytes@[j - at]);
            }
        }
        assert(region@ =~= goal);
    }
}

/// Mutable view of the arena. One per daemon process; the region that it
/// writes is handed to each call.
#[derive(Debug)]
pub struct ArenaWriter {
    size: u64,
}

impl ArenaWriter {
    /// The region size that this writer was made for.
    pub closed spec fn spec_size(&self) -> nat {
        self.size as nat
    }

    /// Whether a region is this writer's arena.
    pub open spec fn owns(&self, region: Seq<u8>) -> bool {
        arena_ok(region) && region.len() == self.spec_size()
    }

    /// Reset the header of a region and start allocating behind it.
    pub fn create(region: &mut [u8]) -> (writer: ArenaWriter)
        requires
            old(region)@.len() > ARENA_HEADER_BYTES,
        ensures
            writer.owns(final(region)@),
            final(region)@ == le_bytes(ARENA_HEADER_BYTES as nat, 8) + Seq::new(56, |i: int| 0u8)
                + old(region)@.skip(64),
            next_offset_of(final(region)@) == ARENA_HEADER_BYTES,
            wrap_epoch_of(final(region)@) == 0,
    {
        let mut header: Vec<u8> = Vec::new();
        push_u64(&mut header, ARENA_HEADER_BYTES as u64);
        proof {
            lemma_le_capacities();
            lemma_le_round_trip(64, 8);
            lemma_le_round_trip(0, 8);
            lemma_le_zero(8);
        }
        let ghost first = header@;
        while header.len() < 64
            invariant
                8 <= header@.len() <= 64,
                first.len() == 8,
                header@ == first + Seq::new((header@.len() - 8) as nat, |i: int| 0u8),
            decreases 64 - header@.len(),
        {
            header.push(0);
            assert(header@ =~= first + Seq::new((header@.len() - 8) as nat, |i: int| 0u8));
        }
        write_at(region, 0, &header);
        proof {
            let goal = first + Seq::new(56, |i: int| 0u8) + old(region)@.skip(64);
            assert(region@ =~= goal);
            assert(region@.subrange(0, 8) =~= first);
            assert(region@.subrange(8, 16) =~= le_bytes(0, 8));
        }
        ArenaWriter { size: region.len() as u64 }
    }

    /// Bump-allocate a slab and copy `bytes` into it.
    ///
    /// Returns `(offset, len)` where the bytes live in the arena; `len` keeps
    /// the 32 low-order bits of the length.
    pub fn write_payload(&self, region: &mut [u8], bytes: &[u8]) -> (slab: Result<
        (u64, u32),
        ArenaError,
    >)
        requires
            self.owns(old(region)@),
            epoch_has_room(old(region)@, bytes@.len()),
        ensures
            self.owns(final(region)@),
            bytes@.len() > self.spec_size() - ARENA_HEADER_BYTES ==> {
                &&& slab == Err::<(u64, u32), ArenaError>(
                    ArenaError::PayloadTooLarge {
                        payload: bytes@.len() as u64,
                        max_slab: (self.spec_size() - ARENA_HEADER_BYTES) as u64,
                    },
                )
                &&& final(region)@ == old(region)@
            },
            bytes@.len() <= self.spec_size() - ARENA_HEADER_BYTES ==> {
                &&& slab matches Ok((offset, len))
                &&& offset == slab_start(old(region)@, bytes@.len())
                &&& len == bytes@.len() % 0x1_0000_0000
                &&& final(region)@ == with_payload(old(region)@, bytes@)
            },
    {
        let total: u64 = region.len() as u64;
        let len: u64 = bytes.len() as u64;
        let max_slab: u64 = self.size - ARENA_HEADER_BYTES as u64;
        if len > max_slab {
            return Err(ArenaError::PayloadTooLarge { payload: len, max_slab });
        }
        let ghost before = region@;
        let next: u64 = get_u64(region, 0);
        let did_wrap: bool = len > total - next;
        let start: u64 = if did_wrap {
            ARENA_HEADER_BYTES as u64
        } else {
            next
        };
        write_at(region, start as usize, bytes);
        let mut next_bytes: Vec<u8> = Vec::new();
        push_u64(&mut next_bytes, start + len);
        assert(next_bytes@ =~= le_bytes((start + len) as nat, 8));
        proof {
            lemma_le_capacities();
            lemma_le_round_trip((start + len) as nat, 8);
        }
        write_at(region, 0, &next_bytes);
        if did_wrap {
            let ghost moved = region@;
            let epoch: u64 = get_u64(region, 8);
            assert(moved.subrange(8, 16) =~= before.subrange(8, 16));
            let mut epoch_bytes: Vec<u8> = Vec::new();
            push_u64(&mut epoch_bytes, epoch + 1);
            assert(epoch_bytes@ =~= le_bytes((epoch + 1) as nat, 8));
            proof {
                lemma_le_round_trip((epoch + 1) as nat, 8);
            }
            write_at(region, 8, &epoch_bytes);
        }
        proof {
            arena_header_after_write(before, bytes@);
        }
        Ok((start, (len % 0x1_0000_0000) as u32))
    }

    /// Total size including header.
    pub fn size(&self) -> (size: u64)
        ensures
            size == self.spec_size(),
    {
        self.size
    }

    /// Current `next_offset`.
    pub fn next_offset(&self, region: &[u8]) -> (offset: u64)
        requires
            self.owns(region@),
        ensures
            offset == next_offset_of(region@),
    {
        get_u64(region, 0)
    }

    /// Current `wrap_epoch`.
    pub fn wrap_epoch(&self, region: &[u8]) -> (epoch: u64)
        requires
            self.owns(region@),
        ensures
            epoch == wrap_epoch_of(region@),
    {
        get_u64(region, 8)
    }
}

/// Zero is encoded as zeros.
proof fn lemma_le_zero(width: nat)
    ensures
        le_bytes(0, width) == Seq::new(width, |i: int| 0u8),
    decreases width,
{
    if width > 0 {
        lemma_le_zero((width - 1) as nat);
    }
    assert(le_bytes(0, width) =~= Seq::new(width, |i: int| 0u8));
}

/// After a write the arena is still one, its next offset lies behind the slab,
/// and the epoch has counted up if the write wrapped and is unchanged if not.
pub proof fn arena_header_after_write(region: Seq<u8>, bytes: Seq<u8>)
    requires
        arena_ok(region),
        bytes.len() <= region.len() - ARENA_HEADER_BYTES,
        epoch_has_room(region, bytes.len()),
    ensures
        arena_ok(with_payload(region, bytes)),
        with_payload(region, bytes).len() == region.len(),
        next_offset_of(with_payload(region, bytes)) == slab_start(region, bytes.len())
            + bytes.len(),
        wrap_epoch_of(with_payload(region, bytes)) == wrap_epoch_of(region) + if wraps(
            region,
            bytes.len(),
        ) {
            1int
        } else {
            0int
        },
{
    let start = slab_start(region, bytes.len());
    let copied = written(region, start as int, bytes);
    let next = le_bytes(start + bytes.len(), 8);
    let moved = written(copied, 0, next);
    let after = with_payload(region, bytes);
    lemma_le_capacities();
    lemma_le_round_trip(start + bytes.len(), 8);
    if wraps(region, bytes.len()) {
        lemma_le_round_trip(wrap_epoch_of(region) + 1, 8);
        assert(after.subrange(0, 8) =~= next);
        assert(after.subrange(8, 16) =~= le_bytes(wrap_epoch_of(region) + 1, 8));
    } else {
        assert(after.subrange(0, 8) =~= next);
        assert(after.subrange(8, 16) =~= region.subrange(8, 16));
    }
}

/// What was written to a slab is what the region holds there.
pub proof fn arena_read_back(region: Seq<u8>, bytes: Seq<u8>)
    requires
        arena_ok(region),
        bytes.len() <= region.len() - ARENA_HEADER_BYTES,
        epoch_has_room(region, bytes.len()),
    ensures
        ({
            let start = slab_start(region, bytes.len()) as int;
            with_payload(region, bytes).subrange(start, start + bytes.len()) == bytes
        }),
{
    let start = slab_start(region, bytes.len()) as int;
    lemma_le_capacities();
    lemma_le_round_trip((start + bytes.len()) as nat, 8);
    if wraps(region, bytes.len()) {
        lemma_le_round_trip(wrap_epoch_of(region) + 1, 8);
    }
    assert(with_payload(region, bytes).subrange(start, start + bytes.len()) =~= bytes);
}

/// A write that does not wrap leaves every earlier slab as it was.
pub proof fn arena_keeps_earlier_slabs(region: Seq<u8>, bytes: Seq<u8>, offset: int, len: int)
    requires
        arena_ok(region),
        !wraps(region, bytes.len()),
        ARENA_HEADER_BYTES <= offset,
        0 <= len,
        offset + len <= next_offset_of(region),
    ensures
        with_payload(region, bytes).subrange(offset, offset + len) == region.subrange(
            offset,
            offset + len,
        ),
{
    let start = slab_start(region, bytes.len());
    lemma_le_capacities();
    lemma_le_round_trip(start + bytes.len(), 8);
    assert(with_payload(region, bytes).subrange(offset, offset + len) =~= region.subrange(
        offset,
        offset + len,
    ));
}

/// Read-only view of the arena. One per client process; the region that it
/// reads is handed to each call.
#[derive(Debug)]
pub struct ArenaReader {
    size: u64,
}

impl ArenaReader {
    /// The region size that this reader was made for.
    pub closed spec fn spec_size(&self) -> nat {
        self.size as nat
    }

    /// Read an existing region.
    pub fn open(region: &[u8]) -> (reader: ArenaReader)
        ensures
            reader.spec_size() == region@.len(),
    {
        ArenaReader { size: region.len() as u64 }
    }

    /// Borrow the bytes at `offset..offset+len` from the arena. A range whose
    /// end no 64-bit number can hold is out of bounds too.
    pub fn read_payload<'a>(&self, region: &'a [u8], offset: u64, len: u32) -> (slab: Result<
        &'a [u8],
        ArenaError,
    >)
        requires
            region@.len() == self.spec_size(),
        ensures
            offset < ARENA_HEADER_BYTES || offset + len > self.spec_size() ==> slab == Err::<
                &[u8],
                ArenaError,
            >(ArenaError::OutOfBounds { offset, len, arena: self.spec_size() as u64 }),
            ARENA_HEADER_BYTES <= offset && offset + len <= self.spec_size() ==> (slab matches Ok(
                bytes,
            ) && bytes@ == region@.subrange(offset as int, offset + len)),
    {
        assert(region.len() == region@.len());
        let end: u64 = match offset.checked_add(len as u64) {
            Some(end) => end,
            None => {
                return Err(ArenaError::OutOfBounds { offset, len, arena: self.size });
            },
        };
        if end > self.size || offset < ARENA_HEADER_BYTES as u64 {
            return Err(ArenaError::OutOfBounds { offset, len, arena: self.size });
        }
        Ok(&region[offset as usize..end as usize])
    }

    /// Total size including header.
    pub fn size(&self) -> (size: u64)
        ensures
            size == self.spec_size(),
    {
        self.size
    }

    /// Current `wrap_epoch` from the arena header.
    pub fn wrap_epoch(&self, region: &[u8]) -> (epoch: u64)
        requires
            region@.len() >= 16,
        ensures
            epoch == wrap_epoch_of(region@),
    {
        get_u64(region, 8)
    }
}

/// Compose the standard arena file path for a given prefix.
pub fn arena_path(prefix: &str) -> (path: String)
    ensures
        path@ == "/tmp/wombatkv-arena-"@ + prefix@ + ".bin"@,
{
    let mut path = String::new();
    path.push_str("/tmp/wombatkv-arena-");
    path.push_str(prefix);
    path.push_str(".bin");
    assert(path@ =~= "/tmp/wombatkv-arena-"@ + prefix@ + ".bin"@);
    path
}

// ---- remembered slabs ----

/// Where a value lies in the arena and which tier it came from.
#[derive(Debug, Clone, Copy)]
pub struct ArenaSlab {
    pub offset: u64,
    pub len: u32,
    pub tier: u8,
}

/// The daemon's arena: the writer, the slabs it remembers by key, and the
/// smallest payload that goes into the arena.
#[derive(Debug)]
pub struct ArenaShared {
    pub writer: ArenaWriter,
    pub slabs: Vec<(String, ArenaSlab)>,
    pub min_bytes: usize,
}

/// The key under which a slab is remembered.
pub open spec fn arena_key_text(namespace: Seq<char>, key: Seq<char>) -> Seq<char> {
    namespace + seq!['\0'] + key
}

/// The key under which a slab is remembered: namespace and key with a NUL
/// between them.
pub fn arena_key(namespace: &str, key: &str) -> (text: String)
    ensures
        text@ == arena_key_text(namespace@, key@),
{
    let mut text = String::new();
    text.push_str(namespace);
    text.push('\0');
    text.push_str(key);
    assert(text@ =~= arena_key_text(namespace@, key@));
    text
}

/// Whether a slab lies between the header and the next offset of a region.
pub open spec fn slab_live(slab: ArenaSlab, region: Seq<u8>) -> bool {
    ARENA_HEADER_BYTES <= slab.offset && slab.offset + slab.len <= next_offset_of(region)
}

/// The bytes of a slab.
pub open spec fn slab_bytes(slab: ArenaSlab, region: Seq<u8>) -> Seq<u8> {
    region.subrange(slab.offset as int, slab.offset + slab.len)
}

impl ArenaShared {
    /// The remembered slabs by key.
    pub open spec fn slab_map(&self) -> Map<Seq<char>, ArenaSlab> {
        entry_map(self.slabs@)
    }

    /// Whether this is the arena over a region: keys are distinct, and every
    /// remembered slab lies in the part that was written since the last wrap.
    pub open spec fn well_formed(&self, region: Seq<u8>) -> bool {
        &&& self.writer.owns(region)
        &&& distinct_keys(self.slabs@)
        &&& forall|i: int|
            0 <= i < self.slabs@.len() ==> slab_live((#[trigger] self.slabs@[i]).1, region)
    }

    /// An arena that remembers nothing yet.
    pub fn new(writer: ArenaWriter, min_bytes: usize) -> (shared: ArenaShared)
        ensures
            shared.writer == writer,
            shared.min_bytes == min_bytes,
            shared.slab_map() == Map::<Seq<char>, ArenaSlab>::empty(),
            forall|region: Seq<u8>| #[trigger]
                writer.owns(region) ==> shared.well_formed(region),
    {
        let slabs: Vec<(String, ArenaSlab)> = Vec::new();
        ArenaShared { writer, slabs, min_bytes }
    }

    /// The slab remembered for a key.
    pub fn lookup_arena_slab(&self, namespace: &str, key: &str) -> (slab: Option<ArenaSlab>)
        requires
            distinct_keys(self.slabs@),
        ensures
            match slab {
                Some(s) => self.slab_map().dom().contains(arena_key_text(namespace@, key@))
                    && self.slab_map()[arena_key_text(namespace@, key@)] == s,
                None => !self.slab_map().dom().contains(arena_key_text(namespace@, key@)),
            },
    {
        proof {
            lemma_entry_map(self.slabs@);
        }
        let name = arena_key(namespace, key);
        match position_of(&self.slabs, &name) {
            Some(i) => Some(self.slabs[i].1),
            None => None,
        }
    }

    /// Forget every slab.
    pub fn clear(&mut self)
        ensures
            final(self).slab_map() == Map::<Seq<char>, ArenaSlab>::empty(),
            final(self).slabs@ == Seq::<(String, ArenaSlab)>::empty(),
            final(self).writer == old(self).writer,
            final(self).min_bytes == old(self).min_bytes,
            forall|region: Seq<u8>| #[trigger]
                old(self).writer.owns(region) ==> final(self).well_formed(region),
    {
        self.slabs.clear();
    }

    /// Write a payload that is large enough for the arena. A wrap forgets all
    /// slabs, since it may overwrite them; without a wrap every remembered slab
    /// keeps its bytes.
    pub fn write_arena_payload(&mut self, region: &mut [u8], bytes: &[u8], tier: u8) -> (slab:
        Result<Option<ArenaSlab>, ArenaError>)
        requires
            old(self).well_formed(old(region)@),
            bytes@.len() >= old(self).min_bytes ==> epoch_has_room(old(region)@, bytes@.len()),
        ensures
            final(self).well_formed(final(region)@),
            final(self).min_bytes == old(self).min_bytes,
            final(self).writer == old(self).writer,
            bytes@.len() < old(self).min_bytes ==> {
                &&& slab == Ok::<Option<ArenaSlab>, ArenaError>(None)
                &&& final(region)@ == old(region)@
                &&& final(self).slabs@ == old(self).slabs@
            },
            bytes@.len() >= old(self).min_bytes && bytes@.len() > old(region)@.len()
                - ARENA_HEADER_BYTES ==> {
                &&& slab == Err::<Option<ArenaSlab>, ArenaError>(
                    ArenaError::PayloadTooLarge {
                        payload: bytes@.len() as u64,
                        max_slab: (old(region)@.len() - ARENA_HEADER_BYTES) as u64,
                    },
                )
                &&& final(region)@ == old(region)@
                &&& final(self).slabs@ == old(self).slabs@
            },
            bytes@.len() >= old(self).min_bytes && bytes@.len() <= old(region)@.len()
                - ARENA_HEADER_BYTES ==> {
                &&& slab matches Ok(Some(s))
                &&& s.offset == slab_start(old(region)@, bytes@.len())
                &&& s.len == bytes@.len() % 0x1_0000_0000
                &&& s.tier == tier
                &&& slab_live(s, final(region)@)
                &&& final(region)@ == with_payload(old(region)@, bytes@)
                &&& final(self).slabs@ == if wraps(old(region)@, bytes@.len()) {
                    Seq::<(String, ArenaSlab)>::empty()
                } else {
                    old(self).slabs@
                }
            },
    {
        if bytes.len() < self.min_bytes {
            return Ok(None);
        }
        let ghost before = region@;
        let prev_epoch: u64 = self.writer.wrap_epoch(region);
        match self.writer.write_payload(region, bytes) {
            Err(error) => Err(error),
            Ok((offset, len)) => {
                proof {
                    arena_header_after_write(before, bytes@);
                }
                if self.writer.wrap_epoch(region) != prev_epoch {
                    self.slabs.clear();
                }
                Ok(Some(ArenaSlab { offset, len, tier }))
            },
        }
    }

    /// Write a payload and remember its slab under a key.
    pub fn remember_arena_slab(
        &mut self,
        region: &mut [u8],
        namespace: &str,
        key: &str,
        bytes: &[u8],
        tier: u8,
    ) -> (slab: Result<Option<ArenaSlab>, ArenaError>)
        requires
            old(self).well_formed(old(region)@),
            bytes@.len() >= old(self).min_bytes ==> epoch_has_room(old(region)@, bytes@.len()),
        ensures
            final(self).well_formed(final(region)@),
            final(self).min_bytes == old(self).min_bytes,
            final(self).writer == old(self).writer,
            bytes@.len() < old(self).min_bytes ==> {
                &&& slab == Ok::<Option<ArenaSlab>, ArenaError>(None)
                &&& final(region)@ == old(region)@
                &&& final(self).slab_map() == old(self).slab_map()
            },
            bytes@.len() >= old(self).min_bytes && bytes@.len() > old(region)@.len()
                - ARENA_HEADER_BYTES ==> {
                &&& slab == Err::<Option<ArenaSlab>, ArenaError>(
                    ArenaError::PayloadTooLarge {
                        payload: bytes@.len() as u64,
                        max_slab: (old(region)@.len() - ARENA_HEADER_BYTES) as u64,
                    },
                )
                &&& final(region)@ == old(region)@
                &&& final(self).slab_map() == old(self).slab_map()
            },
            bytes@.len() >= old(self).min_bytes && bytes@.len() <= old(region)@.len()
                - ARENA_HEADER_BYTES ==> {
                &&& slab matches Ok(Some(s))
                &&& s.offset == slab_start(old(region)@, bytes@.len())
                &&& s.len == bytes@.len() % 0x1_0000_0000
                &&& s.tier == tier
                &&& final(region)@ == with_payload(old(region)@, bytes@)
                &&& final(self).slab_map() == (if wraps(old(region)@, bytes@.len()) {
                    Map::<Seq<char>, ArenaSlab>::empty()
                } else {
                    old(self).slab_map()
                }).insert(arena_key_text(namespace@, key@), s)
            },
    {
        let written = self.write_arena_payload(region, bytes, tier);
        match written {
            Ok(Some(slab)) => {
                let name = arena_key(namespace, key);
                let ghost before = self.slabs@;
                assert(entry_map(Seq::<(String, ArenaSlab)>::empty()) == Map::<
                    Seq<char>,
                    ArenaSlab,
                >::empty());
                assert(entry_map(before) == if wraps(old(region)@, bytes@.len()) {
                    Map::<Seq<char>, ArenaSlab>::empty()
                } else {
                    old(self).slab_map()
                });
                match position_of(&self.slabs, &name) {
                    Some(i) => {
                        self.slabs.set(i, (name, slab));
                        proof {
                            lemma_entry_map_set(before, i as int, self.slabs@);
                        }
                    },
                    None => {
                        self.slabs.push((name, slab));
                        assert(self.slabs@.drop_last() =~= before);
                        assert(entry_map(self.slabs@) == entry_map(before).insert(
                            arena_key_text(namespace@, key@),
                            slab,
                        ));
                    },
                }
                Ok(Some(slab))
            },
            other => other,
        }
    }
}

/// A write that does not wrap leaves the bytes of every remembered slab as they
/// were.
pub proof fn remembered_slabs_keep_bytes(shared: ArenaShared, region: Seq<u8>, bytes: Seq<u8>)
    requires
        shared.well_formed(region),
        !wraps(region, bytes.len()),
    ensures
        forall|i: int|
            0 <= i < shared.slabs@.len() ==> slab_bytes(
                (#[trigger] shared.slabs@[i]).1,
                with_payload(region, bytes),
            ) == slab_bytes(shared.slabs@[i].1, region),
{
    assert forall|i: int| 0 <= i < shared.slabs@.len() implies slab_bytes(
        (#[trigger] shared.slabs@[i]).1,
        with_payload(region, bytes),
    ) == slab_bytes(shared.slabs@[i].1, region) by {
        let slab = shared.slabs@[i].1;
        arena_keeps_earlier_slabs(region, bytes, slab.offset as int, slab.len as int);
    }
}

/// A payload that fits behind the last one goes there, and the epoch stays; any other
/// goes to the start of the data, and the epoch counts up.
pub proof fn payload_goes_behind_the_last(region: Seq<u8>, bytes: Seq<u8>)
    requires
        arena_ok(region),
        bytes.len() <= region.len() - ARENA_HEADER_BYTES,
        epoch_has_room(region, bytes.len()),
    ensures
        le_value(region.subrange(0, 8)) + bytes.len() <= region.len() ==> slab_start(
            region,
            bytes.len(),
        ) == le_value(region.subrange(0, 8)) && le_value(
            with_payload(region, bytes).subrange(8, 16),
        ) == le_value(region.subrange(8, 16)),
        le_value(region.subrange(0, 8)) + bytes.len() > region.len() ==> slab_start(
            region,
            bytes.len(),
        ) == 64 && le_value(with_payload(region, bytes).subrange(8, 16)) == le_value(
            region.subrange(8, 16),
        ) + 1,
        le_value(with_payload(region, bytes).subrange(0, 8)) == slab_start(region, bytes.len())
            + bytes.len(),
{
    arena_header_after_write(region, bytes);
}

/// Slabs are remembered apart: two keys of namespaces without a NUL have one name only
/// where namespace and key are the same.
pub proof fn arena_keys_are_apart(
    namespace: Seq<char>,
    key: Seq<char>,
    other_namespace: Seq<char>,
    other_key: Seq<char>,
)
    requires
        absent(namespace, '\0'),
        absent(other_namespace, '\0'),
        arena_key_text(namespace, key) == arena_key_text(other_namespace, other_key),
    ensures
        namespace == other_namespace,
        key == other_key,
{
    let whole = arena_key_text(namespace, key);
    assert forall|i: int| 0 <= i < namespace.len() implies #[trigger] whole[i] != '\0' by {
        assert(whole[i] == namespace[i]);
    }
    assert forall|i: int| 0 <= i < other_namespace.len() implies #[trigger] whole[i] != '\0' by {
        assert(whole[i] == other_namespace[i]);
    }
    lemma_find_char_is(whole, '\0', namespace.len() as int);
    lemma_find_char_is(whole, '\0', other_namespace.len() as int);
    assert(whole.take(namespace.len() as int) =~= namespace);
    assert(whole.take(namespace.len() as int) =~= other_namespace);
    assert(whole.skip(namespace.len() as int + 1) =~= key);
    assert(whole.skip(namespace.len() as int + 1) =~= other_key);
}

/// Replacing the value of an entry changes the map at its key.
proof fn lemma_entry_map_set(
    before: Seq<(String, ArenaSlab)>,
    i: int,
    after: Seq<(String, ArenaSlab)>,
)
    requires
        0 <= i < before.len(),
        distinct_keys(before),
        after.len() == before.len(),
        forall|j: int| 0 <= j < before.len() && j != i ==> after[j] == before[j],
        after[i].0@ == before[i].0@,
    ensures
        distinct_keys(after),
        entry_map(after) == entry_map(before).insert(before[i].0@, after[i].1),
    decreases before.len(),
{
    assert forall|j: int, k: int| 0 <= j < k < after.len() implies (#[trigger] after[j]).0@ != (
    #[trigger] after[k]).0@ by {
        assert(before[j].0@ != before[k].0@);
    }
    let old_short = before.drop_last();
    let new_short = after.drop_last();
    if i == before.len() - 1 {
        assert(old_short =~= new_short);
        assert(entry_map(after) =~= entry_map(before).insert(before[i].0@, after[i].1));
    } else {
        lemma_entry_map_set(old_short, i, new_short);
        assert(before[i].0@ != before.last().0@);
        assert(after.last() == before.last());
        assert(entry_map(after) =~= entry_map(before).insert(before[i].0@, after[i].1));
    }
}

} // verus!
