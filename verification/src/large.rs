//! Large payloads: values that do not fit one frame are stored as chunk objects
//! behind a small manifest.

use vstd::prelude::*;
use vstd::utf8::{decode_utf8, encode_utf8, encode_utf8_decode_utf8, valid_utf8};

use crate::le::{le_bytes, lemma_le_bytes_len, push_bytes, push_u64};
use crate::text::{
    absent, chars_of, dec, dec_padded, is_digit, lemma_dec_digits, lemma_dec_parses,
    lemma_find_char_is, lemma_first_line, lemma_padded_value, lines_of, parse_uint, parsed_uint,
    push_dec, push_dec_padded, same_chars, split_lines, strip_cr, text_of, utf8_text,
};
use crate::wire::FRAME_DATA_BYTES;

verus! {

/// Payload bytes per chunk object: a frame less room for its envelope.
pub const LARGE_CHUNK_BYTES: usize = FRAME_DATA_BYTES - 4096;

/// What a manifest says: the payload's id, its length, and its chunk count.
#[derive(Debug, Clone)]
pub struct LargeManifest {
    pub id: String,
    pub total_len: usize,
    pub chunk_count: usize,
}

/// The contents of a [`LargeManifest`].
pub struct ManifestFields {
    pub id: Seq<char>,
    pub total_len: nat,
    pub chunk_count: nat,
}

impl View for LargeManifest {
    type V = ManifestFields;

    open spec fn view(&self) -> ManifestFields {
        ManifestFields {
            id: self.id@,
            total_len: self.total_len as nat,
            chunk_count: self.chunk_count as nat,
        }
    }
}

/// The 64 lower-case hexadecimal digits of the BLAKE3 hash of a byte sequence.
pub uninterp spec fn blake3_hex_of(bytes: Seq<u8>) -> Seq<char>;

/// `blake3::hash` and `Hash::to_hex`: the hash of a slice in lower-case
/// hexadecimal, 64 digits that depend on the bytes alone.
#[verifier::external_body]
fn blake3_hex(bytes: &[u8]) -> (hex: String)
    ensures
        hex@ == blake3_hex_of(bytes@),
        hex@.len() == 64,
        forall|i: int|
            0 <= i < 64 ==> (is_digit(#[trigger] hex@[i]) || ('a' <= hex@[i] && hex@[i] <= 'f')),
{
    blake3::hash(bytes).to_hex().to_string()
}

/// What is hashed for a payload's id: a tag, the namespace, the key, the
/// payload's length and the payload, with NUL bytes between the texts.
pub open spec fn id_input(namespace: Seq<char>, key: Seq<char>, payload: Seq<u8>) -> Seq<u8> {
    encode_utf8("wombatkv-shm-large-v1"@) + seq![0u8] + encode_utf8(namespace) + seq![0u8]
        + encode_utf8(key) + seq![0u8] + le_bytes(payload.len(), 8) + payload
}

/// The id of a large payload.
pub fn large_payload_id(namespace: &str, key: &str, payload: &[u8]) -> (id: String)
    ensures
        id@ == blake3_hex_of(id_input(namespace@, key@, payload@)),
        id@.len() == 64,
        forall|i: int|
            0 <= i < 64 ==> (is_digit(#[trigger] id@[i]) || ('a' <= id@[i] && id@[i] <= 'f')),
{
    let mut input: Vec<u8> = Vec::new();
    push_bytes(&mut input, "wombatkv-shm-large-v1".as_bytes());
    input.push(0);
    push_bytes(&mut input, namespace.as_bytes());
    input.push(0);
    push_bytes(&mut input, key.as_bytes());
    input.push(0);
    push_u64(&mut input, payload.len() as u64);
    push_bytes(&mut input, payload);
    assert(input@ =~= id_input(namespace@, key@, payload@));
    blake3_hex(&input)
}

/// The key of a chunk object.
pub open spec fn chunk_key_text(id: Seq<char>, idx: nat) -> Seq<char> {
    "__wmbt_kv_shm_large"@ + "/"@ + id + "/"@ + dec_padded(idx, 8)
}

/// The key of the chunk object with the given index.
pub fn large_chunk_key(id: &str, idx: usize) -> (key: String)
    ensures
        key@ == chunk_key_text(id@, idx as nat),
{
    let mut key = String::new();
    key.push_str("__wmbt_kv_shm_large");
    key.push_str("/");
    key.push_str(id);
    key.push_str("/");
    push_dec_padded(&mut key, idx as u128, 8);
    assert(key@ =~= chunk_key_text(id@, idx as nat));
    key
}

/// The text of a manifest: four lines.
pub open spec fn manifest_text(manifest: ManifestFields) -> Seq<char> {
    "WMBT_KV_SHM_LARGE_V1"@ + seq!['\n'] + (manifest.id + seq!['\n'] + (dec(manifest.total_len)
        + seq!['\n'] + (dec(manifest.chunk_count) + seq!['\n'] + Seq::<char>::empty())))
}

/// The manifest of a stored payload.
pub fn large_manifest(id: &str, total_len: usize, chunk_count: usize) -> (text: String)
    ensures
        text@ == manifest_text(
            ManifestFields {
                id: id@,
                total_len: total_len as nat,
                chunk_count: chunk_count as nat,
            },
        ),
{
    let mut text = String::new();
    text.push_str("WMBT_KV_SHM_LARGE_V1");
    text.push('\n');
    text.push_str(id);
    text.push('\n');
    push_dec(&mut text, total_len as u128);
    text.push('\n');
    push_dec(&mut text, chunk_count as u128);
    text.push('\n');
    assert(text@ =~= manifest_text(
        ManifestFields { id: id@, total_len: total_len as nat, chunk_count: chunk_count as nat },
    ));
    text
}

/// The manifest that a payload is, if it is one: UTF-8 whose first line is the
/// magic, then an id, a length and a count. Further lines are ignored.
pub open spec fn manifest_parsed(payload: Seq<u8>) -> Option<ManifestFields> {
    if !valid_utf8(payload) {
        None
    } else {
        let lines = lines_of(decode_utf8(payload));
        if lines.len() < 4 || lines[0] != "WMBT_KV_SHM_LARGE_V1"@ {
            None
        } else {
            match (
                parsed_uint(lines[2], usize::MAX as nat),
                parsed_uint(lines[3], usize::MAX as nat),
            ) {
                (Some(total_len), Some(chunk_count)) => Some(
                    ManifestFields { id: lines[1], total_len, chunk_count },
                ),
                _ => None,
            }
        }
    }
}

/// Recognize a manifest among payloads.
pub fn parse_large_manifest(payload: &[u8]) -> (manifest: Option<LargeManifest>)
    ensures
        match manifest {
            Some(m) => manifest_parsed(payload@) == Some(m@),
            None => manifest_parsed(payload@) is None,
        },
{
    let text = match utf8_text(payload) {
        Ok(text) => text,
        Err(_) => {
            return None;
        },
    };
    let chars = chars_of(&text);
    let lines = split_lines(&chars);
    if lines.len() < 4 {
        assert(lines_of(text@).len() < 4);
        return None;
    }
    let magic = chars_of("WMBT_KV_SHM_LARGE_V1");
    assert(lines_of(text@)[0] == lines@[0]@);
    assert(lines_of(text@)[1] == lines@[1]@);
    assert(lines_of(text@)[2] == lines@[2]@);
    assert(lines_of(text@)[3] == lines@[3]@);
    if !same_chars(&lines[0], &magic) {
        return None;
    }
    let total_len: usize = match parse_uint(&lines[2], usize::MAX as u128) {
        Some(n) => n as usize,
        None => {
            return None;
        },
    };
    let chunk_count: usize = match parse_uint(&lines[3], usize::MAX as u128) {
        Some(n) => n as usize,
        None => {
            return None;
        },
    };
    Some(LargeManifest { id: text_of(&lines[1]), total_len, chunk_count })
}

/// A manifest parses as itself, if its id is one line.
pub proof fn manifest_round_trip(manifest: ManifestFields)
    requires
        forall|i: int| 0 <= i < manifest.id.len() ==> #[trigger] manifest.id[i] != '\n',
        manifest.id.len() > 0 ==> manifest.id.last() != '\r',
        manifest.total_len <= usize::MAX,
        manifest.chunk_count <= usize::MAX,
    ensures
        manifest_parsed(encode_utf8(manifest_text(manifest))) == Some(manifest),
{
    let text = manifest_text(manifest);
    vstd::utf8::encode_utf8_valid_utf8(text);
    vstd::utf8::encode_utf8_decode_utf8(text);
    let magic = "WMBT_KV_SHM_LARGE_V1"@;
    reveal_strlit("WMBT_KV_SHM_LARGE_V1");
    let len = dec(manifest.total_len);
    let count = dec(manifest.chunk_count);
    let last = count + seq!['\n'] + Seq::<char>::empty();
    let third = len + seq!['\n'] + last;
    let second = manifest.id + seq!['\n'] + third;
    lemma_dec_digits(manifest.total_len);
    lemma_dec_digits(manifest.chunk_count);
    lemma_digits_no_break(len);
    lemma_digits_no_break(count);
    lemma_first_line(magic, second);
    lemma_first_line(manifest.id, third);
    lemma_first_line(len, last);
    lemma_first_line(count, Seq::<char>::empty());
    lemma_dec_parses(manifest.total_len, usize::MAX as nat);
    lemma_dec_parses(manifest.chunk_count, usize::MAX as nat);
    assert(lines_of(Seq::<char>::empty()) =~= Seq::<Seq<char>>::empty());
    assert(lines_of(text) =~= seq![magic, manifest.id, len, count]);
}

proof fn lemma_digits_no_break(digits: Seq<char>)
    requires
        digits.len() > 0,
        forall|i: int| 0 <= i < digits.len() ==> is_digit(#[trigger] digits[i]),
    ensures
        forall|i: int| 0 <= i < digits.len() ==> #[trigger] digits[i] != '\n',
        strip_cr(digits) == digits,
{
    assert(is_digit(digits.last()));
    assert forall|i: int| 0 <= i < digits.len() implies #[trigger] digits[i] != '\n' by {
        assert(is_digit(digits[i]));
    }
}

/// The number of chunks of a payload.
pub open spec fn chunk_count_of(len: nat) -> nat {
    (len + LARGE_CHUNK_BYTES - 1) as nat / LARGE_CHUNK_BYTES as nat
}

/// The chunk of a payload with the given index.
pub open spec fn chunk_of(payload: Seq<u8>, idx: nat) -> Seq<u8> {
    let start = idx * LARGE_CHUNK_BYTES;
    let end = if start + LARGE_CHUNK_BYTES <= payload.len() {
        start + LARGE_CHUNK_BYTES
    } else {
        payload.len() as int
    };
    payload.subrange(start, end)
}

/// Chunk counts in terms of products: a chunk starts before the end of the
/// payload exactly if its index is below the count.
pub proof fn lemma_chunk_count(len: nat, n: nat)
    ensures
        n < chunk_count_of(len) <==> n * LARGE_CHUNK_BYTES < len,
        (n + 1) * LARGE_CHUNK_BYTES == n * LARGE_CHUNK_BYTES + LARGE_CHUNK_BYTES,
{
    let c = LARGE_CHUNK_BYTES as int;
    let q = chunk_count_of(len) as int;
    let r = (len + c - 1) % c;
    vstd::arithmetic::div_mod::lemma_fundamental_div_mod(len + c - 1, c);
    assert(n < q ==> n * c <= (q - 1) * c) by (nonlinear_arith)
        requires
            c > 0,
    ;
    assert(n >= q ==> n * c >= q * c) by (nonlinear_arith)
        requires
            c > 0,
    ;
    assert((q - 1) * c == c * q - c) by (nonlinear_arith);
    assert(q * c == c * q) by (nonlinear_arith);
    assert((n + 1) * c == n * c + c) by (nonlinear_arith);
}

/// The number of chunk objects that a payload of `len` bytes takes.
pub fn chunk_count(len: usize) -> (count: usize)
    ensures
        count == chunk_count_of(len as nat),
{
    let full: usize = len / LARGE_CHUNK_BYTES;
    proof {
        let c = LARGE_CHUNK_BYTES as int;
        vstd::arithmetic::div_mod::lemma_fundamental_div_mod(len as int, c);
        assert(c * full == full * c) by (nonlinear_arith);
        assert(full <= full * c) by (nonlinear_arith)
            requires
                c >= 1,
        ;
        lemma_chunk_count(len as nat, full as nat);
        if full > 0 {
            lemma_chunk_count(len as nat, (full - 1) as nat);
        }
        lemma_chunk_count(len as nat, (full + 1) as nat);
    }
    if len % LARGE_CHUNK_BYTES == 0 {
        full
    } else {
        full + 1
    }
}

/// The first `n` chunks of a payload, one behind the other.
pub open spec fn joined_chunks(payload: Seq<u8>, n: nat) -> Seq<u8>
    decreases n,
{
    if n == 0 {
        Seq::empty()
    } else {
        joined_chunks(payload, (n - 1) as nat) + chunk_of(payload, (n - 1) as nat)
    }
}

proof fn lemma_joined_prefix(payload: Seq<u8>, n: nat)
    requires
        n <= chunk_count_of(payload.len()),
    ensures
        joined_chunks(payload, n) == payload.take(
            if n * LARGE_CHUNK_BYTES <= payload.len() {
                n * LARGE_CHUNK_BYTES
            } else {
                payload.len() as int
            },
        ),
    decreases n,
{
    if n > 0 {
        lemma_joined_prefix(payload, (n - 1) as nat);
        lemma_chunk_count(payload.len(), (n - 1) as nat);
    } else {
        assert(n * LARGE_CHUNK_BYTES == 0) by (nonlinear_arith)
            requires
                n == 0,
        ;
    }
    assert(joined_chunks(payload, n) =~= payload.take(
        if n * LARGE_CHUNK_BYTES <= payload.len() {
            n * LARGE_CHUNK_BYTES
        } else {
            payload.len() as int
        },
    ));
}

/// The chunks of a payload, read in order, are the payload.
pub proof fn chunks_rebuild_payload(payload: Seq<u8>)
    ensures
        joined_chunks(payload, chunk_count_of(payload.len())) == payload,
{
    lemma_joined_prefix(payload, chunk_count_of(payload.len()));
    assert(payload.take(payload.len() as int) =~= payload);
    lemma_chunk_count(payload.len(), chunk_count_of(payload.len()));
}

/// A payload with at least one byte has a chunk for every index below its
/// count, and no chunk is longer than the chunk size.
pub proof fn chunks_fit(payload: Seq<u8>, idx: nat)
    requires
        idx < chunk_count_of(payload.len()),
    ensures
        0 < chunk_of(payload, idx).len() <= LARGE_CHUNK_BYTES,
{
    lemma_chunk_count(payload.len(), idx);
}

// ---- reading a large payload ----

/// A large payload could not be put together.
#[derive(Debug)]
pub enum LargeError {
    /// A chunk object is absent.
    MissingChunk { idx: usize, id: String },
    /// The chunks do not add up to the announced length.
    LengthMismatch { expected: usize, got: usize },
}

/// The contents of a [`LargeError`].
pub enum LargeFault {
    MissingChunk { idx: nat, id: Seq<char> },
    LengthMismatch { expected: nat, got: nat },
}

impl View for LargeError {
    type V = LargeFault;

    open spec fn view(&self) -> LargeFault {
        match *self {
            LargeError::MissingChunk { idx, id } => LargeFault::MissingChunk {
                idx: idx as nat,
                id: id@,
            },
            LargeError::LengthMismatch { expected, got } => LargeFault::LengthMismatch {
                expected: expected as nat,
                got: got as nat,
            },
        }
    }
}

/// The displayed text of a large-payload error.
pub open spec fn large_fault_text(fault: LargeFault) -> Seq<char> {
    match fault {
        LargeFault::MissingChunk { idx, id } => "missing large-payload chunk "@ + dec(idx)
            + " for "@ + id,
        LargeFault::LengthMismatch { expected, got } => {
            "large-payload length mismatch: expected "@ + dec(expected) + " got "@ + dec(got)
        },
    }
}

impl LargeError {
    /// The error in words.
    pub fn to_text(&self) -> (text: String)
        ensures
            text@ == large_fault_text(self@),
    {
        let mut text = String::new();
        match self {
            LargeError::MissingChunk { idx, id } => {
                text.push_str("missing large-payload chunk ");
                push_dec(&mut text, *idx as u128);
                text.push_str(" for ");
                text.push_str(id);
            },
            LargeError::LengthMismatch { expected, got } => {
                text.push_str("large-payload length mismatch: expected ");
                push_dec(&mut text, *expected as u128);
                text.push_str(" got ");
                push_dec(&mut text, *got as u128);
            },
        }
        assert(text@ =~= large_fault_text(self@));
        text
    }
}

/// A large payload while its chunks are fetched, in order.
#[derive(Debug)]
pub struct LargeRead {
    pub manifest: LargeManifest,
    pub next: usize,
    pub out: Vec<u8>,
}

/// What a chunk fetch is answered.
pub enum ChunkReply {
    Hit(Vec<u8>),
    Miss,
}

impl LargeRead {
    /// Start reading what a manifest announces.
    pub fn new(manifest: LargeManifest) -> (read: LargeRead)
        ensures
            read.manifest@ == manifest@,
            read.next == 0,
            read.out@ == Seq::<u8>::empty(),
    {
        let out: Vec<u8> = Vec::new();
        LargeRead { manifest, next: 0, out }
    }

    /// The key of the next chunk to fetch, or `None` when all have been.
    pub fn next_key(&self) -> (key: Option<String>)
        ensures
            match key {
                Some(k) => self.next < self.manifest.chunk_count && k@ == chunk_key_text(
                    self.manifest.id@,
                    self.next as nat,
                ),
                None => self.next >= self.manifest.chunk_count,
            },
    {
        if self.next < self.manifest.chunk_count {
            Some(large_chunk_key(&self.manifest.id, self.next))
        } else {
            None
        }
    }

    /// Take the answer for the next chunk.
    pub fn feed(&mut self, reply: ChunkReply) -> (fed: Result<(), LargeError>)
        requires
            old(self).next < old(self).manifest.chunk_count,
        ensures
            final(self).manifest@ == old(self).manifest@,
            final(self).manifest.chunk_count == old(self).manifest.chunk_count,
            match reply {
                ChunkReply::Hit(bytes) => fed is Ok && final(self).next == old(self).next + 1
                    && final(self).out@ == old(self).out@ + bytes@,
                ChunkReply::Miss => {
                    &&& fed matches Err(error)
                    &&& error@ == (LargeFault::MissingChunk {
                        idx: old(self).next as nat,
                        id: old(self).manifest.id@,
                    })
                    &&& final(self).next == old(self).next
                    &&& final(self).out@ == old(self).out@
                },
            },
    {
        match reply {
            ChunkReply::Hit(bytes) => {
                push_bytes(&mut self.out, &bytes);
                self.next = self.next + 1;
                Ok(())
            },
            ChunkReply::Miss => Err(
                LargeError::MissingChunk { idx: self.next, id: self.manifest.id.clone() },
            ),
        }
    }

    /// The payload, once all chunks have been fetched.
    pub fn finish(self) -> (payload: Result<Vec<u8>, LargeError>)
        ensures
            match payload {
                Ok(bytes) => bytes@ == self.out@ && self.out@.len() == self.manifest.total_len,
                Err(error) => self.out@.len() != self.manifest.total_len && error@ == (
                LargeFault::LengthMismatch {
                    expected: self.manifest.total_len as nat,
                    got: self.out@.len(),
                }),
            },
    {
        if self.out.len() != self.manifest.total_len {
            return Err(
                LargeError::LengthMismatch {
                    expected: self.manifest.total_len,
                    got: self.out.len(),
                },
            );
        }
        Ok(self.out)
    }
}

/// What a reader makes of a stored manifest: the chunks from `next` on, taken
/// from the store in order behind what was read so far.
pub open spec fn read_chunks(
    store: Map<Seq<char>, Seq<u8>>,
    manifest: ManifestFields,
    next: nat,
    out: Seq<u8>,
) -> Result<Seq<u8>, LargeFault>
    decreases manifest.chunk_count - next,
{
    if next >= manifest.chunk_count {
        if out.len() != manifest.total_len {
            Err(LargeFault::LengthMismatch { expected: manifest.total_len, got: out.len() })
        } else {
            Ok(out)
        }
    } else {
        let key = chunk_key_text(manifest.id, next);
        if store.dom().contains(key) {
            read_chunks(store, manifest, next + 1, out + store[key])
        } else {
            Err(LargeFault::MissingChunk { idx: next, id: manifest.id })
        }
    }
}

/// What a reader makes of a stored value: the value itself, or the payload
/// behind it if it is a manifest.
pub open spec fn read_value(store: Map<Seq<char>, Seq<u8>>, value: Seq<u8>) -> Result<
    Seq<u8>,
    LargeFault,
> {
    match manifest_parsed(value) {
        Some(manifest) => read_chunks(store, manifest, 0, Seq::empty()),
        None => Ok(value),
    }
}

/// The store after the first `n` chunks of a payload were put.
pub open spec fn store_with_chunks(
    store: Map<Seq<char>, Seq<u8>>,
    id: Seq<char>,
    payload: Seq<u8>,
    n: nat,
) -> Map<Seq<char>, Seq<u8>>
    decreases n,
{
    if n == 0 {
        store
    } else {
        store_with_chunks(store, id, payload, (n - 1) as nat).insert(
            chunk_key_text(id, (n - 1) as nat),
            chunk_of(payload, (n - 1) as nat),
        )
    }
}

/// The manifest of a payload.
pub open spec fn manifest_of(id: Seq<char>, payload: Seq<u8>) -> ManifestFields {
    ManifestFields {
        id,
        total_len: payload.len(),
        chunk_count: chunk_count_of(payload.len()),
    }
}

/// The store after a large payload was put: its chunks, then its manifest under
/// the payload's key.
pub open spec fn store_with_large(
    store: Map<Seq<char>, Seq<u8>>,
    id: Seq<char>,
    key: Seq<char>,
    payload: Seq<u8>,
) -> Map<Seq<char>, Seq<u8>> {
    store_with_chunks(store, id, payload, chunk_count_of(payload.len())).insert(
        key,
        encode_utf8(manifest_text(manifest_of(id, payload))),
    )
}

/// Chunks with different indices have different keys.
pub proof fn chunk_keys_differ(id: Seq<char>, i: nat, j: nat)
    requires
        i != j,
    ensures
        chunk_key_text(id, i) != chunk_key_text(id, j),
{
    lemma_padded_value(i, 8);
    lemma_padded_value(j, 8);
    let head = "__wmbt_kv_shm_large"@ + "/"@ + id + "/"@;
    assert(chunk_key_text(id, i).skip(head.len() as int) =~= dec_padded(i, 8));
    assert(chunk_key_text(id, j).skip(head.len() as int) =~= dec_padded(j, 8));
}

proof fn lemma_chunks_stored(
    store: Map<Seq<char>, Seq<u8>>,
    id: Seq<char>,
    payload: Seq<u8>,
    n: nat,
    idx: nat,
)
    requires
        idx < n,
    ensures
        store_with_chunks(store, id, payload, n).dom().contains(chunk_key_text(id, idx)),
        store_with_chunks(store, id, payload, n)[chunk_key_text(id, idx)] == chunk_of(payload, idx),
    decreases n,
{
    if idx < n - 1 {
        lemma_chunks_stored(store, id, payload, (n - 1) as nat, idx);
        chunk_keys_differ(id, idx, (n - 1) as nat);
    }
}

proof fn lemma_read_chunks(
    store: Map<Seq<char>, Seq<u8>>,
    id: Seq<char>,
    payload: Seq<u8>,
    next: nat,
)
    requires
        next <= chunk_count_of(payload.len()),
        forall|i: nat|
            i < chunk_count_of(payload.len()) ==> store.dom().contains(
                #[trigger] chunk_key_text(id, i),
            ) && store[chunk_key_text(id, i)] == chunk_of(payload, i),
    ensures
        read_chunks(store, manifest_of(id, payload), next, joined_chunks(payload, next)) == Ok::<
            Seq<u8>,
            LargeFault,
        >(payload),
    decreases chunk_count_of(payload.len()) - next,
{
    let count = chunk_count_of(payload.len());
    if next == count {
        chunks_rebuild_payload(payload);
    } else {
        lemma_read_chunks(store, id, payload, next + 1);
        assert(store.dom().contains(chunk_key_text(id, next)));
    }
}

/// Reading a key under which a large payload was put gives the payload, if the
/// id is one line and the key is not one of the payload's own chunk keys.
pub proof fn large_put_then_get(
    store: Map<Seq<char>, Seq<u8>>,
    id: Seq<char>,
    key: Seq<char>,
    payload: Seq<u8>,
)
    requires
        forall|i: int| 0 <= i < id.len() ==> #[trigger] id[i] != '\n',
        id.len() > 0 ==> id.last() != '\r',
        payload.len() <= usize::MAX,
        forall|i: nat|
            i < chunk_count_of(payload.len()) ==> key != #[trigger] chunk_key_text(id, i),
    ensures
        store_with_large(store, id, key, payload).dom().contains(key),
        read_value(
            store_with_large(store, id, key, payload),
            store_with_large(store, id, key, payload)[key],
        ) == Ok::<Seq<u8>, LargeFault>(payload),
{
    let count = chunk_count_of(payload.len());
    let after = store_with_large(store, id, key, payload);
    lemma_count_bound(payload.len());
    manifest_round_trip(manifest_of(id, payload));
    assert forall|i: nat| i < count implies after.dom().contains(#[trigger] chunk_key_text(id, i))
        && after[chunk_key_text(id, i)] == chunk_of(payload, i) by {
        lemma_chunks_stored(store, id, payload, count, i);
    }
    lemma_read_chunks(after, id, payload, 0);
}

proof fn lemma_count_bound(len: nat)
    ensures
        chunk_count_of(len) <= len,
{
    if chunk_count_of(len) > 0 {
        let n = (chunk_count_of(len) - 1) as nat;
        lemma_chunk_count(len, n);
        assert(n <= n * LARGE_CHUNK_BYTES) by (nonlinear_arith)
            requires
                LARGE_CHUNK_BYTES >= 1,
        ;
    }
}

/// Every chunk of a payload but the last is full, and the last holds what is left.
pub proof fn chunks_are_full(payload: Seq<u8>, idx: nat)
    requires
        idx < chunk_count_of(payload.len()),
    ensures
        idx + 1 < chunk_count_of(payload.len()) ==> chunk_of(payload, idx).len()
            == LARGE_CHUNK_BYTES,
        idx + 1 == chunk_count_of(payload.len()) ==> chunk_of(payload, idx).len() == payload.len()
            - idx * LARGE_CHUNK_BYTES,
        chunk_of(payload, idx) == payload.subrange(
            idx * LARGE_CHUNK_BYTES,
            idx * LARGE_CHUNK_BYTES + chunk_of(payload, idx).len(),
        ),
{
    lemma_chunk_count(payload.len(), idx);
    lemma_chunk_count(payload.len(), idx + 1);
}

/// A payload is taken for a manifest exactly if it is text whose first line is the
/// mark and whose next three are an id and two numbers.
pub proof fn manifest_is_what_its_lines_say(payload: Seq<u8>)
    ensures
        match manifest_parsed(payload) {
            Some(manifest) => {
                let lines = lines_of(decode_utf8(payload));
                &&& valid_utf8(payload)
                &&& lines.len() >= 4
                &&& lines[0] == "WMBT_KV_SHM_LARGE_V1"@
                &&& lines[1] == manifest.id
                &&& parsed_uint(lines[2], usize::MAX as nat) == Some(manifest.total_len)
                &&& parsed_uint(lines[3], usize::MAX as nat) == Some(manifest.chunk_count)
            },
            None => {
                let lines = lines_of(decode_utf8(payload));
                ||| !valid_utf8(payload)
                ||| lines.len() < 4
                ||| lines[0] != "WMBT_KV_SHM_LARGE_V1"@
                ||| parsed_uint(lines[2], usize::MAX as nat) is None
                ||| parsed_uint(lines[3], usize::MAX as nat) is None
            },
        },
{
}

/// What is hashed for an id tells values apart: it is the same only for the same
/// namespace, key and payload, as long as the names hold no NUL.
pub proof fn id_input_tells_values_apart(
    namespace: Seq<char>,
    key: Seq<char>,
    payload: Seq<u8>,
    other_namespace: Seq<char>,
    other_key: Seq<char>,
    other_payload: Seq<u8>,
)
    requires
        id_input(namespace, key, payload) == id_input(other_namespace, other_key, other_payload),
        no_nul(encode_utf8(namespace)),
        no_nul(encode_utf8(key)),
        no_nul(encode_utf8(other_namespace)),
        no_nul(encode_utf8(other_key)),
    ensures
        namespace == other_namespace,
        key == other_key,
        payload == other_payload,
{
    let tag = encode_utf8("wombatkv-shm-large-v1"@) + seq![0u8];
    let (a, b) = (encode_utf8(namespace), encode_utf8(other_namespace));
    let (c, d) = (encode_utf8(key), encode_utf8(other_key));
    let whole = id_input(namespace, key, payload);
    let x = c + seq![0u8] + le_bytes(payload.len(), 8) + payload;
    let y = d + seq![0u8] + le_bytes(other_payload.len(), 8) + other_payload;
    assert(whole =~= tag + (a + seq![0u8] + x));
    assert(whole =~= tag + (b + seq![0u8] + y));
    assert(whole.skip(tag.len() as int) =~= a + seq![0u8] + x);
    assert(whole.skip(tag.len() as int) =~= b + seq![0u8] + y);
    lemma_first_nul(a, x, b, y);
    let (p, q) = (
        le_bytes(payload.len(), 8) + payload,
        le_bytes(other_payload.len(), 8) + other_payload,
    );
    assert(x =~= c + seq![0u8] + p);
    assert(y =~= d + seq![0u8] + q);
    lemma_first_nul(c, p, d, q);
    lemma_le_bytes_len(payload.len(), 8);
    lemma_le_bytes_len(other_payload.len(), 8);
    assert(p.skip(8) =~= payload);
    assert(q.skip(8) =~= other_payload);
    encode_utf8_decode_utf8(namespace);
    encode_utf8_decode_utf8(other_namespace);
    encode_utf8_decode_utf8(key);
    encode_utf8_decode_utf8(other_key);
}

/// Whether no byte is zero.
pub open spec fn no_nul(bytes: Seq<u8>) -> bool {
    forall|i: int| 0 <= i < bytes.len() ==> #[trigger] bytes[i] != 0
}

proof fn lemma_first_nul(a: Seq<u8>, x: Seq<u8>, b: Seq<u8>, y: Seq<u8>)
    requires
        a + seq![0u8] + x == b + seq![0u8] + y,
        no_nul(a),
        no_nul(b),
    ensures
        a == b,
        x == y,
{
    let whole = a + seq![0u8] + x;
    assert(whole[a.len() as int] == 0 && whole[b.len() as int] == 0);
    if a.len() < b.len() {
        assert(whole[a.len() as int] == b[a.len() as int]);
    } else if b.len() < a.len() {
        assert(whole[b.len() as int] == a[b.len() as int]);
    }
    assert(a =~= whole.take(a.len() as int));
    assert(b =~= whole.take(a.len() as int));
    assert(x =~= whole.skip(a.len() as int + 1));
    assert(y =~= whole.skip(a.len() as int + 1));
}

/// The chunks of different values have different keys, and so have the chunks of one:
/// storing one value never touches the chunks of another.
pub proof fn chunk_keys_are_apart(id: Seq<char>, i: nat, other_id: Seq<char>, j: nat)
    requires
        absent(id, '/'),
        absent(other_id, '/'),
        chunk_key_text(id, i) == chunk_key_text(other_id, j),
    ensures
        id == other_id,
        i == j,
{
    reveal_strlit("/");
    let head = "__wmbt_kv_shm_large"@ + "/"@;
    let whole = chunk_key_text(id, i);
    let (x, y) = (dec_padded(i, 8), dec_padded(j, 8));
    let rest = whole.skip(head.len() as int);
    assert(rest =~= id + seq!['/'] + x);
    assert(rest =~= other_id + seq!['/'] + y);
    assert forall|k: int| 0 <= k < id.len() implies #[trigger] rest[k] != '/' by {
        assert(rest[k] == id[k]);
    }
    assert forall|k: int| 0 <= k < other_id.len() implies #[trigger] rest[k] != '/' by {
        assert(rest[k] == other_id[k]);
    }
    lemma_find_char_is(rest, '/', id.len() as int);
    lemma_find_char_is(rest, '/', other_id.len() as int);
    assert(rest.take(id.len() as int) =~= id);
    assert(rest.take(id.len() as int) =~= other_id);
    assert(rest.skip(id.len() as int + 1) =~= x);
    assert(rest.skip(id.len() as int + 1) =~= y);
    lemma_padded_value(i, 8);
    lemma_padded_value(j, 8);
}

} // verus!
