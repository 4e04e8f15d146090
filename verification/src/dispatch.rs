//! How the daemon serves a request.
//!
//! Serving alternates decisions with work on the block store and the arena. The
//! decisions are here: [`start`] takes a request and names the first piece of
//! work or the response; [`resume`] takes what came of the work and goes on.

use bytes::Bytes;
use vstd::prelude::*;

use crate::archive::is_short;
use crate::arena::{ArenaSlab, ARENA_HEADER_BYTES};
use crate::blocks::{
    archive_fault, blobs_opt, count32_archive, count64_archive, count_fits, count_mismatch,
    count_mismatch_text, decode_get_kv_blocks_batch_req, decode_lookup_block_prefix_req, decode_put_kv_blocks_batch_req,
    encode_get_kv_blocks_batch_resp, encode_lookup_block_prefix_resp,
    encode_put_kv_blocks_batch_resp, get_req_decoded, get_resp_decoded, lookup_req_decoded,
    lookup_resp_decoded, payloads_archive, payloads_fit, put_req_decoded, put_resp_decoded,
    undecodable, CountFields, GetKvBlocksBatchResp, HashListFields, LookupBlockPrefixResp,
    PayloadsFields, PutFields, PutKvBlocksBatchResp,
};
use crate::client::{
    arena_field, arena_ref_of, carried_bytes, tier_of, RemoteFault, RemoteHitTier,
};
use crate::hashes::{block_keys, block_keys_of, hash_bytes, hashes_parsed, parse_block_hash_list};
use crate::large::{
    chunk_key_text, large_fault_text, manifest_parsed, parse_large_manifest, ChunkReply, LargeFault,
    LargeRead,
};
use crate::le::copy_bytes;
use crate::message::{RequestFields, ResponseFields, WireRequest, WireResponse};
use crate::{op, status};
use crate::text::{
    absent, blobs, dec, lemma_dec_digits, lemma_dec_parses, lemma_dec_value, lemma_split_first,
    lemma_split_whole, push_dec, split_char, text_opt, texts,
};
use crate::wire::{
    buffers, bytes_batch_bytes, bytes_batch_decoded, bytes_batch_round_trip, bytes_from, bytes_of,
    bytes_slice, decode_key_batch, encode_bytes_batch, encode_key_batch, fits_one_frame,
    key_batch_bytes, key_batch_decoded, lemma_batch_holds_items,
    wire_fault_text, WireCodecError, WireFault, FRAME_DATA_BYTES, GET_KV_BLOCKS_BATCH_REQ_MAGIC,
    GET_KV_BLOCKS_BATCH_RESP_MAGIC, LOOKUP_BLOCK_PREFIX_REQ_MAGIC, LOOKUP_BLOCK_PREFIX_RESP_MAGIC,
    PUT_KV_BLOCKS_BATCH_REQ_MAGIC, PUT_KV_BLOCKS_BATCH_RESP_MAGIC,
};

verus! {

/// The tier of the store that a value came from.
#[derive(Debug, Clone, Copy, PartialEq, Eq, Structural)]
pub enum HitTier {
    Foyer,
    ObjectStore,
}

/// What the store answers to a get.
#[derive(Debug)]
pub enum StoreGet {
    Hit { tier: HitTier, payload: Bytes },
    Miss,
}

/// The number that stands for a tier on the wire.
pub open spec fn tier_number(tier: HitTier) -> u8 {
    match tier {
        HitTier::Foyer => 1,
        HitTier::ObjectStore => 2,
    }
}

/// How the daemon is set up: the smallest payload that goes into the arena, if
/// there is one, and whether puts are acknowledged before they are stored.
#[derive(Debug, Clone, Copy)]
pub struct DispatchConfig {
    pub arena_min_bytes: Option<usize>,
    pub async_put: bool,
}

/// A piece of work.
#[derive(Debug)]
pub enum Action {
    /// Start a background put; answered by [`Event::Spawned`].
    SpawnPut { namespace: String, key: String, payload: Bytes },
    /// Store a value; answered by [`Event::Stored`].
    PutKv { namespace: String, key: String, payload: Bytes },
    /// Fetch a value; answered by [`Event::Got`].
    GetKv { namespace: String, key: String },
    /// Look for a key; answered by [`Event::Found`].
    ExistsKv { namespace: String, key: String },
    /// List a namespace; answered by [`Event::Listed`].
    ListKvKeys { namespace: String },
    /// Snapshot the metrics; answered by [`Event::Metrics`].
    Metrics,
    /// Drop the cache; answered by [`Event::Done`].
    ClearFoyer,
    /// Refill the cache; answered by [`Event::Restored`].
    RestoreFromS3 { namespace: String },
    /// Count leading known hashes; answered by [`Event::Matched`].
    LongestPrefix { hashes: Vec<[u8; 32]> },
    /// Fetch blocks; answered by [`Event::BlocksGot`], one result per key.
    GetBlocks { namespace: String, keys: Vec<String> },
    /// Store blocks; answered by [`Event::BlocksStored`], one result per key.
    PutBlocks { namespace: String, keys: Vec<String>, payloads: Vec<Vec<u8>> },
    /// Enter blocks of the given sizes into the index; answered by
    /// [`Event::Done`].
    IndexBlocks { hashes: Vec<[u8; 32]>, sizes: Vec<u64> },
    /// Look for a remembered slab; answered by [`Event::SlabFound`].
    LookupSlab { namespace: String, key: String },
    /// Write a slab and remember it; answered by [`Event::SlabWritten`].
    RememberSlab { namespace: String, key: String, bytes: Bytes, tier: u8 },
    /// Write a slab; answered by [`Event::SlabWritten`].
    WriteSlab { bytes: Bytes, tier: u8 },
    /// Forget all slabs; answered by [`Event::Done`].
    ClearSlabs,
}

/// Why a block could not be fetched or stored.
#[derive(Debug)]
pub enum BlockFault {
    /// The store failed, with the given error.
    Store(String),
    /// The thread that worked on the block panicked.
    Panicked,
}

/// What came of a piece of work. Errors arrive in words.
#[derive(Debug)]
pub enum Event {
    Spawned(bool),
    Stored(Result<(), String>),
    Got(Result<StoreGet, String>),
    Found(Result<bool, String>),
    Listed(Result<Vec<String>, String>),
    Metrics(String),
    Done,
    Restored(Result<usize, String>),
    Matched(usize),
    BlocksGot(Vec<Result<Option<Vec<u8>>, BlockFault>>),
    BlocksStored(Vec<Result<(), BlockFault>>),
    SlabFound(Option<ArenaSlab>),
    SlabWritten(Result<Option<ArenaSlab>, String>),
}

/// The value that is being served.
#[derive(Debug)]
pub struct Target {
    pub id: u64,
    pub namespace: String,
    pub key: String,
    pub tier: u8,
}

/// What is answered once the arena has been tried.
#[derive(Debug)]
pub enum Goal {
    /// The put was stored.
    Put,
    /// The get found this payload.
    Get { payload: Bytes },
}

/// A batched get under way: the keys before `next` have been fetched.
#[derive(Debug)]
pub struct ManyGet {
    pub id: u64,
    pub namespace: String,
    pub keys: Vec<String>,
    pub next: usize,
    pub items: Vec<Bytes>,
    pub tier: u8,
}

/// What is being waited for.
#[derive(Debug)]
pub enum Stage {
    Spawning { id: u64, namespace: String, key: String, payload: Bytes },
    Putting { id: u64, namespace: String, key: String, payload: Bytes },
    LookingUp { id: u64, namespace: String, key: String },
    Getting { id: u64, namespace: String, key: String },
    /// A chunk of a large value, on its way into the arena.
    Chunk { target: Target, read: LargeRead, goal: Goal },
    /// A slab for the value.
    Slab { id: u64, tier: u8, goal: Goal },
    Many { many: ManyGet },
    /// A chunk of a large value of the batch.
    ManyChunk { many: ManyGet, read: LargeRead },
    /// A slab for the batch.
    ManySlab { id: u64, batch: Bytes, tier: u8 },
    Existing { id: u64 },
    Listing { id: u64 },
    Measuring { id: u64 },
    Clearing { id: u64 },
    ClearingSlabs { id: u64 },
    Restoring { id: u64 },
    Matching { id: u64 },
    GettingBlocks { id: u64, keys: Vec<String> },
    PuttingBlocks { id: u64, keys: Vec<String>, hashes: Vec<[u8; 32]>, sizes: Vec<u64> },
    Indexing { id: u64, total: u64 },
}

/// The next step: respond, or do some work and resume with what came of it.
#[derive(Debug)]
pub enum Step {
    Respond(WireResponse),
    Act { action: Action, then: Stage },
    /// The response takes more than an archive holds.
    Overlong { id: u64, op: u8 },
}

// ---- responses ----

/// A response.
pub open spec fn reply(id: u64, code: u8, op: u8, payload: Seq<u8>, message: Seq<char>) -> ResponseFields {
    ResponseFields { id, status: code, op, payload, message }
}

/// A successful response without payload or message.
pub open spec fn ok_reply(id: u64, op: u8) -> ResponseFields {
    reply(id, status::OK, op, Seq::empty(), Seq::empty())
}

/// An error response.
pub open spec fn error_reply(id: u64, op: u8, message: Seq<char>) -> ResponseFields {
    reply(id, status::ERROR, op, Seq::empty(), message)
}

/// The message that names a tier.
pub open spec fn tier_message(tier: u8) -> Seq<char> {
    "tier:"@ + dec(tier as nat)
}

/// The response that refers to a slab.
pub open spec fn slab_reply(id: u64, op: u8, slab: ArenaSlab) -> ResponseFields {
    reply(
        id,
        status::OK,
        op,
        Seq::empty(),
        "tier:"@ + dec(slab.tier as nat) + ";arena:"@ + dec(slab.offset as nat) + ":"@ + dec(
            slab.len as nat,
        ),
    )
}

/// The response to a put or get once the arena has been tried: a get refers to
/// the slab if there is one.
pub open spec fn goal_reply(id: u64, tier: u8, goal: Goal, slab: Option<ArenaSlab>) -> ResponseFields {
    match goal {
        Goal::Put => ok_reply(id, op::PUT),
        Goal::Get { payload } => match slab {
            Some(s) => slab_reply(id, op::GET, s),
            None => reply(id, status::OK, op::GET, bytes_of(payload), tier_message(tier)),
        },
    }
}

/// The response to a batched get without an arena: the batch if it fits one
/// frame.
pub open spec fn batch_reply(id: u64, batch: Seq<u8>, tier: u8) -> ResponseFields {
    if batch.len() + 256 <= FRAME_DATA_BYTES {
        reply(id, status::OK, op::GET_MANY, batch, tier_message(tier))
    } else {
        reply(
            id,
            status::TOO_LARGE,
            op::GET_MANY,
            Seq::empty(),
            "get_many response "@ + dec(batch.len())
                + " bytes requires WMBT_KV_DAEMON_SHM_ARENA_PATH or smaller batch"@,
        )
    }
}

/// Whether a step is the given response.
pub open spec fn responds(step: Step, response: ResponseFields) -> bool {
    step matches Step::Respond(r) && r@ == response
}

/// Builds a successful response without payload or message.
pub fn ok_response(id: u64, op: u8) -> (response: WireResponse)
    ensures
        response@ == ok_reply(id, op),
{
    let payload: Vec<u8> = Vec::new();
    WireResponse { id, status: status::OK, op, payload, message: String::new() }
}

/// Builds an error response.
pub fn err_response(id: u64, op: u8, message: String) -> (response: WireResponse)
    ensures
        response@ == error_reply(id, op, message@),
{
    let payload: Vec<u8> = Vec::new();
    WireResponse { id, status: status::ERROR, op, payload, message }
}

/// Builds an error response whose message is a prefix and a cause.
fn failed(id: u64, op: u8, prefix: &str, cause: &str) -> (response: WireResponse)
    ensures
        response@ == error_reply(id, op, prefix@ + cause@),
{
    let mut message = String::new();
    message.push_str(prefix);
    message.push_str(cause);
    assert(message@ =~= prefix@ + cause@);
    err_response(id, op, message)
}

/// Builds the response that refers to a slab.
pub fn arena_response(id: u64, op: u8, slab: ArenaSlab) -> (response: WireResponse)
    ensures
        response@ == slab_reply(id, op, slab),
{
    let mut message = String::new();
    message.push_str("tier:");
    push_dec(&mut message, slab.tier as u128);
    message.push_str(";arena:");
    push_dec(&mut message, slab.offset as u128);
    message.push_str(":");
    push_dec(&mut message, slab.len as u128);
    assert(message@ =~= "tier:"@ + dec(slab.tier as nat) + ";arena:"@ + dec(slab.offset as nat)
        + ":"@ + dec(slab.len as nat));
    let payload: Vec<u8> = Vec::new();
    WireResponse { id, status: status::OK, op, payload, message }
}

/// Builds the message that names a tier.
fn tier_text(tier: u8) -> (message: String)
    ensures
        message@ == tier_message(tier),
{
    let mut message = String::new();
    message.push_str("tier:");
    push_dec(&mut message, tier as u128);
    assert(message@ =~= tier_message(tier));
    message
}

/// Builds the response to a put or get once the arena has been tried.
fn goal_response(id: u64, tier: u8, goal: Goal, slab: Option<ArenaSlab>) -> (response: WireResponse)
    ensures
        response@ == goal_reply(id, tier, goal, slab),
{
    match goal {
        Goal::Put => ok_response(id, op::PUT),
        Goal::Get { payload } => match slab {
            Some(s) => arena_response(id, op::GET, s),
            None => WireResponse {
                id,
                status: status::OK,
                op: op::GET,
                payload: copy_bytes(bytes_slice(&payload)),
                message: tier_text(tier),
            },
        },
    }
}

/// Builds the response to a batched get without an arena.
fn batch_response(id: u64, batch: &Bytes, tier: u8) -> (response: WireResponse)
    ensures
        response@ == batch_reply(id, bytes_of(*batch), tier),
{
    let bytes = bytes_slice(batch);
    if fits_one_frame(bytes.len()) {
        return WireResponse {
            id,
            status: status::OK,
            op: op::GET_MANY,
            payload: copy_bytes(bytes),
            message: tier_text(tier),
        };
    }
    let mut message = String::new();
    message.push_str("get_many response ");
    push_dec(&mut message, bytes.len() as u128);
    message.push_str(" bytes requires WMBT_KV_DAEMON_SHM_ARENA_PATH or smaller batch");
    assert(message@ =~= "get_many response "@ + dec(bytes@.len())
        + " bytes requires WMBT_KV_DAEMON_SHM_ARENA_PATH or smaller batch"@);
    let payload: Vec<u8> = Vec::new();
    WireResponse { id, status: status::TOO_LARGE, op: op::GET_MANY, payload, message }
}

// ---- values on their way into the arena ----

/// Going on with a large value: fetch the next chunk; when all are there, a
/// value of the right length goes into the arena.
pub open spec fn chunks_continue(target: Target, read: LargeRead, goal: Goal, step: Step) -> bool {
    if read.next < read.manifest.chunk_count {
        &&& step matches Step::Act { action, then }
        &&& action matches Action::GetKv { namespace, key }
        &&& namespace@ == target.namespace@
        &&& key@ == chunk_key_text(read.manifest.id@, read.next as nat)
        &&& then == (Stage::Chunk { target, read, goal })
    } else if read.out@.len() != read.manifest.total_len {
        responds(step, goal_reply(target.id, target.tier, goal, None))
    } else {
        remembers(target, read.out@, goal, step)
    }
}

/// Whether a step writes and remembers a slab for a value.
pub open spec fn remembers(target: Target, value: Seq<u8>, goal: Goal, step: Step) -> bool {
    &&& step matches Step::Act { action, then }
    &&& action matches Action::RememberSlab { namespace, key, bytes, tier }
    &&& namespace@ == target.namespace@
    &&& key@ == target.key@
    &&& bytes_of(bytes) == value
    &&& tier == target.tier
    &&& then == (Stage::Slab { id: target.id, tier: target.tier, goal })
}

/// Bringing a value into the arena: the value itself, or the payload behind it
/// if it is a manifest that announces enough bytes.
pub open spec fn materializes(
    min_bytes: usize,
    target: Target,
    payload: Seq<u8>,
    goal: Goal,
    step: Step,
) -> bool {
    match manifest_parsed(payload) {
        None => remembers(target, payload, goal, step),
        Some(manifest) => if manifest.total_len < min_bytes {
            responds(step, goal_reply(target.id, target.tier, goal, None))
        } else {
            exists|read: LargeRead|
                read.manifest@ == manifest && read.next == 0 && read.out@ == Seq::<u8>::empty()
                    && #[trigger] chunks_continue(target, read, goal, step)
        },
    }
}

fn continue_chunks(target: Target, read: LargeRead, goal: Goal) -> (step: Step)
    ensures
        chunks_continue(target, read, goal, step),
{
    match read.next_key() {
        Some(key) => {
            let namespace = target.namespace.clone();
            Step::Act { action: Action::GetKv { namespace, key }, then: Stage::Chunk { target, read, goal } }
        },
        None => match read.finish() {
            Ok(out) => remember(target, bytes_from(out), goal),
            Err(_) => Step::Respond(goal_response(target.id, target.tier, goal, None)),
        },
    }
}

fn remember(target: Target, bytes: Bytes, goal: Goal) -> (step: Step)
    ensures
        remembers(target, bytes_of(bytes), goal, step),
{
    let id: u64 = target.id;
    let tier: u8 = target.tier;
    Step::Act {
        action: Action::RememberSlab {
            namespace: target.namespace,
            key: target.key,
            bytes,
            tier,
        },
        then: Stage::Slab { id, tier, goal },
    }
}

/// Starts to bring a value into the arena.
fn materialize(min_bytes: usize, target: Target, payload: Bytes, goal: Goal) -> (step: Step)
    ensures
        materializes(min_bytes, target, bytes_of(payload), goal, step),
{
    match parse_large_manifest(bytes_slice(&payload)) {
        None => remember(target, payload, goal),
        Some(manifest) => {
            if manifest.total_len < min_bytes {
                return Step::Respond(goal_response(target.id, target.tier, goal, None));
            }
            let read = LargeRead::new(manifest);
            let step = continue_chunks(target, read, goal);
            assert(chunks_continue(target, read, goal, step));
            step
        },
    }
}

// ---- batched gets ----

/// Going on with a batched get: fetch the next key, or finish the batch.
pub open spec fn many_continues(config: DispatchConfig, many: ManyGet, step: Step) -> bool {
    if many.next < many.keys@.len() {
        &&& step matches Step::Act { action, then }
        &&& action matches Action::GetKv { namespace, key }
        &&& namespace@ == many.namespace@
        &&& key@ == many.keys@[many.next as int]@
        &&& then == (Stage::Many { many })
    } else {
        let batch = bytes_batch_bytes(buffers(many.items@));
        match config.arena_min_bytes {
            Some(_) => {
                &&& step matches Step::Act { action, then }
                &&& action matches Action::WriteSlab { bytes, tier }
                &&& bytes_of(bytes) == batch
                &&& tier == many.tier
                &&& then matches Stage::ManySlab { id, batch: b, tier: t }
                &&& id == many.id
                &&& bytes_of(b) == batch
                &&& t == many.tier
            },
            None => responds(step, batch_reply(many.id, batch, many.tier)),
        }
    }
}

/// A batched get after the value of its next key was added.
pub open spec fn many_with(many: ManyGet, value: Seq<u8>, after: ManyGet) -> bool {
    &&& after.id == many.id
    &&& after.namespace == many.namespace
    &&& after.keys == many.keys
    &&& after.next == many.next + 1
    &&& buffers(after.items@) == buffers(many.items@).push(value)
    &&& after.tier == many.tier
}

/// Adding a value to a batched get and going on.
pub open spec fn many_adds(config: DispatchConfig, many: ManyGet, value: Seq<u8>, step: Step) -> bool {
    exists|after: ManyGet|
        many_with(many, value, after) && #[trigger] many_continues(config, after, step)
}

/// The error of a batched get whose large value could not be put together.
pub open spec fn many_large_error(id: u64, cause: Seq<char>) -> ResponseFields {
    error_reply(id, op::GET_MANY, "get_many large payload: "@ + cause)
}

/// Going on with a large value of a batched get.
pub open spec fn many_chunks_continue(
    config: DispatchConfig,
    many: ManyGet,
    read: LargeRead,
    step: Step,
) -> bool {
    if read.next < read.manifest.chunk_count {
        &&& step matches Step::Act { action, then }
        &&& action matches Action::GetKv { namespace, key }
        &&& namespace@ == many.namespace@
        &&& key@ == chunk_key_text(read.manifest.id@, read.next as nat)
        &&& then == (Stage::ManyChunk { many, read })
    } else if read.out@.len() != read.manifest.total_len {
        responds(
            step,
            many_large_error(
                many.id,
                large_fault_text(
                    LargeFault::LengthMismatch {
                        expected: read.manifest.total_len as nat,
                        got: read.out@.len(),
                    },
                ),
            ),
        )
    } else {
        many_adds(config, many, read.out@, step)
    }
}

fn continue_many(config: DispatchConfig, many: ManyGet) -> (step: Step)
    ensures
        many_continues(config, many, step),
{
    if many.next < many.keys.len() {
        let namespace = many.namespace.clone();
        let key = many.keys[many.next].clone();
        return Step::Act { action: Action::GetKv { namespace, key }, then: Stage::Many { many } };
    }
    let batch = bytes_from(encode_bytes_batch(&many.items));
    match config.arena_min_bytes {
        Some(_) => Step::Act {
            action: Action::WriteSlab { bytes: batch.clone(), tier: many.tier },
            then: Stage::ManySlab { id: many.id, batch, tier: many.tier },
        },
        None => Step::Respond(batch_response(many.id, &batch, many.tier)),
    }
}

fn add_to_many(config: DispatchConfig, many: ManyGet, value: Bytes) -> (step: Step)
    requires
        many.next < many.keys@.len(),
    ensures
        many_adds(config, many, bytes_of(value), step),
{
    assert(many.keys.len() == many.keys@.len());
    let mut items: Vec<Bytes> = many.items;
    items.push(value);
    let after = ManyGet {
        id: many.id,
        namespace: many.namespace,
        keys: many.keys,
        next: many.next + 1,
        items,
        tier: many.tier,
    };
    assert(buffers(after.items@) =~= buffers(many.items@).push(bytes_of(value)));
    let step = continue_many(config, after);
    assert(many_with(many, bytes_of(value), after) && many_continues(config, after, step));
    step
}

fn continue_many_chunks(config: DispatchConfig, many: ManyGet, read: LargeRead) -> (step: Step)
    requires
        many.next < many.keys@.len(),
    ensures
        many_chunks_continue(config, many, read, step),
{
    match read.next_key() {
        Some(key) => {
            let namespace = many.namespace.clone();
            Step::Act { action: Action::GetKv { namespace, key }, then: Stage::ManyChunk { many, read } }
        },
        None => match read.finish() {
            Ok(out) => add_to_many(config, many, bytes_from(out)),
            Err(error) => Step::Respond(
                failed(many.id, op::GET_MANY, "get_many large payload: ", &error.to_text()),
            ),
        },
    }
}

// ---- block-shaped replies ----

/// Whether a step answers with a block-shaped payload: not at all where that
/// does not fit an archive, and with an error where its text is too long for one.
pub open spec fn block_reply(
    step: Step,
    id: u64,
    op: u8,
    code: u8,
    message: Seq<char>,
    magic: Seq<u8>,
    fits: bool,
    archive: Option<Seq<u8>>,
    name: Seq<char>,
) -> bool {
    if !fits {
        step == (Step::Overlong { id, op })
    } else {
        &&& step matches Step::Respond(response)
        &&& match archive {
            Some(body) => is_short(message) && response@ == reply(
                id,
                code,
                op,
                magic + body,
                message,
            ),
            None => !is_short(message) && exists|cause: WireFault| #[trigger]
                archive_fault(cause, name) && response@ == error_reply(
                    id,
                    op,
                    "block-payload encode: "@ + wire_fault_text(cause),
                ),
        }
    }
}

/// The status of a block-shaped answer.
pub open spec fn answer_status(error: Option<Seq<char>>) -> u8 {
    if error is Some {
        status::ERROR
    } else {
        status::OK
    }
}

/// The message of a block-shaped answer: its error again.
pub open spec fn answer_message(error: Option<Seq<char>>) -> Seq<char> {
    match error {
        Some(message) => message,
        None => Seq::empty(),
    }
}

/// Whether a step answers a block-prefix lookup. What it sends decodes to what
/// it says.
pub open spec fn lookup_answered(step: Step, id: u64, fields: CountFields) -> bool {
    &&& block_reply(
        step,
        id,
        op::LOOKUP_BLOCK_PREFIX,
        answer_status(fields.error),
        answer_message(fields.error),
        LOOKUP_BLOCK_PREFIX_RESP_MAGIC@,
        count_fits(fields),
        count32_archive(fields),
        "lookup_block_prefix_resp"@,
    )
    &&& step matches Step::Respond(response) ==> (count32_archive(fields) is Some ==> lookup_resp_decoded(
        response.payload@,
    ) == Some(fields))
}

/// Whether a step answers a block get. What it sends decodes to what it says.
pub open spec fn blocks_answered(step: Step, id: u64, fields: PayloadsFields) -> bool {
    &&& block_reply(
        step,
        id,
        op::GET_KV_BLOCKS_BATCH,
        answer_status(fields.error),
        answer_message(fields.error),
        GET_KV_BLOCKS_BATCH_RESP_MAGIC@,
        payloads_fit(fields),
        payloads_archive(fields),
        "get_kv_blocks_batch_resp"@,
    )
    &&& step matches Step::Respond(response) ==> (payloads_archive(fields) is Some ==> get_resp_decoded(
        response.payload@,
    ) == Some(fields))
}

/// Whether a step answers a block put. What it sends decodes to what it says.
pub open spec fn put_blocks_answered(step: Step, id: u64, fields: CountFields) -> bool {
    &&& block_reply(
        step,
        id,
        op::PUT_KV_BLOCKS_BATCH,
        answer_status(fields.error),
        answer_message(fields.error),
        PUT_KV_BLOCKS_BATCH_RESP_MAGIC@,
        count_fits(fields),
        count64_archive(fields),
        "put_kv_blocks_batch_resp"@,
    )
    &&& step matches Step::Respond(response) ==> (count64_archive(fields) is Some ==> put_resp_decoded(
        response.payload@,
    ) == Some(fields))
}

/// Build a response from an encoded block-shaped payload; an encoding failure
/// becomes an error response.
pub fn encode_block_resp_or_err(
    id: u64,
    op: u8,
    success_status: u8,
    success_message: String,
    encoded: Result<Vec<u8>, WireCodecError>,
) -> (response: WireResponse)
    ensures
        match encoded {
            Ok(payload) => response@ == reply(
                id,
                success_status,
                op,
                payload@,
                success_message@,
            ),
            Err(error) => response@ == error_reply(
                id,
                op,
                "block-payload encode: "@ + wire_fault_text(error@),
            ),
        },
{
    match encoded {
        Ok(payload) => WireResponse {
            id,
            status: success_status,
            op,
            payload,
            message: success_message,
        },
        Err(error) => failed(id, op, "block-payload encode: ", &error.to_text()),
    }
}

/// The answer to a block-prefix lookup.
fn lookup_response(id: u64, matched_count: u32, error: Option<String>) -> (step: Step)
    ensures
        lookup_answered(
            step,
            id,
            CountFields { count: matched_count as nat, error: text_opt(error) },
        ),
{
    let code: u8 = if error.is_some() {
        status::ERROR
    } else {
        status::OK
    };
    let message: String = match &error {
        Some(text) => text.clone(),
        None => String::new(),
    };
    let resp = LookupBlockPrefixResp { matched_count, error };
    if !resp.fits() {
        return Step::Overlong { id, op: op::LOOKUP_BLOCK_PREFIX };
    }
    let encoded = encode_lookup_block_prefix_resp(&resp);
    proof {
        if encoded is Err {
            assert(archive_fault(encoded->Err_0@, "lookup_block_prefix_resp"@));
        }
    }
    Step::Respond(encode_block_resp_or_err(id, op::LOOKUP_BLOCK_PREFIX, code, message, encoded))
}

/// The answer to a block get.
fn blocks_response(id: u64, payloads: Option<Vec<Vec<u8>>>, error: Option<String>) -> (step: Step)
    ensures
        blocks_answered(
            step,
            id,
            PayloadsFields { payloads: blobs_opt(payloads), error: text_opt(error) },
        ),
{
    let code: u8 = if error.is_some() {
        status::ERROR
    } else {
        status::OK
    };
    let message: String = match &error {
        Some(text) => text.clone(),
        None => String::new(),
    };
    let resp = GetKvBlocksBatchResp { payloads, error };
    if !resp.fits() {
        return Step::Overlong { id, op: op::GET_KV_BLOCKS_BATCH };
    }
    let encoded = encode_get_kv_blocks_batch_resp(&resp);
    proof {
        if encoded is Err {
            assert(archive_fault(encoded->Err_0@, "get_kv_blocks_batch_resp"@));
        }
    }
    Step::Respond(encode_block_resp_or_err(id, op::GET_KV_BLOCKS_BATCH, code, message, encoded))
}

/// The answer to a block put.
fn put_blocks_response(id: u64, total_bytes: u64, error: Option<String>) -> (step: Step)
    ensures
        put_blocks_answered(
            step,
            id,
            CountFields { count: total_bytes as nat, error: text_opt(error) },
        ),
{
    let code: u8 = if error.is_some() {
        status::ERROR
    } else {
        status::OK
    };
    let message: String = match &error {
        Some(text) => text.clone(),
        None => String::new(),
    };
    let resp = PutKvBlocksBatchResp { total_bytes, error };
    if !resp.fits() {
        return Step::Overlong { id, op: op::PUT_KV_BLOCKS_BATCH };
    }
    let encoded = encode_put_kv_blocks_batch_resp(&resp);
    proof {
        if encoded is Err {
            assert(archive_fault(encoded->Err_0@, "put_kv_blocks_batch_resp"@));
        }
    }
    Step::Respond(encode_block_resp_or_err(id, op::PUT_KV_BLOCKS_BATCH, code, message, encoded))
}

// ---- starting ----

/// Whether a step stores a value.
pub open spec fn puts(
    id: u64,
    namespace: Seq<char>,
    key: Seq<char>,
    payload: Seq<u8>,
    step: Step,
) -> bool {
    &&& step matches Step::Act { action, then }
    &&& action matches Action::PutKv { namespace: n, key: k, payload: p }
    &&& n@ == namespace
    &&& k@ == key
    &&& bytes_of(p) == payload
    &&& then matches Stage::Putting { id: i, namespace: tn, key: tk, payload: tp }
    &&& i == id
    &&& tn@ == namespace
    &&& tk@ == key
    &&& bytes_of(tp) == payload
}

/// Whether a step starts a background put.
pub open spec fn spawns(
    id: u64,
    namespace: Seq<char>,
    key: Seq<char>,
    payload: Seq<u8>,
    step: Step,
) -> bool {
    &&& step matches Step::Act { action, then }
    &&& action matches Action::SpawnPut { namespace: n, key: k, payload: p }
    &&& n@ == namespace
    &&& k@ == key
    &&& bytes_of(p) == payload
    &&& then matches Stage::Spawning { id: i, namespace: tn, key: tk, payload: tp }
    &&& i == id
    &&& tn@ == namespace
    &&& tk@ == key
    &&& bytes_of(tp) == payload
}

/// Whether a step fetches a value from the store.
pub open spec fn gets(id: u64, namespace: Seq<char>, key: Seq<char>, step: Step) -> bool {
    &&& step matches Step::Act { action, then }
    &&& action matches Action::GetKv { namespace: n, key: k }
    &&& n@ == namespace
    &&& k@ == key
    &&& then matches Stage::Getting { id: i, namespace: tn, key: tk }
    &&& i == id
    &&& tn@ == namespace
    &&& tk@ == key
}

/// Whether a step looks for a remembered slab.
pub open spec fn looks_up(id: u64, namespace: Seq<char>, key: Seq<char>, step: Step) -> bool {
    &&& step matches Step::Act { action, then }
    &&& action matches Action::LookupSlab { namespace: n, key: k }
    &&& n@ == namespace
    &&& k@ == key
    &&& then matches Stage::LookingUp { id: i, namespace: tn, key: tk }
    &&& i == id
    &&& tn@ == namespace
    &&& tk@ == key
}

/// Whether a step reports that a block-shaped request did not decode.
pub open spec fn decode_reply(
    step: Step,
    id: u64,
    op: u8,
    prefix: Seq<char>,
    payload: Seq<u8>,
    magic: Seq<u8>,
    name: Seq<char>,
) -> bool {
    exists|cause: WireFault| #[trigger]
        undecodable(cause, payload, magic, name) && responds(
            step,
            error_reply(id, op, prefix + wire_fault_text(cause)),
        )
}

/// Whether a step answers a lookup with an error.
pub open spec fn lookup_error(step: Step, id: u64, message: Seq<char>) -> bool {
    lookup_answered(step, id, CountFields { count: 0, error: Some(message) })
}

/// Whether a step answers a block get with an error.
pub open spec fn blocks_error(step: Step, id: u64, message: Seq<char>) -> bool {
    blocks_answered(step, id, PayloadsFields { payloads: None, error: Some(message) })
}

/// Whether a step answers a block get with the given payloads.
pub open spec fn blocks_found(step: Step, id: u64, payloads: Option<Seq<Seq<u8>>>) -> bool {
    blocks_answered(step, id, PayloadsFields { payloads, error: None })
}

/// Whether a step answers a block put with an error.
pub open spec fn put_blocks_error(step: Step, id: u64, message: Seq<char>) -> bool {
    put_blocks_answered(step, id, CountFields { count: 0, error: Some(message) })
}

/// How a block-prefix lookup starts: a request that does not decode or names a
/// malformed hash is an error; else the index is asked.
pub open spec fn lookup_starts(id: u64, payload: Seq<u8>, step: Step) -> bool {
    match lookup_req_decoded(payload) {
        None => decode_reply(
            step,
            id,
            op::LOOKUP_BLOCK_PREFIX,
            "decode lookup_block_prefix req: "@,
            payload,
            LOOKUP_BLOCK_PREFIX_REQ_MAGIC@,
            "lookup_block_prefix_req"@,
        ),
        Some(fields) => match hashes_parsed(fields.hashes) {
            Err(message) => lookup_error(step, id, message),
            Ok(parsed) => {
                &&& step matches Step::Act { action, then }
                &&& action matches Action::LongestPrefix { hashes }
                &&& hash_bytes(hashes@) == parsed
                &&& then == (Stage::Matching { id })
            },
        },
    }
}

/// How a block get starts: a request that does not decode or names a malformed
/// hash is an error; else the blocks are fetched.
pub open spec fn get_blocks_starts(id: u64, payload: Seq<u8>, step: Step) -> bool {
    match get_req_decoded(payload) {
        None => decode_reply(
            step,
            id,
            op::GET_KV_BLOCKS_BATCH,
            "decode get_kv_blocks_batch req: "@,
            payload,
            GET_KV_BLOCKS_BATCH_REQ_MAGIC@,
            "get_kv_blocks_batch_req"@,
        ),
        Some(fields) => match hashes_parsed(fields.hashes) {
            Err(message) => blocks_error(step, id, message),
            Ok(_) => {
                &&& step matches Step::Act { action, then }
                &&& action matches Action::GetBlocks { namespace, keys }
                &&& namespace@ == fields.namespace
                &&& texts(keys@) == block_keys_of(fields.hashes)
                &&& then matches Stage::GettingBlocks { id: i, keys: k }
                &&& i == id
                &&& texts(k@) == block_keys_of(fields.hashes)
                &&& k@.len() == keys@.len()
            },
        },
    }
}

/// The sizes of payloads.
pub open spec fn sizes_of(payloads: Seq<Seq<u8>>) -> Seq<nat> {
    payloads.map_values(|p: Seq<u8>| p.len())
}

/// Sizes as numbers.
pub open spec fn as_numbers(sizes: Seq<u64>) -> Seq<nat> {
    sizes.map_values(|n: u64| n as nat)
}

/// How a block put starts: a request that does not decode, has not one payload
/// per hash or names a malformed hash is an error; else the blocks are stored.
pub open spec fn put_blocks_starts(id: u64, payload: Seq<u8>, step: Step) -> bool {
    match put_req_decoded(payload) {
        None => decode_reply(
            step,
            id,
            op::PUT_KV_BLOCKS_BATCH,
            "decode put_kv_blocks_batch req: "@,
            payload,
            PUT_KV_BLOCKS_BATCH_REQ_MAGIC@,
            "put_kv_blocks_batch_req"@,
        ),
        Some(fields) => if fields.hashes.len() != fields.payloads.len() {
            put_blocks_error(
                step,
                id,
                count_mismatch(fields.hashes.len(), fields.payloads.len()),
            )
        } else {
            match hashes_parsed(fields.hashes) {
                Err(message) => put_blocks_error(step, id, message),
                Ok(parsed) => {
                    &&& step matches Step::Act { action, then }
                    &&& action matches Action::PutBlocks { namespace, keys, payloads }
                    &&& namespace@ == fields.namespace
                    &&& texts(keys@) == block_keys_of(fields.hashes)
                    &&& blobs(payloads@) == fields.payloads
                    &&& then matches Stage::PuttingBlocks { id: i, keys: k, hashes, sizes }
                    &&& i == id
                    &&& texts(k@) == block_keys_of(fields.hashes)
                    &&& k@.len() == keys@.len()
                    &&& hash_bytes(hashes@) == parsed
                    &&& as_numbers(sizes@) == sizes_of(fields.payloads)
                },
            }
        },
    }
}

/// How a batched get starts: with the first of the decoded keys.
pub open spec fn many_starts(
    config: DispatchConfig,
    id: u64,
    namespace: Seq<char>,
    payload: Seq<u8>,
    step: Step,
) -> bool {
    match key_batch_decoded(payload) {
        Err(fault) => responds(step, error_reply(id, op::GET_MANY, wire_fault_text(fault))),
        Ok(keys) => exists|many: ManyGet|
            many.id == id && many.namespace@ == namespace && texts(many.keys@) == keys && many.next
                == 0 && many.items@ == Seq::<Bytes>::empty() && many.tier == 1
                && #[trigger] many_continues(config, many, step),
    }
}

/// How a request starts to be served.
pub open spec fn starts(config: DispatchConfig, request: RequestFields, step: Step) -> bool {
    let id = request.id;
    if request.op == op::PING || request.op == op::CLOSE {
        responds(step, ok_reply(id, request.op))
    } else if request.op == op::PUT {
        if config.async_put {
            spawns(id, request.namespace, request.key, request.payload, step)
        } else {
            puts(id, request.namespace, request.key, request.payload, step)
        }
    } else if request.op == op::GET {
        if config.arena_min_bytes is Some {
            looks_up(id, request.namespace, request.key, step)
        } else {
            gets(id, request.namespace, request.key, step)
        }
    } else if request.op == op::GET_MANY {
        many_starts(config, id, request.namespace, request.payload, step)
    } else if request.op == op::EXISTS {
        &&& step matches Step::Act { action, then }
        &&& action matches Action::ExistsKv { namespace, key }
        &&& namespace@ == request.namespace
        &&& key@ == request.key
        &&& then == (Stage::Existing { id })
    } else if request.op == op::LIST {
        &&& step matches Step::Act { action, then }
        &&& action matches Action::ListKvKeys { namespace }
        &&& namespace@ == request.namespace
        &&& then == (Stage::Listing { id })
    } else if request.op == op::STATS {
        step == (Step::Act { action: Action::Metrics, then: Stage::Measuring { id } })
    } else if request.op == op::CLEAR {
        step == (Step::Act { action: Action::ClearFoyer, then: Stage::Clearing { id } })
    } else if request.op == op::RESTORE {
        &&& step matches Step::Act { action, then }
        &&& action matches Action::RestoreFromS3 { namespace }
        &&& namespace@ == request.namespace
        &&& then == (Stage::Restoring { id })
    } else if request.op == op::LOOKUP_BLOCK_PREFIX {
        lookup_starts(id, request.payload, step)
    } else if request.op == op::GET_KV_BLOCKS_BATCH {
        get_blocks_starts(id, request.payload, step)
    } else if request.op == op::PUT_KV_BLOCKS_BATCH {
        put_blocks_starts(id, request.payload, step)
    } else {
        responds(
            step,
            error_reply(id, request.op, "unknown op "@ + dec(request.op as nat)),
        )
    }
}

fn put(id: u64, namespace: String, key: String, payload: Bytes) -> (step: Step)
    ensures
        puts(id, namespace@, key@, bytes_of(payload), step),
{
    let action = Action::PutKv {
        namespace: namespace.clone(),
        key: key.clone(),
        payload: payload.clone(),
    };
    Step::Act { action, then: Stage::Putting { id, namespace, key, payload } }
}

fn get(id: u64, namespace: String, key: String) -> (step: Step)
    ensures
        gets(id, namespace@, key@, step),
{
    let action = Action::GetKv { namespace: namespace.clone(), key: key.clone() };
    Step::Act { action, then: Stage::Getting { id, namespace, key } }
}

fn start_many(config: DispatchConfig, id: u64, namespace: String, payload: &[u8]) -> (step: Step)
    ensures
        many_starts(config, id, namespace@, payload@, step),
{
    match decode_key_batch(payload) {
        Err(error) => Step::Respond(err_response(id, op::GET_MANY, error.to_text())),
        Ok(keys) => {
            let items: Vec<Bytes> = Vec::new();
            let many = ManyGet { id, namespace, keys, next: 0, items, tier: 1 };
            let step = continue_many(config, many);
            assert(many_continues(config, many, step));
            step
        },
    }
}

/// Serve a block-prefix lookup: decode the request and validate its hashes.
fn dispatch_lookup_block_prefix(id: u64, payload: &[u8]) -> (step: Step)
    ensures
        lookup_starts(id, payload@, step),
{
    let request = match decode_lookup_block_prefix_req(payload) {
        Ok(request) => request,
        Err(error) => {
            let step = Step::Respond(
                failed(
                    id,
                    op::LOOKUP_BLOCK_PREFIX,
                    "decode lookup_block_prefix req: ",
                    &error.to_text(),
                ),
            );
            assert(undecodable(
                error@,
                payload@,
                LOOKUP_BLOCK_PREFIX_REQ_MAGIC@,
                "lookup_block_prefix_req"@,
            ));
            return step;
        },
    };
    match parse_block_hash_list(&request.block_hashes_hex) {
        Ok(hashes) => Step::Act {
            action: Action::LongestPrefix { hashes },
            then: Stage::Matching { id },
        },
        Err(message) => lookup_response(id, 0, Some(message)),
    }
}

/// Serve a block get: decode the request and validate its hashes.
fn dispatch_get_kv_blocks_batch(id: u64, payload: &[u8]) -> (step: Step)
    ensures
        get_blocks_starts(id, payload@, step),
{
    let request = match decode_get_kv_blocks_batch_req(payload) {
        Ok(request) => request,
        Err(error) => {
            let step = Step::Respond(
                failed(
                    id,
                    op::GET_KV_BLOCKS_BATCH,
                    "decode get_kv_blocks_batch req: ",
                    &error.to_text(),
                ),
            );
            assert(undecodable(
                error@,
                payload@,
                GET_KV_BLOCKS_BATCH_REQ_MAGIC@,
                "get_kv_blocks_batch_req"@,
            ));
            return step;
        },
    };
    match parse_block_hash_list(&request.block_hashes_hex) {
        Ok(_) => {
            let keys = block_keys(&request.block_hashes_hex);
            let awaited = block_keys(&request.block_hashes_hex);
            assert(texts(keys@).len() == texts(awaited@).len());
            Step::Act {
                action: Action::GetBlocks { namespace: request.namespace, keys },
                then: Stage::GettingBlocks { id, keys: awaited },
            }
        },
        Err(message) => blocks_response(id, None, Some(message)),
    }
}

/// Serve a block put: decode the request, hold its counts against each other and
/// validate its hashes.
fn dispatch_put_kv_blocks_batch(id: u64, payload: &[u8]) -> (step: Step)
    ensures
        put_blocks_starts(id, payload@, step),
{
    let request = match decode_put_kv_blocks_batch_req(payload) {
        Ok(request) => request,
        Err(error) => {
            let step = Step::Respond(
                failed(
                    id,
                    op::PUT_KV_BLOCKS_BATCH,
                    "decode put_kv_blocks_batch req: ",
                    &error.to_text(),
                ),
            );
            assert(undecodable(
                error@,
                payload@,
                PUT_KV_BLOCKS_BATCH_REQ_MAGIC@,
                "put_kv_blocks_batch_req"@,
            ));
            return step;
        },
    };
    if request.block_hashes_hex.len() != request.payloads.len() {
        let message = count_mismatch_text(request.block_hashes_hex.len(), request.payloads.len());
        return put_blocks_response(id, 0, Some(message));
    }
    match parse_block_hash_list(&request.block_hashes_hex) {
        Ok(hashes) => {
            let keys = block_keys(&request.block_hashes_hex);
            let awaited = block_keys(&request.block_hashes_hex);
            assert(texts(keys@).len() == texts(awaited@).len());
            let mut sizes: Vec<u64> = Vec::new();
            let mut i: usize = 0;
            while i < request.payloads.len()
                invariant
                    i <= request.payloads@.len(),
                    sizes@.len() == i,
                    forall|j: int|
                        0 <= j < i ==> #[trigger] sizes@[j] == request.payloads@[j]@.len(),
                decreases request.payloads@.len() - i,
            {
                sizes.push(request.payloads[i].len() as u64);
                i = i + 1;
            }
            assert(as_numbers(sizes@) =~= sizes_of(blobs(request.payloads@)));
            Step::Act {
                action: Action::PutBlocks {
                    namespace: request.namespace,
                    keys,
                    payloads: request.payloads,
                },
                then: Stage::PuttingBlocks { id, keys: awaited, hashes, sizes },
            }
        },
        Err(message) => put_blocks_response(id, 0, Some(message)),
    }
}

/// Start to serve a request.
pub fn start(config: DispatchConfig, request: WireRequest) -> (step: Step)
    ensures
        starts(config, request@, step),
{
    let id: u64 = request.id;
    match request.op {
        op::PING => Step::Respond(ok_response(id, op::PING)),
        op::CLOSE => Step::Respond(ok_response(id, op::CLOSE)),
        op::PUT => {
            let payload = bytes_from(request.payload);
            if config.async_put {
                let action = Action::SpawnPut {
                    namespace: request.namespace.clone(),
                    key: request.key.clone(),
                    payload: payload.clone(),
                };
                Step::Act {
                    action,
                    then: Stage::Spawning {
                        id,
                        namespace: request.namespace,
                        key: request.key,
                        payload,
                    },
                }
            } else {
                put(id, request.namespace, request.key, payload)
            }
        },
        op::GET => match config.arena_min_bytes {
            Some(_) => {
                let action = Action::LookupSlab {
                    namespace: request.namespace.clone(),
                    key: request.key.clone(),
                };
                Step::Act {
                    action,
                    then: Stage::LookingUp { id, namespace: request.namespace, key: request.key },
                }
            },
            None => get(id, request.namespace, request.key),
        },
        op::GET_MANY => start_many(config, id, request.namespace, &request.payload),
        op::EXISTS => Step::Act {
            action: Action::ExistsKv { namespace: request.namespace, key: request.key },
            then: Stage::Existing { id },
        },
        op::LIST => Step::Act {
            action: Action::ListKvKeys { namespace: request.namespace },
            then: Stage::Listing { id },
        },
        op::STATS => Step::Act { action: Action::Metrics, then: Stage::Measuring { id } },
        op::CLEAR => Step::Act { action: Action::ClearFoyer, then: Stage::Clearing { id } },
        op::RESTORE => Step::Act {
            action: Action::RestoreFromS3 { namespace: request.namespace },
            then: Stage::Restoring { id },
        },
        op::LOOKUP_BLOCK_PREFIX => dispatch_lookup_block_prefix(id, &request.payload),
        op::GET_KV_BLOCKS_BATCH => dispatch_get_kv_blocks_batch(id, &request.payload),
        op::PUT_KV_BLOCKS_BATCH => dispatch_put_kv_blocks_batch(id, &request.payload),
        other => {
            let mut message = String::new();
            message.push_str("unknown op ");
            push_dec(&mut message, other as u128);
            assert(message@ =~= "unknown op "@ + dec(other as nat));
            Step::Respond(err_response(id, other, message))
        },
    }
}

/// Start the part of a background put that stores the value. Its last step is a
/// response that nobody waits for.
pub fn start_background_put(namespace: String, key: String, payload: Bytes) -> (step: Step)
    ensures
        puts(0, namespace@, key@, bytes_of(payload), step),
{
    put(0, namespace, key, payload)
}

// ---- resuming ----

/// Whether an event is the kind that a stage waits for.
pub open spec fn awaits(stage: Stage, event: Event) -> bool {
    match stage {
        Stage::Spawning { .. } => event is Spawned,
        Stage::Putting { .. } => event is Stored,
        Stage::LookingUp { .. } => event is SlabFound,
        Stage::Getting { .. } => event is Got,
        Stage::Chunk { target, read, goal } => event is Got && read.next
            < read.manifest.chunk_count,
        Stage::Slab { .. } => event is SlabWritten,
        Stage::Many { many } => event is Got && many.next < many.keys@.len(),
        Stage::ManyChunk { many, read } => event is Got && many.next < many.keys@.len()
            && read.next < read.manifest.chunk_count,
        Stage::ManySlab { .. } => event is SlabWritten,
        Stage::Existing { .. } => event is Found,
        Stage::Listing { .. } => event is Listed,
        Stage::Measuring { .. } => event is Metrics,
        Stage::Clearing { .. } => event is Done,
        Stage::ClearingSlabs { .. } => event is Done,
        Stage::Restoring { .. } => event is Restored,
        Stage::Matching { .. } => event is Matched,
        Stage::GettingBlocks { id, keys } => event matches Event::BlocksGot(results)
            && results@.len() == keys@.len(),
        Stage::PuttingBlocks { id, keys, .. } => event matches Event::BlocksStored(results)
            && results@.len() == keys@.len(),
        Stage::Indexing { .. } => event is Done,
    }
}

/// A large value after a chunk was added to it.
pub open spec fn read_with(read: LargeRead, chunk: Seq<u8>, after: LargeRead) -> bool {
    &&& after.manifest@ == read.manifest@
    &&& after.next == read.next + 1
    &&& after.out@ == read.out@ + chunk
}

/// What came of fetching blocks: all of them, or the first that was missing or
/// failed.
pub enum BlocksFate {
    All(Seq<Seq<u8>>),
    Missing,
    Failed(Seq<char>),
}

/// What is said of a block that could not be fetched or stored. `call` is what
/// the store was asked for, `op` the operation that is served.
pub open spec fn block_fault_text(
    call: Seq<char>,
    op: Seq<char>,
    key: Seq<char>,
    fault: BlockFault,
) -> Seq<char> {
    match fault {
        BlockFault::Store(message) => call + " "@ + key + ": "@ + message@,
        BlockFault::Panicked => op + " thread panic"@,
    }
}

/// What is said of a block that could not be fetched.
pub open spec fn unfetched(key: Seq<char>, fault: BlockFault) -> Seq<char> {
    block_fault_text("get_kv"@, "get_kv_blocks_batch"@, key, fault)
}

/// What is said of a block that could not be stored.
pub open spec fn unstored(key: Seq<char>, fault: BlockFault) -> Seq<char> {
    block_fault_text("put_kv"@, "put_kv_blocks_batch"@, key, fault)
}

/// The fate of the blocks from `from` on, given the result for each key.
pub open spec fn blocks_fate(
    keys: Seq<String>,
    results: Seq<Result<Option<Vec<u8>>, BlockFault>>,
    from: nat,
) -> BlocksFate
    decreases results.len() - from,
{
    if from >= results.len() {
        BlocksFate::All(Seq::empty())
    } else {
        match results[from as int] {
            Err(fault) => BlocksFate::Failed(unfetched(keys[from as int]@, fault)),
            Ok(None) => BlocksFate::Missing,
            Ok(Some(payload)) => match blocks_fate(keys, results, from + 1) {
                BlocksFate::All(rest) => BlocksFate::All(seq![payload@] + rest),
                other => other,
            },
        }
    }
}

/// The first error among the blocks from `from` on, given the result for each
/// key.
pub open spec fn first_error(
    keys: Seq<String>,
    results: Seq<Result<(), BlockFault>>,
    from: nat,
) -> Option<Seq<char>>
    decreases results.len() - from,
{
    if from >= results.len() {
        None
    } else {
        match results[from as int] {
            Err(fault) => Some(unstored(keys[from as int]@, fault)),
            Ok(_) => first_error(keys, results, from + 1),
        }
    }
}

/// The sum of sizes, at most the largest 64-bit number.
pub open spec fn saturating_total(sizes: Seq<nat>) -> nat {
    let total = crate::wire::total_of(sizes);
    if total > u64::MAX {
        u64::MAX as nat
    } else {
        total
    }
}

/// How a get goes on with a value from the store: a hit is tried in the arena
/// if there is one.
pub open spec fn got_continues(
    config: DispatchConfig,
    id: u64,
    namespace: Seq<char>,
    key: Seq<char>,
    got: Result<StoreGet, String>,
    step: Step,
) -> bool {
    match got {
        Err(message) => responds(step, error_reply(id, op::GET, "get: "@ + message@)),
        Ok(StoreGet::Miss) => responds(
            step,
            reply(id, status::MISS, op::GET, Seq::empty(), Seq::empty()),
        ),
        Ok(StoreGet::Hit { tier, payload }) => match config.arena_min_bytes {
            None => responds(
                step,
                reply(
                    id,
                    status::OK,
                    op::GET,
                    bytes_of(payload),
                    tier_message(tier_number(tier)),
                ),
            ),
            Some(min_bytes) => exists|target: Target, goal: Goal|
                target.id == id && target.namespace@ == namespace && target.key@ == key
                    && target.tier == tier_number(tier) && goal_is_get(goal, bytes_of(payload))
                    && #[trigger] materializes(min_bytes, target, bytes_of(payload), goal, step),
        },
    }
}

/// Whether a goal is to answer a get with the given payload.
pub open spec fn goal_is_get(goal: Goal, payload: Seq<u8>) -> bool {
    goal matches Goal::Get { payload: p } && bytes_of(p) == payload
}

/// How a put goes on once the store has answered: a stored value is tried in
/// the arena if there is one.
pub open spec fn stored_continues(
    config: DispatchConfig,
    id: u64,
    namespace: Seq<char>,
    key: Seq<char>,
    payload: Seq<u8>,
    stored: Result<(), String>,
    step: Step,
) -> bool {
    match stored {
        Err(message) => responds(step, error_reply(id, op::PUT, "put: "@ + message@)),
        Ok(_) => match config.arena_min_bytes {
            None => responds(step, ok_reply(id, op::PUT)),
            Some(min_bytes) => exists|target: Target|
                target.id == id && target.namespace@ == namespace && target.key@ == key
                    && target.tier == 1 && #[trigger] materializes(
                    min_bytes,
                    target,
                    payload,
                    Goal::Put,
                    step,
                ),
        },
    }
}

/// How a chunk of a large value on its way into the arena is taken. A value
/// whose chunk is missing or fails stays out of the arena.
pub open spec fn chunk_continues(
    target: Target,
    read: LargeRead,
    goal: Goal,
    got: Result<StoreGet, String>,
    step: Step,
) -> bool {
    match got {
        Ok(StoreGet::Hit { tier, payload }) => exists|after: LargeRead|
            read_with(read, bytes_of(payload), after) && #[trigger] chunks_continue(
                target,
                after,
                goal,
                step,
            ),
        _ => responds(step, goal_reply(target.id, target.tier, goal, None)),
    }
}

/// The tier of a batch after a hit: the object store wins.
pub open spec fn tier_with(tier: u8, hit: HitTier) -> u8 {
    if hit is ObjectStore {
        2
    } else {
        tier
    }
}

/// A batched get under way, with another tier.
pub open spec fn many_at_tier(many: ManyGet, tier: u8, after: ManyGet) -> bool {
    &&& after.id == many.id
    &&& after.namespace == many.namespace
    &&& after.keys == many.keys
    &&& after.next == many.next
    &&& after.items == many.items
    &&& after.tier == tier
}

/// How a batched get takes the value of its next key. A missing key ends it.
pub open spec fn many_got_continues(
    config: DispatchConfig,
    many: ManyGet,
    got: Result<StoreGet, String>,
    step: Step,
) -> bool {
    match got {
        Err(message) => responds(
            step,
            error_reply(many.id, op::GET_MANY, "get_many: "@ + message@),
        ),
        Ok(StoreGet::Miss) => responds(
            step,
            reply(
                many.id,
                status::MISS,
                op::GET_MANY,
                Seq::empty(),
                many.keys@[many.next as int]@,
            ),
        ),
        Ok(StoreGet::Hit { tier, payload }) => exists|tiered: ManyGet|
            #![trigger many_at_tier(many, tier_with(many.tier, tier), tiered)]
            many_at_tier(many, tier_with(many.tier, tier), tiered) && match manifest_parsed(
                bytes_of(payload),
            ) {
                None => many_adds(config, tiered, bytes_of(payload), step),
                Some(manifest) => exists|read: LargeRead|
                    read.manifest@ == manifest && read.next == 0 && read.out@ == Seq::<u8>::empty()
                        && #[trigger] many_chunks_continue(config, tiered, read, step),
            },
    }
}

/// How a batched get takes a chunk of a large value. A missing or failing chunk
/// ends it.
pub open spec fn many_chunk_continues(
    config: DispatchConfig,
    many: ManyGet,
    read: LargeRead,
    got: Result<StoreGet, String>,
    step: Step,
) -> bool {
    match got {
        Err(message) => responds(
            step,
            many_large_error(many.id, "get chunk "@ + dec(read.next as nat) + ": "@ + message@),
        ),
        Ok(StoreGet::Miss) => responds(
            step,
            many_large_error(
                many.id,
                large_fault_text(
                    LargeFault::MissingChunk { idx: read.next as nat, id: read.manifest.id@ },
                ),
            ),
        ),
        Ok(StoreGet::Hit { tier, payload }) => exists|after: LargeRead|
            read_with(read, bytes_of(payload), after) && #[trigger] many_chunks_continue(
                config,
                many,
                after,
                step,
            ),
    }
}

/// How serving goes on after a piece of work.
pub open spec fn resumes(config: DispatchConfig, stage: Stage, event: Event, step: Step) -> bool {
    match (stage, event) {
        (Stage::Spawning { id, namespace, key, payload }, Event::Spawned(spawned)) => if spawned {
            responds(step, ok_reply(id, op::PUT))
        } else {
            puts(id, namespace@, key@, bytes_of(payload), step)
        },
        (Stage::Putting { id, namespace, key, payload }, Event::Stored(stored)) => stored_continues(
            config,
            id,
            namespace@,
            key@,
            bytes_of(payload),
            stored,
            step,
        ),
        (Stage::LookingUp { id, namespace, key }, Event::SlabFound(slab)) => match slab {
            Some(s) => responds(step, slab_reply(id, op::GET, s)),
            None => gets(id, namespace@, key@, step),
        },
        (Stage::Getting { id, namespace, key }, Event::Got(got)) => got_continues(
            config,
            id,
            namespace@,
            key@,
            got,
            step,
        ),
        (Stage::Chunk { target, read, goal }, Event::Got(got)) => chunk_continues(
            target,
            read,
            goal,
            got,
            step,
        ),
        (Stage::Slab { id, tier, goal }, Event::SlabWritten(written)) => responds(
            step,
            goal_reply(
                id,
                tier,
                goal,
                match written {
                    Ok(slab) => slab,
                    Err(_) => None,
                },
            ),
        ),
        (Stage::Many { many }, Event::Got(got)) => many_got_continues(config, many, got, step),
        (Stage::ManyChunk { many, read }, Event::Got(got)) => many_chunk_continues(
            config,
            many,
            read,
            got,
            step,
        ),
        (Stage::ManySlab { id, batch, tier }, Event::SlabWritten(written)) => responds(
            step,
            match written {
                Ok(Some(slab)) => slab_reply(id, op::GET_MANY, slab),
                _ => batch_reply(id, bytes_of(batch), tier),
            },
        ),
        (Stage::Existing { id }, Event::Found(found)) => responds(
            step,
            match found {
                Ok(true) => ok_reply(id, op::EXISTS),
                Ok(false) => reply(id, status::MISS, op::EXISTS, Seq::empty(), Seq::empty()),
                Err(message) => error_reply(id, op::EXISTS, "exists: "@ + message@),
            },
        ),
        (Stage::Listing { id }, Event::Listed(listed)) => responds(
            step,
            match listed {
                Ok(keys) => reply(
                    id,
                    status::OK,
                    op::LIST,
                    key_batch_bytes(texts(keys@)),
                    dec(keys@.len()),
                ),
                Err(message) => error_reply(id, op::LIST, "list: "@ + message@),
            },
        ),
        (Stage::Measuring { id }, Event::Metrics(text)) => responds(
            step,
            reply(id, status::OK, op::STATS, Seq::empty(), text@),
        ),
        (Stage::Clearing { id }, Event::Done) => if config.arena_min_bytes is Some {
            step == (Step::Act { action: Action::ClearSlabs, then: Stage::ClearingSlabs { id } })
        } else {
            responds(step, ok_reply(id, op::CLEAR))
        },
        (Stage::ClearingSlabs { id }, Event::Done) => responds(step, ok_reply(id, op::CLEAR)),
        (Stage::Restoring { id }, Event::Restored(restored)) => responds(
            step,
            match restored {
                Ok(count) => reply(id, status::OK, op::RESTORE, Seq::empty(), dec(count as nat)),
                Err(message) => error_reply(id, op::RESTORE, "restore: "@ + message@),
            },
        ),
        (Stage::Matching { id }, Event::Matched(count)) => lookup_answered(
            step,
            id,
            CountFields {
                count: if count <= u32::MAX {
                    count as nat
                } else {
                    u32::MAX as nat
                },
                error: None,
            },
        ),
        (Stage::GettingBlocks { id, keys }, Event::BlocksGot(results)) => match blocks_fate(
            keys@,
            results@,
            0,
        ) {
            BlocksFate::All(payloads) => blocks_found(step, id, Some(payloads)),
            BlocksFate::Missing => blocks_found(step, id, None),
            BlocksFate::Failed(message) => blocks_error(step, id, message),
        },
        (
            Stage::PuttingBlocks { id, keys, hashes, sizes },
            Event::BlocksStored(results),
        ) => match first_error(keys@, results@, 0) {
            Some(message) => put_blocks_error(step, id, message),
            None => {
                &&& step matches Step::Act { action, then }
                &&& action == (Action::IndexBlocks { hashes, sizes })
                &&& then matches Stage::Indexing { id: i, total }
                &&& i == id
                &&& total == saturating_total(as_numbers(sizes@))
            },
        },
        (Stage::Indexing { id, total }, Event::Done) => put_blocks_answered(
            step,
            id,
            CountFields { count: total as nat, error: None },
        ),
        _ => true,
    }
}

/// The number that stands for a tier on the wire.
fn tier_byte(tier: HitTier) -> (number: u8)
    ensures
        number == tier_number(tier),
{
    match tier {
        HitTier::Foyer => 1,
        HitTier::ObjectStore => 2,
    }
}

fn after_get(
    config: DispatchConfig,
    id: u64,
    namespace: String,
    key: String,
    got: Result<StoreGet, String>,
) -> (step: Step)
    ensures
        got_continues(config, id, namespace@, key@, got, step),
{
    match got {
        Err(message) => Step::Respond(failed(id, op::GET, "get: ", &message)),
        Ok(StoreGet::Miss) => {
            let payload: Vec<u8> = Vec::new();
            Step::Respond(
                WireResponse {
                    id,
                    status: status::MISS,
                    op: op::GET,
                    payload,
                    message: String::new(),
                },
            )
        },
        Ok(StoreGet::Hit { tier, payload }) => {
            let number: u8 = tier_byte(tier);
            match config.arena_min_bytes {
                None => Step::Respond(
                    WireResponse {
                        id,
                        status: status::OK,
                        op: op::GET,
                        payload: copy_bytes(bytes_slice(&payload)),
                        message: tier_text(number),
                    },
                ),
                Some(min_bytes) => {
                    let target = Target { id, namespace, key, tier: number };
                    let goal = Goal::Get { payload: payload.clone() };
                    let step = materialize(min_bytes, target, payload, goal);
                    assert(materializes(min_bytes, target, bytes_of(payload), goal, step));
                    step
                },
            }
        },
    }
}

fn after_put(
    config: DispatchConfig,
    id: u64,
    namespace: String,
    key: String,
    payload: Bytes,
    stored: Result<(), String>,
) -> (step: Step)
    ensures
        stored_continues(config, id, namespace@, key@, bytes_of(payload), stored, step),
{
    match stored {
        Err(message) => Step::Respond(failed(id, op::PUT, "put: ", &message)),
        Ok(()) => match config.arena_min_bytes {
            None => Step::Respond(ok_response(id, op::PUT)),
            Some(min_bytes) => {
                let target = Target { id, namespace, key, tier: 1 };
                let step = materialize(min_bytes, target, payload, Goal::Put);
                assert(materializes(min_bytes, target, bytes_of(payload), Goal::Put, step));
                step
            },
        },
    }
}

fn after_chunk(target: Target, read: LargeRead, goal: Goal, got: Result<StoreGet, String>) -> (step:
    Step)
    requires
        read.next < read.manifest.chunk_count,
    ensures
        chunk_continues(target, read, goal, got, step),
{
    match got {
        Ok(StoreGet::Hit { tier: _, payload }) => {
            let mut after = read;
            let fed = after.feed(ChunkReply::Hit(copy_bytes(bytes_slice(&payload))));
            let step = continue_chunks(target, after, goal);
            assert(read_with(read, bytes_of(payload), after));
            assert(chunks_continue(target, after, goal, step));
            step
        },
        _ => Step::Respond(goal_response(target.id, target.tier, goal, None)),
    }
}

fn after_many_get(config: DispatchConfig, many: ManyGet, got: Result<StoreGet, String>) -> (step:
    Step)
    requires
        many.next < many.keys@.len(),
    ensures
        many_got_continues(config, many, got, step),
{
    match got {
        Err(message) => Step::Respond(failed(many.id, op::GET_MANY, "get_many: ", &message)),
        Ok(StoreGet::Miss) => {
            let payload: Vec<u8> = Vec::new();
            let message = many.keys[many.next].clone();
            Step::Respond(
                WireResponse {
                    id: many.id,
                    status: status::MISS,
                    op: op::GET_MANY,
                    payload,
                    message,
                },
            )
        },
        Ok(StoreGet::Hit { tier, payload }) => {
            let number: u8 = match tier {
                HitTier::ObjectStore => 2,
                HitTier::Foyer => many.tier,
            };
            let tiered = ManyGet {
                id: many.id,
                namespace: many.namespace,
                keys: many.keys,
                next: many.next,
                items: many.items,
                tier: number,
            };
            assert(many_at_tier(many, tier_with(many.tier, tier), tiered));
            match parse_large_manifest(bytes_slice(&payload)) {
                None => add_to_many(config, tiered, payload),
                Some(manifest) => {
                    let read = LargeRead::new(manifest);
                    let step = continue_many_chunks(config, tiered, read);
                    assert(many_chunks_continue(config, tiered, read, step));
                    step
                },
            }
        },
    }
}

fn after_many_chunk(
    config: DispatchConfig,
    many: ManyGet,
    read: LargeRead,
    got: Result<StoreGet, String>,
) -> (step: Step)
    requires
        many.next < many.keys@.len(),
        read.next < read.manifest.chunk_count,
    ensures
        many_chunk_continues(config, many, read, got, step),
{
    let idx: usize = read.next;
    match got {
        Err(source) => {
            let mut cause = String::new();
            cause.push_str("get chunk ");
            push_dec(&mut cause, idx as u128);
            cause.push_str(": ");
            cause.push_str(&source);
            assert(cause@ =~= "get chunk "@ + dec(idx as nat) + ": "@ + source@);
            Step::Respond(failed(many.id, op::GET_MANY, "get_many large payload: ", &cause))
        },
        Ok(StoreGet::Miss) => {
            let mut after = read;
            let cause: String = match after.feed(ChunkReply::Miss) {
                Err(error) => error.to_text(),
                Ok(()) => String::new(),
            };
            Step::Respond(failed(many.id, op::GET_MANY, "get_many large payload: ", &cause))
        },
        Ok(StoreGet::Hit { tier: _, payload }) => {
            let mut after = read;
            let fed = after.feed(ChunkReply::Hit(copy_bytes(bytes_slice(&payload))));
            let step = continue_many_chunks(config, many, after);
            assert(read_with(read, bytes_of(payload), after));
            assert(many_chunks_continue(config, many, after, step));
            step
        },
    }
}

/// Builds what is said of a block that could not be fetched or stored.
fn block_failure(call: &str, op: &str, key: &str, fault: &BlockFault) -> (text: String)
    ensures
        text@ == block_fault_text(call@, op@, key@, *fault),
{
    let mut text = String::new();
    match fault {
        BlockFault::Store(message) => {
            text.push_str(call);
            text.push_str(" ");
            text.push_str(key);
            text.push_str(": ");
            text.push_str(message);
        },
        BlockFault::Panicked => {
            text.push_str(op);
            text.push_str(" thread panic");
        },
    }
    assert(text@ =~= block_fault_text(call@, op@, key@, *fault));
    text
}

fn after_blocks_got(
    id: u64,
    keys: &[String],
    results: &[Result<Option<Vec<u8>>, BlockFault>],
) -> (step: Step)
    requires
        keys@.len() == results@.len(),
    ensures
        match blocks_fate(keys@, results@, 0) {
            BlocksFate::All(payloads) => blocks_found(step, id, Some(payloads)),
            BlocksFate::Missing => blocks_found(step, id, None),
            BlocksFate::Failed(message) => blocks_error(step, id, message),
        },
{
    let mut items: Vec<Vec<u8>> = Vec::new();
    let ghost whole = blocks_fate(keys@, results@, 0);
    let mut i: usize = 0;
    proof {
        if let BlocksFate::All(rest) = whole {
            assert(blobs(items@) + rest =~= rest);
        }
    }
    while i < results.len()
        invariant
            i <= results@.len(),
            keys@.len() == results@.len(),
            whole == blocks_fate(keys@, results@, 0),
            match blocks_fate(keys@, results@, i as nat) {
                BlocksFate::All(rest) => whole == BlocksFate::All(blobs(items@) + rest),
                other => whole == other,
            },
        decreases results@.len() - i,
    {
        let ghost before = items@;
        match &results[i] {
            Ok(Some(payload)) => {
                items.push(copy_bytes(payload));
                proof {
                    assert(blobs(items@) =~= blobs(before).push(payload@));
                    if let BlocksFate::All(rest) = blocks_fate(keys@, results@, (i + 1) as nat) {
                        assert(blobs(before) + (seq![payload@] + rest) =~= blobs(items@) + rest);
                    }
                }
            },
            Ok(None) => {
                return blocks_response(id, None, None);
            },
            Err(fault) => {
                let message = block_failure("get_kv", "get_kv_blocks_batch", &keys[i], fault);
                return blocks_response(id, None, Some(message));
            },
        }
        i = i + 1;
    }
    assert(blobs(items@) + Seq::<Seq<u8>>::empty() =~= blobs(items@));
    blocks_response(id, Some(items), None)
}

fn sum_sizes(sizes: &[u64]) -> (total: u64)
    ensures
        total == saturating_total(as_numbers(sizes@)),
{
    let ghost all = as_numbers(sizes@);
    let mut total: u64 = 0;
    let mut i: usize = 0;
    while i < sizes.len()
        invariant
            i <= sizes@.len(),
            all == as_numbers(sizes@),
            total == saturating_total(all.take(i as int)),
        decreases sizes@.len() - i,
    {
        total = total.saturating_add(sizes[i]);
        assert(all.take(i + 1).drop_last() =~= all.take(i as int));
        i = i + 1;
    }
    assert(all.take(i as int) =~= all);
    total
}

fn after_blocks_stored(
    id: u64,
    keys: &[String],
    hashes: Vec<[u8; 32]>,
    sizes: Vec<u64>,
    results: &[Result<(), BlockFault>],
) -> (step: Step)
    requires
        keys@.len() == results@.len(),
    ensures
        match first_error(keys@, results@, 0) {
            Some(message) => put_blocks_error(step, id, message),
            None => {
                &&& step matches Step::Act { action, then }
                &&& action == (Action::IndexBlocks { hashes, sizes })
                &&& then matches Stage::Indexing { id: i, total }
                &&& i == id
                &&& total == saturating_total(as_numbers(sizes@))
            },
        },
{
    let mut i: usize = 0;
    while i < results.len()
        invariant
            i <= results@.len(),
            keys@.len() == results@.len(),
            first_error(keys@, results@, 0) == first_error(keys@, results@, i as nat),
        decreases results@.len() - i,
    {
        match &results[i] {
            Ok(_) => {},
            Err(fault) => {
                let message = block_failure("put_kv", "put_kv_blocks_batch", &keys[i], fault);
                return put_blocks_response(id, 0, Some(message));
            },
        }
        i = i + 1;
    }
    let total: u64 = sum_sizes(&sizes);
    Step::Act { action: Action::IndexBlocks { hashes, sizes }, then: Stage::Indexing { id, total } }
}

/// Go on after a piece of work.
pub fn resume(config: DispatchConfig, stage: Stage, event: Event) -> (step: Step)
    requires
        awaits(stage, event),
    ensures
        resumes(config, stage, event, step),
{
    match (stage, event) {
        (Stage::Spawning { id, namespace, key, payload }, Event::Spawned(spawned)) => if spawned {
            Step::Respond(ok_response(id, op::PUT))
        } else {
            put(id, namespace, key, payload)
        },
        (Stage::Putting { id, namespace, key, payload }, Event::Stored(stored)) => after_put(
            config,
            id,
            namespace,
            key,
            payload,
            stored,
        ),
        (Stage::LookingUp { id, namespace, key }, Event::SlabFound(slab)) => match slab {
            Some(s) => Step::Respond(arena_response(id, op::GET, s)),
            None => get(id, namespace, key),
        },
        (Stage::Getting { id, namespace, key }, Event::Got(got)) => after_get(
            config,
            id,
            namespace,
            key,
            got,
        ),
        (Stage::Chunk { target, read, goal }, Event::Got(got)) => after_chunk(
            target,
            read,
            goal,
            got,
        ),
        (Stage::Slab { id, tier, goal }, Event::SlabWritten(written)) => {
            let slab: Option<ArenaSlab> = match written {
                Ok(slab) => slab,
                Err(_) => None,
            };
            Step::Respond(goal_response(id, tier, goal, slab))
        },
        (Stage::Many { many }, Event::Got(got)) => after_many_get(config, many, got),
        (Stage::ManyChunk { many, read }, Event::Got(got)) => after_many_chunk(
            config,
            many,
            read,
            got,
        ),
        (Stage::ManySlab { id, batch, tier }, Event::SlabWritten(written)) => match written {
            Ok(Some(slab)) => Step::Respond(arena_response(id, op::GET_MANY, slab)),
            _ => Step::Respond(batch_response(id, &batch, tier)),
        },
        (Stage::Existing { id }, Event::Found(found)) => match found {
            Ok(true) => Step::Respond(ok_response(id, op::EXISTS)),
            Ok(false) => {
                let payload: Vec<u8> = Vec::new();
                Step::Respond(
                    WireResponse {
                        id,
                        status: status::MISS,
                        op: op::EXISTS,
                        payload,
                        message: String::new(),
                    },
                )
            },
            Err(message) => Step::Respond(failed(id, op::EXISTS, "exists: ", &message)),
        },
        (Stage::Listing { id }, Event::Listed(listed)) => match listed {
            Ok(keys) => Step::Respond(
                WireResponse {
                    id,
                    status: status::OK,
                    op: op::LIST,
                    payload: encode_key_batch(&keys),
                    message: crate::text::dec_text(keys.len() as u128),
                },
            ),
            Err(message) => Step::Respond(failed(id, op::LIST, "list: ", &message)),
        },
        (Stage::Measuring { id }, Event::Metrics(message)) => {
            let payload: Vec<u8> = Vec::new();
            Step::Respond(
                WireResponse { id, status: status::OK, op: op::STATS, payload, message },
            )
        },
        (Stage::Clearing { id }, Event::Done) => match config.arena_min_bytes {
            Some(_) => Step::Act { action: Action::ClearSlabs, then: Stage::ClearingSlabs { id } },
            None => Step::Respond(ok_response(id, op::CLEAR)),
        },
        (Stage::ClearingSlabs { id }, Event::Done) => Step::Respond(ok_response(id, op::CLEAR)),
        (Stage::Restoring { id }, Event::Restored(restored)) => match restored {
            Ok(count) => {
                let payload: Vec<u8> = Vec::new();
                Step::Respond(
                    WireResponse {
                        id,
                        status: status::OK,
                        op: op::RESTORE,
                        payload,
                        message: crate::text::dec_text(count as u128),
                    },
                )
            },
            Err(message) => Step::Respond(failed(id, op::RESTORE, "restore: ", &message)),
        },
        (Stage::Matching { id }, Event::Matched(count)) => {
            let matched: u32 = if count <= u32::MAX as usize {
                count as u32
            } else {
                u32::MAX
            };
            lookup_response(id, matched, None)
        },
        (Stage::GettingBlocks { id, keys }, Event::BlocksGot(results)) => {
            after_blocks_got(id, &keys, &results)
        },
        (Stage::PuttingBlocks { id, keys, hashes, sizes }, Event::BlocksStored(results)) => {
            after_blocks_stored(id, &keys, hashes, sizes, &results)
        },
        (Stage::Indexing { id, total }, Event::Done) => put_blocks_response(id, total, None),
        _ => Step::Respond(ok_response(0, op::PING)),
    }
}

// ---- laws ----

/// A response whose message only names a tier carries its payload, and the client
/// reads the first tier out of it exactly where the number is one.
pub proof fn tier_reply_read_back(
    id: u64,
    code: u8,
    op_code: u8,
    tier: u8,
    payload: Seq<u8>,
    arena: Option<Seq<u8>>,
)
    ensures
        ({
            let response = reply(id, code, op_code, payload, tier_message(tier));
            &&& carried_bytes(response, arena) == Ok::<Seq<u8>, RemoteFault>(payload)
            &&& tier_of(response.message) == if tier == 1 {
                RemoteHitTier::Foyer
            } else {
                RemoteHitTier::ObjectStore
            }
        }),
{
    let message = tier_message(tier);
    lemma_tier_part(tier);
    lemma_split_whole(message, ';');
    let parts = split_char(message, ';');
    assert(parts =~= seq![message]);
    assert(parts.drop_first() =~= Seq::<Seq<char>>::empty());
    assert(arena_field(parts.drop_first()) is None);
    lemma_tier_known(parts, tier);
}

/// The response that carries a value in its payload gives the client that value
/// and the tier it came from, whatever arena the client has mapped.
pub proof fn payload_reply_read_back(
    id: u64,
    tier: HitTier,
    payload: Seq<u8>,
    arena: Option<Seq<u8>>,
)
    ensures
        ({
            let response = reply(id, status::OK, op::GET, payload, tier_message(tier_number(tier)));
            &&& carried_bytes(response, arena) == Ok::<Seq<u8>, RemoteFault>(payload)
            &&& tier_of(response.message) == if tier == HitTier::Foyer {
                RemoteHitTier::Foyer
            } else {
                RemoteHitTier::ObjectStore
            }
        }),
{
    tier_reply_read_back(id, status::OK, op::GET, tier_number(tier), payload, arena);
}

/// The part of a message that names a tier holds no separator, is no slab
/// reference, and is `tier:1` for the first tier only.
proof fn lemma_tier_part(tier: u8)
    ensures
        absent(tier_message(tier), ';'),
        !"arena:"@.is_prefix_of(tier_message(tier)),
        tier_message(tier) == "tier:1"@ <==> tier == 1,
{
    reveal_strlit("tier:");
    reveal_strlit("tier:1");
    reveal_strlit("arena:");
    lemma_dec_digits(tier as nat);
    let message = tier_message(tier);
    assert forall|i: int| 0 <= i < message.len() implies #[trigger] message[i] != ';' by {
        if i >= 5 {
            assert(message[i] == dec(tier as nat)[i - 5]);
        }
    }
    if "arena:"@.is_prefix_of(message) {
        assert("arena:"@[0] == message.subrange(0, 6)[0]);
    }
    if message == "tier:1"@ {
        assert(dec(tier as nat) =~= message.skip(5));
        assert(dec(tier as nat) =~= seq!['1']);
        assert(dec(1) =~= seq!['1']);
        lemma_dec_value(tier as nat);
        lemma_dec_value(1);
    }
    if tier == 1 {
        assert(dec(1) =~= seq!['1']);
        assert(message =~= "tier:1"@);
    }
}

proof fn lemma_tier_known(parts: Seq<Seq<char>>, tier: u8)
    requires
        parts.len() == 1,
        parts[0] == tier_message(tier),
    ensures
        parts.contains("tier:1"@) <==> tier == 1,
{
    lemma_tier_part(tier);
    if tier == 1 {
        assert(parts[0] == "tier:1"@);
    }
}

/// The response that refers to a slab gives a client with the arena mapped the
/// bytes of the slab, and the slab's tier.
pub proof fn slab_reply_read_back(id: u64, op_code: u8, slab: ArenaSlab, region: Seq<u8>)
    requires
        ARENA_HEADER_BYTES <= slab.offset,
        slab.offset + slab.len <= region.len(),
    ensures
        ({
            let response = slab_reply(id, op_code, slab);
            &&& arena_ref_of(response.message) == Some((slab.offset as nat, slab.len as nat))
            &&& carried_bytes(response, Some(region)) == Ok::<Seq<u8>, RemoteFault>(
                region.subrange(slab.offset as int, slab.offset + slab.len),
            )
            &&& tier_of(response.message) == if slab.tier == 1 {
                RemoteHitTier::Foyer
            } else {
                RemoteHitTier::ObjectStore
            }
        }),
{
    let message = slab_reply(id, op_code, slab).message;
    let first = tier_message(slab.tier);
    let offset = dec(slab.offset as nat);
    let len = dec(slab.len as nat);
    let second = "arena:"@ + offset + ":"@ + len;
    reveal_strlit(";arena:");
    reveal_strlit("arena:");
    reveal_strlit(":");
    reveal_strlit("tier:1");
    assert(message =~= first + seq![';'] + second);
    lemma_tier_part(slab.tier);
    lemma_split_first(first, ';', second);
    lemma_dec_digits(slab.offset as nat);
    lemma_dec_digits(slab.len as nat);
    assert forall|i: int| 0 <= i < second.len() implies #[trigger] second[i] != ';' by {
        if 6 <= i < 6 + offset.len() {
            assert(second[i] == offset[i - 6]);
        } else if i > 6 + offset.len() {
            assert(second[i] == len[i - 7 - offset.len()]);
        }
    }
    lemma_split_whole(second, ';');
    let parts = split_char(message, ';');
    assert(parts =~= seq![first, second]);
    assert(parts.drop_first() =~= seq![second]);
    assert("arena:"@ =~= second.subrange(0, 6));
    let encoded = second.skip(6);
    assert(encoded =~= offset + seq![':'] + len);
    assert(arena_field(parts.drop_first()) == Some(encoded));
    assert(absent(offset, ':'));
    assert(absent(len, ':'));
    lemma_split_first(offset, ':', len);
    lemma_split_whole(len, ':');
    let fields = split_char(encoded, ':');
    assert(fields =~= seq![offset, len]);
    lemma_dec_parses(slab.offset as nat, u64::MAX as nat);
    lemma_dec_parses(slab.len as nat, u32::MAX as nat);
    assert(second[0] == 'a' && "tier:1"@[0] == 't');
    if slab.tier == 1 {
        assert(parts[0] == "tier:1"@);
    } else if parts.contains("tier:1"@) {
        let i = choose|i: int| 0 <= i < parts.len() && parts[i] == "tier:1"@;
        assert(parts[i] == first || parts[i] == second);
    }
}

/// A get asks the store for what a put handed to it: the same namespace and key.
/// The put hands over its payload as it is, now or in the background.
pub proof fn value_is_got_where_it_is_put(
    config: DispatchConfig,
    put: RequestFields,
    get: RequestFields,
    putting: Step,
    getting: Step,
)
    requires
        config.arena_min_bytes is None,
        put.op == op::PUT,
        get.op == op::GET,
        put.namespace == get.namespace,
        put.key == get.key,
        starts(config, put, putting),
        starts(config, get, getting),
    ensures
        gets(get.id, put.namespace, put.key, getting),
        if config.async_put {
            spawns(put.id, put.namespace, put.key, put.payload, putting)
        } else {
            puts(put.id, put.namespace, put.key, put.payload, putting)
        },
{
}

/// A value that the store has is what the client of a get receives, with its
/// tier, where the daemon has no arena.
pub proof fn stored_value_is_served(
    config: DispatchConfig,
    id: u64,
    namespace: String,
    key: String,
    tier: HitTier,
    payload: Bytes,
    step: Step,
    arena: Option<Seq<u8>>,
)
    requires
        config.arena_min_bytes is None,
        resumes(
            config,
            Stage::Getting { id, namespace, key },
            Event::Got(Ok(StoreGet::Hit { tier, payload })),
            step,
        ),
    ensures
        step matches Step::Respond(response) && {
            &&& response.id == id
            &&& response.status == status::OK
            &&& carried_bytes(response@, arena) == Ok::<Seq<u8>, RemoteFault>(bytes_of(payload))
            &&& tier_of(response.message@) == if tier == HitTier::Foyer {
                RemoteHitTier::Foyer
            } else {
                RemoteHitTier::ObjectStore
            }
        },
{
    payload_reply_read_back(id, tier, bytes_of(payload), arena);
}

/// A value that was written to the arena is what the client of a get receives,
/// as long as the slab holds it.
pub proof fn slab_value_is_served(
    config: DispatchConfig,
    id: u64,
    tier: u8,
    payload: Bytes,
    slab: ArenaSlab,
    step: Step,
    region: Seq<u8>,
    value: Seq<u8>,
)
    requires
        ARENA_HEADER_BYTES <= slab.offset,
        slab.offset + slab.len <= region.len(),
        region.subrange(slab.offset as int, slab.offset + slab.len) == value,
        resumes(
            config,
            Stage::Slab { id, tier, goal: Goal::Get { payload } },
            Event::SlabWritten(Ok(Some(slab))),
            step,
        ),
    ensures
        step matches Step::Respond(response) && response.id == id && response.status == status::OK
            && carried_bytes(response@, Some(region)) == Ok::<Seq<u8>, RemoteFault>(value),
{
    slab_reply_read_back(id, op::GET, slab, region);
}

/// The values of a batched get are what its client receives: the daemon asks for
/// the keys one after the other and, where the store has them all and has each
/// in one piece, answers with the values in the order of the keys.
pub proof fn batched_values_are_served(
    config: DispatchConfig,
    many: ManyGet,
    tiers: Seq<HitTier>,
    payloads: Seq<Bytes>,
    steps: Seq<Step>,
    arena: Option<Seq<u8>>,
)
    requires
        config.arena_min_bytes is None,
        many.next == 0,
        many.items@ == Seq::<Bytes>::empty(),
        payloads.len() == many.keys@.len(),
        tiers.len() == payloads.len(),
        steps.len() == payloads.len() + 1,
        many_continues(config, many, steps[0]),
        values_got(config, tiers, payloads, steps),
        bytes_batch_bytes(buffers(payloads)).len() + 256 <= FRAME_DATA_BYTES,
    ensures
        forall|i: int|
            0 <= i < payloads.len() ==> (#[trigger] steps[i] matches Step::Act {
                action: Action::GetKv { namespace, key },
                ..
            } && namespace@ == many.namespace@ && key@ == many.keys@[i]@),
        steps.last() matches Step::Respond(response) && {
            &&& response.id == many.id
            &&& response.status == status::OK
            &&& carried_bytes(response@, arena) matches Ok(batch)
            &&& bytes_batch_decoded(batch) == Ok::<Seq<Seq<u8>>, WireFault>(buffers(payloads))
        },
{
    assert forall|i: int| 0 <= i < payloads.len() implies (#[trigger] steps[i] matches Step::Act {
        action: Action::GetKv { namespace, key },
        ..
    } && namespace@ == many.namespace@ && key@ == many.keys@[i]@) by {
        let at = lemma_many_progress(config, many, tiers, payloads, steps, i as nat);
    }
    let at = lemma_many_progress(config, many, tiers, payloads, steps, payloads.len());
    let items = buffers(payloads);
    assert(buffers(payloads.take(payloads.len() as int)) =~= items);
    lemma_batch_holds_items(items);
    bytes_batch_round_trip(items);
    let message = tier_message(at.tier);
    lemma_tier_part(at.tier);
    lemma_split_whole(message, ';');
    let parts = split_char(message, ';');
    assert(parts =~= seq![message]);
    assert(parts.drop_first() =~= Seq::<Seq<char>>::empty());
    assert(arena_field(parts.drop_first()) is None);
}

/// Each step but the last is followed by the store's answer to it: a value in
/// one piece.
pub open spec fn values_got(
    config: DispatchConfig,
    tiers: Seq<HitTier>,
    payloads: Seq<Bytes>,
    steps: Seq<Step>,
) -> bool {
    forall|i: int|
        0 <= i < payloads.len() ==> {
            let got = StoreGet::Hit { tier: tiers[i], payload: #[trigger] payloads[i] };
            manifest_parsed(bytes_of(payloads[i])) is None && resumes(
                config,
                steps[i]->then,
                Event::Got(Ok(got)),
                steps[i + 1],
            )
        }
}

proof fn lemma_many_progress(
    config: DispatchConfig,
    many: ManyGet,
    tiers: Seq<HitTier>,
    payloads: Seq<Bytes>,
    steps: Seq<Step>,
    n: nat,
) -> (at: ManyGet)
    requires
        many.next == 0,
        many.items@ == Seq::<Bytes>::empty(),
        payloads.len() == many.keys@.len(),
        tiers.len() == payloads.len(),
        steps.len() == payloads.len() + 1,
        many_continues(config, many, steps[0]),
        values_got(config, tiers, payloads, steps),
        n <= payloads.len(),
    ensures
        at.id == many.id,
        at.namespace == many.namespace,
        at.keys == many.keys,
        at.next == n,
        buffers(at.items@) == buffers(payloads.take(n as int)),
        many_continues(config, at, steps[n as int]),
    decreases n,
{
    if n == 0 {
        assert(buffers(many.items@) =~= buffers(payloads.take(0)));
        many
    } else {
        let last = n as int - 1;
        let before = lemma_many_progress(config, many, tiers, payloads, steps, (n - 1) as nat);
        let value = payloads[last];
        let tier = tier_with(before.tier, tiers[last]);
        assert(steps[last]->then == (Stage::Many { many: before }));
        let tiered = choose|tiered: ManyGet|
            #![trigger many_at_tier(before, tier, tiered)]
            many_at_tier(before, tier, tiered) && many_adds(
                config,
                tiered,
                bytes_of(value),
                steps[n as int],
            );
        let after = choose|after: ManyGet|
            many_with(tiered, bytes_of(value), after) && #[trigger] many_continues(
                config,
                after,
                steps[n as int],
            );
        assert(payloads.take(n as int) =~= payloads.take(last).push(value));
        assert(buffers(payloads.take(n as int)) =~= buffers(payloads.take(last)).push(
            bytes_of(value),
        ));
        after
    }
}

/// The count that the index answers is what the client of a lookup receives; a
/// count that does not fit the wire is cut to the largest that does.
pub proof fn matched_count_is_served(config: DispatchConfig, id: u64, count: usize, step: Step)
    requires
        resumes(config, Stage::Matching { id }, Event::Matched(count), step),
    ensures
        step matches Step::Respond(response) && {
            &&& response.id == id
            &&& response.status == status::OK
            &&& lookup_resp_decoded(response.payload@) == Some(
                CountFields {
                    count: if count <= u32::MAX {
                        count as nat
                    } else {
                        u32::MAX as nat
                    },
                    error: None,
                },
            )
        },
{
}

/// Blocks that the store has are what the client of a block get receives, all
/// of them and in the order in which they were asked for.
pub proof fn stored_blocks_are_served(
    config: DispatchConfig,
    id: u64,
    keys: Vec<String>,
    results: Vec<Result<Option<Vec<u8>>, BlockFault>>,
    payloads: Seq<Seq<u8>>,
    step: Step,
)
    requires
        resumes(config, Stage::GettingBlocks { id, keys }, Event::BlocksGot(results), step),
        results@.len() == payloads.len(),
        forall|i: int|
            0 <= i < payloads.len() ==> (#[trigger] results@[i] matches Ok(Some(payload))
                && payload@ == payloads[i]),
        payloads_fit(PayloadsFields { payloads: Some(payloads), error: None }),
    ensures
        step matches Step::Respond(response) && {
            &&& response.id == id
            &&& response.status == status::OK
            &&& get_resp_decoded(response.payload@) == Some(
                PayloadsFields { payloads: Some(payloads), error: None },
            )
        },
{
    lemma_all_blocks(keys@, results@, payloads, 0);
    assert(payloads.skip(0) =~= payloads);
}

proof fn lemma_all_blocks(
    keys: Seq<String>,
    results: Seq<Result<Option<Vec<u8>>, BlockFault>>,
    payloads: Seq<Seq<u8>>,
    from: nat,
)
    requires
        results.len() == payloads.len(),
        from <= results.len(),
        forall|i: int|
            0 <= i < payloads.len() ==> (#[trigger] results[i] matches Ok(Some(payload))
                && payload@ == payloads[i]),
    ensures
        blocks_fate(keys, results, from) == BlocksFate::All(payloads.skip(from as int)),
    decreases results.len() - from,
{
    if from < results.len() {
        lemma_all_blocks(keys, results, payloads, from + 1);
        assert(payloads.skip(from as int) =~= seq![payloads[from as int]] + payloads.skip(
            from as int + 1,
        ));
    } else {
        assert(payloads.skip(from as int) =~= Seq::empty());
    }
}

/// A block that the store does not have makes a block get a miss: the client
/// receives none of the blocks.
pub proof fn missing_block_is_a_miss(
    config: DispatchConfig,
    id: u64,
    keys: Vec<String>,
    results: Vec<Result<Option<Vec<u8>>, BlockFault>>,
    missing: nat,
    step: Step,
)
    requires
        resumes(config, Stage::GettingBlocks { id, keys }, Event::BlocksGot(results), step),
        missing < results@.len(),
        results@[missing as int] == Ok::<Option<Vec<u8>>, BlockFault>(None),
        forall|i: int|
            0 <= i < missing ==> (#[trigger] results@[i] matches Ok(Some(_))),
    ensures
        step matches Step::Respond(response) && {
            &&& response.id == id
            &&& response.status == status::OK
            &&& get_resp_decoded(response.payload@) == Some(
                PayloadsFields { payloads: None, error: None },
            )
        },
{
    lemma_missing_block(keys@, results@, missing, 0);
}

proof fn lemma_missing_block(
    keys: Seq<String>,
    results: Seq<Result<Option<Vec<u8>>, BlockFault>>,
    missing: nat,
    from: nat,
)
    requires
        from <= missing < results.len(),
        results[missing as int] == Ok::<Option<Vec<u8>>, BlockFault>(None),
        forall|i: int| 0 <= i < missing ==> (#[trigger] results[i] matches Ok(Some(_))),
    ensures
        blocks_fate(keys, results, from) is Missing,
    decreases missing - from,
{
    if from < missing {
        lemma_missing_block(keys, results, missing, from + 1);
    }
}

/// Once all blocks of a put are stored they are indexed, and the client is told
/// how many bytes they are together.
pub proof fn stored_total_is_served(
    config: DispatchConfig,
    id: u64,
    keys: Vec<String>,
    hashes: Vec<[u8; 32]>,
    sizes: Vec<u64>,
    results: Vec<Result<(), BlockFault>>,
    indexing: Step,
    step: Step,
)
    requires
        resumes(
            config,
            Stage::PuttingBlocks { id, keys, hashes, sizes },
            Event::BlocksStored(results),
            indexing,
        ),
        forall|i: int| 0 <= i < results@.len() ==> (#[trigger] results@[i]) is Ok,
        resumes(config, indexing->then, Event::Done, step),
    ensures
        indexing matches Step::Act { action, then } && action == (Action::IndexBlocks {
            hashes,
            sizes,
        }),
        step matches Step::Respond(response) && {
            &&& response.id == id
            &&& response.status == status::OK
            &&& put_resp_decoded(response.payload@) == Some(
                CountFields { count: saturating_total(as_numbers(sizes@)), error: None },
            )
        },
{
    lemma_no_error(keys@, results@, 0);
}

proof fn lemma_no_error(keys: Seq<String>, results: Seq<Result<(), BlockFault>>, from: nat)
    requires
        from <= results.len(),
        forall|i: int| 0 <= i < results.len() ==> (#[trigger] results[i]) is Ok,
    ensures
        first_error(keys, results, from) is None,
    decreases results.len() - from,
{
    if from < results.len() {
        lemma_no_error(keys, results, from + 1);
    }
}

/// A block put of which a block could not be stored indexes nothing: it is
/// answered at once, with an error.
pub proof fn failed_put_is_not_indexed(
    config: DispatchConfig,
    id: u64,
    keys: Vec<String>,
    hashes: Vec<[u8; 32]>,
    sizes: Vec<u64>,
    results: Vec<Result<(), BlockFault>>,
    unlucky: nat,
    step: Step,
)
    requires
        resumes(
            config,
            Stage::PuttingBlocks { id, keys, hashes, sizes },
            Event::BlocksStored(results),
            step,
        ),
        unlucky < results@.len(),
        results@[unlucky as int] is Err,
    ensures
        step !is Act,
        step matches Step::Respond(response) ==> response.id == id && response.status
            == status::ERROR,
{
    lemma_first_error(keys@, results@, unlucky, 0);
}

proof fn lemma_first_error(
    keys: Seq<String>,
    results: Seq<Result<(), BlockFault>>,
    unlucky: nat,
    from: nat,
)
    requires
        from <= unlucky < results.len(),
        results[unlucky as int] is Err,
    ensures
        first_error(keys, results, from) is Some,
    decreases unlucky - from,
{
    if from < unlucky {
        lemma_first_error(keys, results, unlucky, from + 1);
    }
}

/// A block get looks where a block put stored: under the same keys of the same
/// namespace, in the same order.
pub proof fn blocks_are_got_where_they_are_put(
    put: RequestFields,
    get: RequestFields,
    fields: PutFields,
    putting: Step,
    getting: Step,
)
    requires
        put_blocks_starts(put.id, put.payload, putting),
        get_blocks_starts(get.id, get.payload, getting),
        put_req_decoded(put.payload) == Some(fields),
        fields.hashes.len() == fields.payloads.len(),
        hashes_parsed(fields.hashes) is Ok,
        get_req_decoded(get.payload) == Some(
            HashListFields { namespace: fields.namespace, hashes: fields.hashes },
        ),
    ensures
        putting matches Step::Act {
            action: Action::PutBlocks { namespace: n1, keys: k1, payloads },
            ..
        } && getting matches Step::Act { action: Action::GetBlocks { namespace: n2, keys: k2 }, .. }
            && n1@ == n2@ && texts(k1@) == texts(k2@) && k1@.len() == k2@.len() && blobs(payloads@)
            == fields.payloads,
{
    assert(putting is Act && getting is Act);
    let a = putting->action;
    let b = getting->action;
    assert(texts(a->PutBlocks_keys@).len() == texts(b->GetBlocks_keys@).len());
}

/// The request that a stage serves.
pub open spec fn stage_id(stage: Stage) -> u64 {
    match stage {
        Stage::Spawning { id, .. } => id,
        Stage::Putting { id, .. } => id,
        Stage::LookingUp { id, .. } => id,
        Stage::Getting { id, .. } => id,
        Stage::Chunk { target, .. } => target.id,
        Stage::Slab { id, .. } => id,
        Stage::Many { many } => many.id,
        Stage::ManyChunk { many, .. } => many.id,
        Stage::ManySlab { id, .. } => id,
        Stage::Existing { id } => id,
        Stage::Listing { id } => id,
        Stage::Measuring { id } => id,
        Stage::Clearing { id } => id,
        Stage::ClearingSlabs { id } => id,
        Stage::Restoring { id } => id,
        Stage::Matching { id } => id,
        Stage::GettingBlocks { id, .. } => id,
        Stage::PuttingBlocks { id, .. } => id,
        Stage::Indexing { id, .. } => id,
    }
}

/// The operation that a goal belongs to.
pub open spec fn goal_op(goal: Goal) -> u8 {
    match goal {
        Goal::Put => op::PUT,
        Goal::Get { .. } => op::GET,
    }
}

/// The operation that a stage serves.
pub open spec fn stage_op(stage: Stage) -> u8 {
    match stage {
        Stage::Spawning { .. } => op::PUT,
        Stage::Putting { .. } => op::PUT,
        Stage::LookingUp { .. } => op::GET,
        Stage::Getting { .. } => op::GET,
        Stage::Chunk { goal, .. } => goal_op(goal),
        Stage::Slab { goal, .. } => goal_op(goal),
        Stage::Many { .. } => op::GET_MANY,
        Stage::ManyChunk { .. } => op::GET_MANY,
        Stage::ManySlab { .. } => op::GET_MANY,
        Stage::Existing { .. } => op::EXISTS,
        Stage::Listing { .. } => op::LIST,
        Stage::Measuring { .. } => op::STATS,
        Stage::Clearing { .. } => op::CLEAR,
        Stage::ClearingSlabs { .. } => op::CLEAR,
        Stage::Restoring { .. } => op::RESTORE,
        Stage::Matching { .. } => op::LOOKUP_BLOCK_PREFIX,
        Stage::GettingBlocks { .. } => op::GET_KV_BLOCKS_BATCH,
        Stage::PuttingBlocks { .. } => op::PUT_KV_BLOCKS_BATCH,
        Stage::Indexing { .. } => op::PUT_KV_BLOCKS_BATCH,
    }
}

/// Whether a step serves a request: it answers with the request's id and
/// operation, goes on with them, or gives them up.
pub open spec fn serves(step: Step, id: u64, op_code: u8) -> bool {
    match step {
        Step::Respond(response) => response.id == id && response.op == op_code,
        Step::Act { action, then } => stage_id(then) == id && stage_op(then) == op_code,
        Step::Overlong { id: i, op: o } => i == id && o == op_code,
    }
}

/// How much work may still be ahead of a stage, as a pair in lexicographic order.
pub open spec fn work_ahead(stage: Stage) -> (int, int) {
    match stage {
        Stage::Spawning { .. } => (3, 0),
        Stage::Putting { .. } => (2, 0),
        Stage::LookingUp { .. } => (3, 0),
        Stage::Getting { .. } => (2, 0),
        Stage::Chunk { read, .. } => (1, read.manifest.chunk_count - read.next),
        Stage::Many { many } => (2 * (many.keys@.len() - many.next) + 1, 0),
        Stage::ManyChunk { many, read } => (
            2 * (many.keys@.len() - many.next),
            read.manifest.chunk_count - read.next,
        ),
        Stage::Clearing { .. } => (1, 0),
        Stage::PuttingBlocks { .. } => (1, 0),
        _ => (0, 0),
    }
}

/// Whether one amount of work is less than another; none is less than nothing.
pub open spec fn less_work(a: (int, int), b: (int, int)) -> bool {
    &&& 0 <= a.0
    &&& 0 <= a.1
    &&& a.0 < b.0 || (a.0 == b.0 && a.1 < b.1)
}

/// Whether a step leaves less work ahead than an amount, if any.
pub open spec fn leaves_less(step: Step, than: (int, int)) -> bool {
    step matches Step::Act { action, then } ==> less_work(work_ahead(then), than)
}

proof fn lemma_lookup_answer_serves(step: Step, id: u64, fields: CountFields)
    requires
        lookup_answered(step, id, fields),
    ensures
        serves(step, id, op::LOOKUP_BLOCK_PREFIX),
{
}

proof fn lemma_blocks_answer_serves(step: Step, id: u64, fields: PayloadsFields)
    requires
        blocks_answered(step, id, fields),
    ensures
        serves(step, id, op::GET_KV_BLOCKS_BATCH),
{
}

proof fn lemma_put_answer_serves(step: Step, id: u64, fields: CountFields)
    requires
        put_blocks_answered(step, id, fields),
    ensures
        serves(step, id, op::PUT_KV_BLOCKS_BATCH),
{
}

proof fn lemma_undecoded_serves(
    step: Step,
    id: u64,
    op_code: u8,
    prefix: Seq<char>,
    payload: Seq<u8>,
    magic: Seq<u8>,
    name: Seq<char>,
)
    requires
        decode_reply(step, id, op_code, prefix, payload, magic, name),
    ensures
        serves(step, id, op_code),
{
}

#[verifier::spinoff_prover]
proof fn lemma_lookup_start_serves(id: u64, payload: Seq<u8>, step: Step)
    requires
        lookup_starts(id, payload, step),
    ensures
        serves(step, id, op::LOOKUP_BLOCK_PREFIX),
{
    match lookup_req_decoded(payload) {
        None => {
            lemma_undecoded_serves(
                step,
                id,
                op::LOOKUP_BLOCK_PREFIX,
                "decode lookup_block_prefix req: "@,
                payload,
                LOOKUP_BLOCK_PREFIX_REQ_MAGIC@,
                "lookup_block_prefix_req"@,
            );
        },
        Some(fields) => match hashes_parsed(fields.hashes) {
            Err(message) => {
                lemma_lookup_answer_serves(
                    step,
                    id,
                    CountFields { count: 0, error: Some(message) },
                );
            },
            Ok(_) => {
                assert(step is Act);
            },
        },
    }
}

#[verifier::spinoff_prover]
proof fn lemma_get_start_serves(id: u64, payload: Seq<u8>, step: Step)
    requires
        get_blocks_starts(id, payload, step),
    ensures
        serves(step, id, op::GET_KV_BLOCKS_BATCH),
{
    match get_req_decoded(payload) {
        None => {
            lemma_undecoded_serves(
                step,
                id,
                op::GET_KV_BLOCKS_BATCH,
                "decode get_kv_blocks_batch req: "@,
                payload,
                GET_KV_BLOCKS_BATCH_REQ_MAGIC@,
                "get_kv_blocks_batch_req"@,
            );
        },
        Some(fields) => match hashes_parsed(fields.hashes) {
            Err(message) => {
                lemma_blocks_answer_serves(
                    step,
                    id,
                    PayloadsFields { payloads: None, error: Some(message) },
                );
            },
            Ok(_) => {
                assert(step matches Step::Act { action, then } && then is GettingBlocks);
            },
        },
    }
}

#[verifier::spinoff_prover]
proof fn lemma_put_start_serves(id: u64, payload: Seq<u8>, step: Step)
    requires
        put_blocks_starts(id, payload, step),
    ensures
        serves(step, id, op::PUT_KV_BLOCKS_BATCH),
{
    match put_req_decoded(payload) {
        None => {
            lemma_undecoded_serves(
                step,
                id,
                op::PUT_KV_BLOCKS_BATCH,
                "decode put_kv_blocks_batch req: "@,
                payload,
                PUT_KV_BLOCKS_BATCH_REQ_MAGIC@,
                "put_kv_blocks_batch_req"@,
            );
        },
        Some(fields) => if fields.hashes.len() != fields.payloads.len() {
            let message = count_mismatch(fields.hashes.len(), fields.payloads.len());
            lemma_put_answer_serves(step, id, CountFields { count: 0, error: Some(message) });
        } else {
            match hashes_parsed(fields.hashes) {
                Err(message) => {
                    lemma_put_answer_serves(
                        step,
                        id,
                        CountFields { count: 0, error: Some(message) },
                    );
                },
                Ok(_) => {
                    assert(step matches Step::Act { action, then } && then is PuttingBlocks);
                },
            }
        },
    }
}

proof fn lemma_many_serves(config: DispatchConfig, many: ManyGet, step: Step)
    requires
        many.next <= many.keys@.len(),
        many_continues(config, many, step),
    ensures
        serves(step, many.id, op::GET_MANY),
        leaves_less(step, (2 * (many.keys@.len() - many.next) + 2, 0)),
{
}

proof fn lemma_many_adds_serves(
    config: DispatchConfig,
    many: ManyGet,
    value: Seq<u8>,
    step: Step,
)
    requires
        many.next < many.keys@.len(),
        many_adds(config, many, value, step),
    ensures
        serves(step, many.id, op::GET_MANY),
        leaves_less(step, (2 * (many.keys@.len() - many.next), 0)),
{
    let after = choose|after: ManyGet|
        many_with(many, value, after) && #[trigger] many_continues(config, after, step);
    lemma_many_serves(config, after, step);
}

proof fn lemma_many_chunks_serve(
    config: DispatchConfig,
    many: ManyGet,
    read: LargeRead,
    step: Step,
)
    requires
        many.next < many.keys@.len(),
        many_chunks_continue(config, many, read, step),
    ensures
        serves(step, many.id, op::GET_MANY),
        leaves_less(
            step,
            (
                2 * (many.keys@.len() - many.next),
                read.manifest.chunk_count - read.next + 1,
            ),
        ),
{
    if read.next >= read.manifest.chunk_count && read.out@.len() == read.manifest.total_len {
        lemma_many_adds_serves(config, many, read.out@, step);
    }
}

proof fn lemma_chunks_serve(target: Target, read: LargeRead, goal: Goal, step: Step)
    requires
        chunks_continue(target, read, goal, step),
    ensures
        serves(step, target.id, goal_op(goal)),
        leaves_less(step, (1, read.manifest.chunk_count - read.next + 1)),
{
}

proof fn lemma_materializing_serves(
    min_bytes: usize,
    target: Target,
    payload: Seq<u8>,
    goal: Goal,
    step: Step,
)
    requires
        materializes(min_bytes, target, payload, goal, step),
    ensures
        serves(step, target.id, goal_op(goal)),
        leaves_less(step, (2, 0)),
{
    if let Some(manifest) = manifest_parsed(payload) {
        if manifest.total_len >= min_bytes {
            let read = choose|read: LargeRead|
                read.manifest@ == manifest && read.next == 0 && read.out@ == Seq::<u8>::empty()
                    && #[trigger] chunks_continue(target, read, goal, step);
            lemma_chunks_serve(target, read, goal, step);
        }
    }
}

/// However a request starts to be served, the response will carry its id and
/// its operation.
pub proof fn request_is_answered(config: DispatchConfig, request: RequestFields, step: Step)
    requires
        starts(config, request, step),
    ensures
        serves(step, request.id, request.op),
{
    let id = request.id;
    if request.op == op::GET_MANY {
        if let Ok(keys) = key_batch_decoded(request.payload) {
            let many = choose|many: ManyGet|
                many.id == id && many.namespace@ == request.namespace && texts(many.keys@) == keys
                    && many.next == 0 && many.items@ == Seq::<Bytes>::empty() && many.tier == 1
                    && #[trigger] many_continues(config, many, step);
            lemma_many_serves(config, many, step);
        }
    } else if request.op == op::LOOKUP_BLOCK_PREFIX {
        lemma_lookup_start_serves(id, request.payload, step);
    } else if request.op == op::GET_KV_BLOCKS_BATCH {
        lemma_get_start_serves(id, request.payload, step);
    } else if request.op == op::PUT_KV_BLOCKS_BATCH {
        lemma_put_start_serves(id, request.payload, step);
    }
}

proof fn lemma_got_serves(
    config: DispatchConfig,
    id: u64,
    namespace: Seq<char>,
    key: Seq<char>,
    got: Result<StoreGet, String>,
    step: Step,
)
    requires
        got_continues(config, id, namespace, key, got, step),
    ensures
        serves(step, id, op::GET),
        leaves_less(step, (2, 0)),
{
    if let Ok(StoreGet::Hit { tier, payload }) = got {
        if let Some(min_bytes) = config.arena_min_bytes {
            let (target, goal) = choose|target: Target, goal: Goal|
                target.id == id && target.namespace@ == namespace && target.key@ == key
                    && target.tier == tier_number(tier) && goal_is_get(goal, bytes_of(payload))
                    && #[trigger] materializes(min_bytes, target, bytes_of(payload), goal, step);
            lemma_materializing_serves(min_bytes, target, bytes_of(payload), goal, step);
        }
    }
}

proof fn lemma_stored_serves(
    config: DispatchConfig,
    id: u64,
    namespace: Seq<char>,
    key: Seq<char>,
    payload: Seq<u8>,
    stored: Result<(), String>,
    step: Step,
)
    requires
        stored_continues(config, id, namespace, key, payload, stored, step),
    ensures
        serves(step, id, op::PUT),
        leaves_less(step, (2, 0)),
{
    if let Ok(_) = stored {
        if let Some(min_bytes) = config.arena_min_bytes {
            let target = choose|target: Target|
                target.id == id && target.namespace@ == namespace && target.key@ == key
                    && target.tier == 1 && #[trigger] materializes(
                    min_bytes,
                    target,
                    payload,
                    Goal::Put,
                    step,
                );
            lemma_materializing_serves(min_bytes, target, payload, Goal::Put, step);
        }
    }
}

proof fn lemma_chunk_serves(
    target: Target,
    read: LargeRead,
    goal: Goal,
    got: Result<StoreGet, String>,
    step: Step,
)
    requires
        read.next < read.manifest.chunk_count,
        chunk_continues(target, read, goal, got, step),
    ensures
        serves(step, target.id, goal_op(goal)),
        leaves_less(step, (1, read.manifest.chunk_count - read.next)),
{
    if let Ok(StoreGet::Hit { tier, payload }) = got {
        let after = choose|after: LargeRead|
            read_with(read, bytes_of(payload), after) && #[trigger] chunks_continue(
                target,
                after,
                goal,
                step,
            );
        lemma_chunks_serve(target, after, goal, step);
    }
}

proof fn lemma_many_got_serves(
    config: DispatchConfig,
    many: ManyGet,
    got: Result<StoreGet, String>,
    step: Step,
)
    requires
        many.next < many.keys@.len(),
        many_got_continues(config, many, got, step),
    ensures
        serves(step, many.id, op::GET_MANY),
        leaves_less(step, (2 * (many.keys@.len() - many.next) + 1, 0)),
{
    if let Ok(StoreGet::Hit { tier, payload }) = got {
        let parsed = manifest_parsed(bytes_of(payload));
        let tiered = choose|tiered: ManyGet|
            #![trigger many_at_tier(many, tier_with(many.tier, tier), tiered)]
            many_at_tier(many, tier_with(many.tier, tier), tiered) && match parsed {
                None => many_adds(config, tiered, bytes_of(payload), step),
                Some(manifest) => exists|read: LargeRead|
                    read.manifest@ == manifest && read.next == 0 && read.out@ == Seq::<u8>::empty()
                        && #[trigger] many_chunks_continue(config, tiered, read, step),
            };
        match parsed {
            None => {
                lemma_many_adds_serves(config, tiered, bytes_of(payload), step);
            },
            Some(manifest) => {
                let read = choose|read: LargeRead|
                    read.manifest@ == manifest && read.next == 0 && read.out@ == Seq::<u8>::empty()
                        && #[trigger] many_chunks_continue(config, tiered, read, step);
                lemma_many_chunks_serve(config, tiered, read, step);
            },
        }
    }
}

proof fn lemma_many_chunk_serves(
    config: DispatchConfig,
    many: ManyGet,
    read: LargeRead,
    got: Result<StoreGet, String>,
    step: Step,
)
    requires
        many.next < many.keys@.len(),
        read.next < read.manifest.chunk_count,
        many_chunk_continues(config, many, read, got, step),
    ensures
        serves(step, many.id, op::GET_MANY),
        leaves_less(
            step,
            (2 * (many.keys@.len() - many.next), read.manifest.chunk_count - read.next),
        ),
{
    if let Ok(StoreGet::Hit { tier, payload }) = got {
        let after = choose|after: LargeRead|
            read_with(read, bytes_of(payload), after) && #[trigger] many_chunks_continue(
                config,
                many,
                after,
                step,
            );
        lemma_many_chunks_serve(config, many, after, step);
    }
}

/// However serving goes on, it stays with the request it began with, and there is
/// less work ahead after each piece of work: it ends.
pub proof fn service_stays_with_request(
    config: DispatchConfig,
    stage: Stage,
    event: Event,
    step: Step,
)
    requires
        awaits(stage, event),
        resumes(config, stage, event, step),
    ensures
        serves(step, stage_id(stage), stage_op(stage)),
        leaves_less(step, work_ahead(stage)),
{
    match (stage, event) {
        (Stage::Putting { id, namespace, key, payload }, Event::Stored(stored)) => {
            lemma_stored_serves(config, id, namespace@, key@, bytes_of(payload), stored, step);
        },
        (Stage::Getting { id, namespace, key }, Event::Got(got)) => {
            lemma_got_serves(config, id, namespace@, key@, got, step);
        },
        (Stage::Chunk { target, read, goal }, Event::Got(got)) => {
            lemma_chunk_serves(target, read, goal, got, step);
        },
        (Stage::Many { many }, Event::Got(got)) => {
            lemma_many_got_serves(config, many, got, step);
        },
        (Stage::ManyChunk { many, read }, Event::Got(got)) => {
            lemma_many_chunk_serves(config, many, read, got, step);
        },
        (Stage::GettingBlocks { id, keys }, Event::BlocksGot(results)) => match blocks_fate(
            keys@,
            results@,
            0,
        ) {
            BlocksFate::All(payloads) => {
                lemma_blocks_answer_serves(
                    step,
                    id,
                    PayloadsFields { payloads: Some(payloads), error: None },
                );
            },
            BlocksFate::Missing => {
                lemma_blocks_answer_serves(
                    step,
                    id,
                    PayloadsFields { payloads: None, error: None },
                );
            },
            BlocksFate::Failed(message) => {
                lemma_blocks_answer_serves(
                    step,
                    id,
                    PayloadsFields { payloads: None, error: Some(message) },
                );
            },
        },
        (Stage::PuttingBlocks { id, keys, .. }, Event::BlocksStored(results)) => {
            if let Some(message) = first_error(keys@, results@, 0) {
                lemma_put_answer_serves(step, id, CountFields { count: 0, error: Some(message) });
            }
        },
        (Stage::Indexing { id, total }, Event::Done) => {
            lemma_put_answer_serves(step, id, CountFields { count: total as nat, error: None });
        },
        _ => {},
    }
}

/// In a run that starts with a request, each step answers the request or goes on
/// with it, so that what is sent at the end carries its id and its operation; and
/// the work ahead shrinks from step to step, so that the run ends.
pub proof fn request_is_served_to_the_end(
    config: DispatchConfig,
    request: RequestFields,
    steps: Seq<Step>,
    events: Seq<Event>,
    k: int,
)
    requires
        steps.len() == events.len() + 1,
        starts(config, request, steps[0]),
        forall|i: int|
            0 <= i < events.len() ==> {
                &&& #[trigger] steps[i] matches Step::Act { action, then }
                &&& awaits(then, events[i])
                &&& resumes(config, then, events[i], steps[i + 1])
            },
        0 <= k < steps.len(),
    ensures
        serves(steps[k], request.id, request.op),
        k > 0 ==> leaves_less(steps[k], work_ahead(steps[k - 1]->then)),
    decreases k,
{
    if k == 0 {
        request_is_answered(config, request, steps[0]);
    } else {
        request_is_served_to_the_end(config, request, steps, events, k - 1);
        let before = steps[k - 1];
        assert(before is Act);
        service_stays_with_request(config, before->then, events[k - 1], steps[k - 1 + 1]);
    }
}

} // verus!
