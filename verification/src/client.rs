//! The client of the daemon's shared-memory transport: what each call sends,
//! what each answer means, and when the client gives the daemon up.

use bytes::Bytes;
use vstd::prelude::*;

use crate::arena::{arena_error_text, ArenaError, ArenaReader, ARENA_HEADER_BYTES};
use crate::blocks::{
    archive_fault, count_mismatch, count_mismatch_text, decode_get_kv_blocks_batch_resp,
    decode_lookup_block_prefix_resp, decode_put_kv_blocks_batch_resp, encode_get_kv_blocks_batch_req, encode_lookup_block_prefix_req,
    encode_put_kv_blocks_batch_req, framed, get_req_decoded, get_resp_decoded, hash_list_archive,
    hash_list_fits, hash_list_in_bounds, hash_list_short, lookup_req_decoded, lookup_resp_decoded,
    put_archive, put_fits, put_in_bounds, put_req_decoded, put_resp_decoded, put_short, undecodable,
    CountFields, GetKvBlocksBatchReq, HashListFields, LookupBlockPrefixReq, PayloadsFields,
    PutFields, PutKvBlocksBatchReq,
};
use crate::large::{
    blake3_hex_of, chunk_count, chunk_count_of, chunk_key_text, chunk_of, id_input, large_chunk_key,
    large_fault_text, large_manifest, large_payload_id, manifest_parsed, manifest_text,
    parse_large_manifest, LargeError, LargeFault, LargeRead, ManifestFields, LARGE_CHUNK_BYTES,
};
use crate::le::copy_bytes;
use crate::message::{RequestFields, ResponseFields, WireRequest, WireResponse};
use crate::{op, status};
use crate::text::{
    absent, blobs, char_parts, chars_of, chars_start_with, copy_chars, debug_of, debug_text, dec,
    duration_of, duration_text, is_digit, lemma_dec_digits, lemma_dec_parses, lemma_split_first,
    lemma_split_whole, parse_error_text, parse_uint, parse_usize, parsed_uint, push_dec, same_chars,
    split_at_char, split_char, texts,
};
use crate::wire::{
    buffers, bytes_batch_bytes, bytes_batch_decoded, bytes_from, bytes_of, bytes_slice,
    decode_bytes_batch, encode_bytes_batch, encode_key_batch, fits_one_frame, key_batch_bytes,
    wire_fault_text, WireCodecError, WireFault, DEFAULT_RING_DEPTH, FRAME_DATA_BYTES,
    GET_KV_BLOCKS_BATCH_REQ_MAGIC, GET_KV_BLOCKS_BATCH_RESP_MAGIC, LOOKUP_BLOCK_PREFIX_REQ_MAGIC,
    LOOKUP_BLOCK_PREFIX_RESP_MAGIC, PUT_KV_BLOCKS_BATCH_REQ_MAGIC, PUT_KV_BLOCKS_BATCH_RESP_MAGIC,
};

verus! {

/// Default deadline for a single client call, in milliseconds.
pub const DEFAULT_CALL_TIMEOUT_MILLIS: u64 = 30_000;

/// Tier the daemon served the value from.
#[derive(Debug, Clone, Copy, PartialEq, Eq, Structural)]
pub enum RemoteHitTier {
    Foyer,
    ObjectStore,
}

/// Outcome of a get.
#[derive(Debug, Clone)]
pub enum RemoteGetOutcome {
    Hit { tier: RemoteHitTier, payload: Bytes },
    Miss,
}

/// Errors surfaced by the client.
#[derive(Debug)]
pub enum RemoteError {
    /// Failed to attach to the ring. Daemon may not be running.
    Connect(String),
    /// Worker thread panicked or quit unexpectedly.
    WorkerGone,
    /// Transport-level error during a single request.
    Transport(String),
    /// Daemon returned a non-OK status.
    DaemonStatus { status: u8, message: String },
    /// Reply did not arrive within the configured number of milliseconds.
    Timeout(u64),
    /// The client previously timed out and is now in dead state.
    BackendUnavailable,
}

/// The contents of a [`RemoteError`].
pub enum RemoteFault {
    Connect(Seq<char>),
    WorkerGone,
    Transport(Seq<char>),
    DaemonStatus { status: u8, message: Seq<char> },
    Timeout(u64),
    BackendUnavailable,
}

impl View for RemoteError {
    type V = RemoteFault;

    open spec fn view(&self) -> RemoteFault {
        match *self {
            RemoteError::Connect(text) => RemoteFault::Connect(text@),
            RemoteError::WorkerGone => RemoteFault::WorkerGone,
            RemoteError::Transport(text) => RemoteFault::Transport(text@),
            RemoteError::DaemonStatus { status, message } => RemoteFault::DaemonStatus {
                status,
                message: message@,
            },
            RemoteError::Timeout(millis) => RemoteFault::Timeout(millis),
            RemoteError::BackendUnavailable => RemoteFault::BackendUnavailable,
        }
    }
}

/// The displayed text of a client error.
pub open spec fn remote_fault_text(fault: RemoteFault) -> Seq<char> {
    match fault {
        RemoteFault::Connect(text) => "remote connect: "@ + text,
        RemoteFault::WorkerGone => "remote worker thread gone"@,
        RemoteFault::Transport(text) => "remote transport: "@ + text,
        RemoteFault::DaemonStatus { status, message } => "daemon status "@ + dec(status as nat)
            + ": "@ + message,
        RemoteFault::Timeout(millis) => "remote call timed out after "@ + duration_of(millis as nat),
        RemoteFault::BackendUnavailable => "remote backend unavailable (client in dead state)"@,
    }
}

impl RemoteError {
    /// The error in words.
    pub fn to_text(&self) -> (text: String)
        ensures
            text@ == remote_fault_text(self@),
    {
        let mut text = String::new();
        match self {
            RemoteError::Connect(source) => {
                text.push_str("remote connect: ");
                text.push_str(source);
            },
            RemoteError::WorkerGone => {
                text.push_str("remote worker thread gone");
            },
            RemoteError::Transport(source) => {
                text.push_str("remote transport: ");
                text.push_str(source);
            },
            RemoteError::DaemonStatus { status, message } => {
                text.push_str("daemon status ");
                push_dec(&mut text, *status as u128);
                text.push_str(": ");
                text.push_str(message);
            },
            RemoteError::Timeout(millis) => {
                text.push_str("remote call timed out after ");
                text.push_str(&duration_text(*millis));
            },
            RemoteError::BackendUnavailable => {
                text.push_str("remote backend unavailable (client in dead state)");
            },
        }
        assert(text@ =~= remote_fault_text(self@));
        text
    }
}

/// Tunable options of a client.
#[derive(Debug, Clone)]
pub struct ClientOptions {
    /// Per-call deadline in milliseconds.
    pub call_timeout_millis: u64,
    /// Ring depth; must match the daemon's.
    pub depth: usize,
}

impl Default for ClientOptions {
    fn default() -> (options: ClientOptions)
        ensures
            options.call_timeout_millis == DEFAULT_CALL_TIMEOUT_MILLIS,
            options.depth == DEFAULT_RING_DEPTH,
    {
        ClientOptions {
            call_timeout_millis: DEFAULT_CALL_TIMEOUT_MILLIS,
            depth: DEFAULT_RING_DEPTH,
        }
    }
}

// ---- liveness ----

/// Whether a client still serves calls. The first call that times out ends it.
#[derive(Debug)]
pub struct CallState {
    dead: bool,
}

/// How waiting for a call's answer ended.
pub enum CallEvent<T> {
    /// The worker answered.
    Answered(Result<T, RemoteError>),
    /// The deadline passed first.
    TimedOut,
    /// The worker is gone: it could not be asked or dropped the question.
    Gone,
}

impl CallState {
    /// Whether the client has given its daemon up.
    pub closed spec fn spec_dead(&self) -> bool {
        self.dead
    }

    /// A client that serves calls.
    pub fn new() -> (state: CallState)
        ensures
            !state.spec_dead(),
    {
        CallState { dead: false }
    }

    /// Returns `true` if the client has timed out and stopped serving new
    /// requests.
    pub fn is_dead(&self) -> (dead: bool)
        ensures
            dead == self.spec_dead(),
    {
        self.dead
    }

    /// Refuses calls of a dead client.
    pub fn check_alive(&self) -> (alive: Result<(), RemoteError>)
        ensures
            match alive {
                Ok(_) => !self.spec_dead(),
                Err(error) => self.spec_dead() && error is BackendUnavailable,
            },
    {
        if self.dead {
            Err(RemoteError::BackendUnavailable)
        } else {
            Ok(())
        }
    }

    /// What a call returns once waiting for its answer has ended. A timeout
    /// marks the client dead; a dead client stays dead.
    pub fn settle<T>(&mut self, event: CallEvent<T>, timeout_millis: u64) -> (result: Result<
        T,
        RemoteError,
    >)
        ensures
            match event {
                CallEvent::Answered(answer) => result == answer && final(self).spec_dead() == old(
                    self,
                ).spec_dead(),
                CallEvent::TimedOut => result == Err::<T, RemoteError>(
                    RemoteError::Timeout(timeout_millis),
                ) && final(self).spec_dead(),
                CallEvent::Gone => result == Err::<T, RemoteError>(RemoteError::WorkerGone)
                    && final(self).spec_dead() == old(self).spec_dead(),
            },
            old(self).spec_dead() ==> final(self).spec_dead(),
    {
        match event {
            CallEvent::Answered(answer) => answer,
            CallEvent::TimedOut => {
                self.dead = true;
                Err(RemoteError::Timeout(timeout_millis))
            },
            CallEvent::Gone => Err(RemoteError::WorkerGone),
        }
    }
}

// ---- requests ----

/// What the worker is asked to do.
#[derive(Debug)]
pub enum Command {
    Put { namespace: String, key: String, payload: Bytes },
    Get { namespace: String, key: String },
    GetMany { namespace: String, keys: Vec<String> },
    Exists { namespace: String, key: String },
    List { namespace: String },
    Restore { namespace: String },
    Clear,
    Ping,
    Stats,
    LookupBlockPrefix { namespace: String, block_hashes_hex: Vec<String> },
    GetKvBlocksBatch { namespace: String, block_hashes_hex: Vec<String> },
    PutKvBlocksBatch {
        namespace: String,
        block_hashes_hex: Vec<String>,
        payloads: Vec<Vec<u8>>,
    },
    Shutdown,
}

/// Whether an archive can be made of a command's payload, where it takes one.
pub open spec fn command_fits(command: Command) -> bool {
    match command {
        Command::LookupBlockPrefix { namespace, block_hashes_hex } => hash_list_fits(
            HashListFields { namespace: namespace@, hashes: texts(block_hashes_hex@) },
        ),
        Command::GetKvBlocksBatch { namespace, block_hashes_hex } => hash_list_fits(
            HashListFields { namespace: namespace@, hashes: texts(block_hashes_hex@) },
        ),
        Command::PutKvBlocksBatch { namespace, block_hashes_hex, payloads } => {
            block_hashes_hex@.len() == payloads@.len() ==> put_fits(
                PutFields {
                    namespace: namespace@,
                    hashes: texts(block_hashes_hex@),
                    payloads: blobs(payloads@),
                },
            )
        },
        _ => true,
    }
}

impl Command {
    /// Whether an archive can be made of the command's payload.
    pub fn fits(&self) -> (fits: bool)
        ensures
            fits == command_fits(*self),
    {
        match self {
            Command::LookupBlockPrefix { namespace, block_hashes_hex } => hash_list_in_bounds(
                namespace,
                block_hashes_hex,
            ),
            Command::GetKvBlocksBatch { namespace, block_hashes_hex } => hash_list_in_bounds(
                namespace,
                block_hashes_hex,
            ),
            Command::PutKvBlocksBatch { namespace, block_hashes_hex, payloads } => {
                block_hashes_hex.len() != payloads.len() || put_in_bounds(
                    namespace,
                    block_hashes_hex,
                    payloads,
                )
            },
            _ => true,
        }
    }
}

/// A request with the given fields and no key.
pub open spec fn plain_request(
    id: u64,
    op: u8,
    namespace: Seq<char>,
    key: Seq<char>,
    payload: Seq<u8>,
) -> RequestFields {
    RequestFields { id, op, namespace, key, payload }
}

/// Whether a built request is the one for a command, and a failure the right
/// failure: only the block-shaped commands can fail, when a text in their payload
/// is too long for an archive or a put has not one payload per hash.
pub open spec fn request_matches(
    command: Command,
    id: u64,
    built: Result<RequestFields, RemoteFault>,
) -> bool {
    let nothing = Seq::<char>::empty();
    let no_bytes = Seq::<u8>::empty();
    match command {
        Command::Put { namespace, key, payload } => built == Ok::<RequestFields, RemoteFault>(
            plain_request(id, op::PUT, namespace@, key@, bytes_of(payload)),
        ),
        Command::Get { namespace, key } => built == Ok::<RequestFields, RemoteFault>(
            plain_request(id, op::GET, namespace@, key@, no_bytes),
        ),
        Command::GetMany { namespace, keys } => built == Ok::<RequestFields, RemoteFault>(
            plain_request(id, op::GET_MANY, namespace@, nothing, key_batch_bytes(texts(keys@))),
        ),
        Command::Exists { namespace, key } => built == Ok::<RequestFields, RemoteFault>(
            plain_request(id, op::EXISTS, namespace@, key@, no_bytes),
        ),
        Command::List { namespace } => built == Ok::<RequestFields, RemoteFault>(
            plain_request(id, op::LIST, namespace@, nothing, no_bytes),
        ),
        Command::Restore { namespace } => built == Ok::<RequestFields, RemoteFault>(
            plain_request(id, op::RESTORE, namespace@, nothing, no_bytes),
        ),
        Command::Clear => built == Ok::<RequestFields, RemoteFault>(
            plain_request(id, op::CLEAR, nothing, nothing, no_bytes),
        ),
        Command::Ping => built == Ok::<RequestFields, RemoteFault>(
            plain_request(id, op::PING, nothing, nothing, no_bytes),
        ),
        Command::Stats => built == Ok::<RequestFields, RemoteFault>(
            plain_request(id, op::STATS, nothing, nothing, no_bytes),
        ),
        Command::Shutdown => built == Ok::<RequestFields, RemoteFault>(
            plain_request(id, op::CLOSE, nothing, nothing, no_bytes),
        ),
        Command::LookupBlockPrefix { namespace, block_hashes_hex } => {
            let fields = HashListFields { namespace: namespace@, hashes: texts(block_hashes_hex@) };
            match built {
                Ok(request) => request == plain_request(
                    id,
                    op::LOOKUP_BLOCK_PREFIX,
                    namespace@,
                    nothing,
                    request.payload,
                ) && lookup_req_decoded(request.payload) == Some(fields) && framed(
                    LOOKUP_BLOCK_PREFIX_REQ_MAGIC@,
                    hash_list_archive(fields),
                ) == Some(request.payload),
                Err(fault) => !hash_list_short(fields) && hash_list_archive(fields) is None
                    && encode_failure(fault, "lookup_block_prefix_req"@),
            }
        },
        Command::GetKvBlocksBatch { namespace, block_hashes_hex } => {
            let fields = HashListFields { namespace: namespace@, hashes: texts(block_hashes_hex@) };
            match built {
                Ok(request) => request == plain_request(
                    id,
                    op::GET_KV_BLOCKS_BATCH,
                    namespace@,
                    nothing,
                    request.payload,
                ) && get_req_decoded(request.payload) == Some(fields) && framed(
                    GET_KV_BLOCKS_BATCH_REQ_MAGIC@,
                    hash_list_archive(fields),
                ) == Some(request.payload),
                Err(fault) => !hash_list_short(fields) && hash_list_archive(fields) is None
                    && encode_failure(fault, "get_kv_blocks_batch_req"@),
            }
        },
        Command::PutKvBlocksBatch { namespace, block_hashes_hex, payloads } => {
            let fields = PutFields {
                namespace: namespace@,
                hashes: texts(block_hashes_hex@),
                payloads: blobs(payloads@),
            };
            match built {
                Ok(request) => block_hashes_hex@.len() == payloads@.len() && request
                    == plain_request(
                    id,
                    op::PUT_KV_BLOCKS_BATCH,
                    namespace@,
                    nothing,
                    request.payload,
                ) && put_req_decoded(request.payload) == Some(fields) && framed(
                    PUT_KV_BLOCKS_BATCH_REQ_MAGIC@,
                    put_archive(fields),
                ) == Some(request.payload),
                Err(fault) => if block_hashes_hex@.len() != payloads@.len() {
                    fault == RemoteFault::Transport(
                        wire_fault_text(
                            WireFault::BodyLengthMismatch {
                                what: "put_kv_blocks_batch_req"@,
                                claimed: block_hashes_hex@.len(),
                                actual: payloads@.len(),
                            },
                        ),
                    )
                } else {
                    !put_short(fields) && put_archive(fields) is None && encode_failure(
                        fault,
                        "put_kv_blocks_batch_req"@,
                    )
                },
            }
        },
    }
}

/// Whether a failure reports that a payload of the given op could not be
/// archived.
pub open spec fn encode_failure(fault: RemoteFault, op: Seq<char>) -> bool {
    exists|cause: WireFault| #[trigger]
        archive_fault(cause, op) && fault == RemoteFault::Transport(wire_fault_text(cause))
}

/// The fields of a built request, or the failure.
pub open spec fn built_fields(built: Result<WireRequest, RemoteError>) -> Result<
    RequestFields,
    RemoteFault,
> {
    match built {
        Ok(request) => Ok(request@),
        Err(error) => Err(error@),
    }
}

/// Takes the next request id; ids wrap around.
pub fn take_id(next: &mut u64) -> (id: u64)
    ensures
        id == *old(next),
        *final(next) == (*old(next) + 1) % 0x1_0000_0000_0000_0000,
{
    let id: u64 = *next;
    *next = id.wrapping_add(1);
    id
}

/// Builds a request.
fn request(id: u64, op: u8, namespace: String, key: String, payload: Vec<u8>) -> (request:
    WireRequest)
    ensures
        request@ == plain_request(id, op, namespace@, key@, payload@),
{
    WireRequest { id, op, namespace, key, payload }
}

/// Builds the request for a command under the next id. The id is used up even
/// where no request can be built.
pub fn begin_command(next_id: &mut u64, command: Command) -> (built: Result<
    WireRequest,
    RemoteError,
>)
    requires
        command_fits(command),
    ensures
        *final(next_id) == (*old(next_id) + 1) % 0x1_0000_0000_0000_0000,
        request_matches(command, *old(next_id), built_fields(built)),
{
    let id: u64 = take_id(next_id);
    let none: Vec<u8> = Vec::new();
    match command {
        Command::Put { namespace, key, payload } => Ok(
            request(id, op::PUT, namespace, key, copy_bytes(bytes_slice(&payload))),
        ),
        Command::Get { namespace, key } => Ok(request(id, op::GET, namespace, key, none)),
        Command::GetMany { namespace, keys } => Ok(
            request(id, op::GET_MANY, namespace, String::new(), encode_key_batch(&keys)),
        ),
        Command::Exists { namespace, key } => Ok(request(id, op::EXISTS, namespace, key, none)),
        Command::List { namespace } => Ok(request(id, op::LIST, namespace, String::new(), none)),
        Command::Restore { namespace } => Ok(
            request(id, op::RESTORE, namespace, String::new(), none),
        ),
        Command::Clear => Ok(request(id, op::CLEAR, String::new(), String::new(), none)),
        Command::Ping => Ok(request(id, op::PING, String::new(), String::new(), none)),
        Command::Stats => Ok(request(id, op::STATS, String::new(), String::new(), none)),
        Command::Shutdown => Ok(request(id, op::CLOSE, String::new(), String::new(), none)),
        Command::LookupBlockPrefix { namespace, block_hashes_hex } => {
            let req = LookupBlockPrefixReq { namespace: namespace.clone(), block_hashes_hex };
            match encode_lookup_block_prefix_req(&req) {
                Ok(payload) => Ok(
                    request(id, op::LOOKUP_BLOCK_PREFIX, namespace, String::new(), payload),
                ),
                Err(error) => {
                    proof {
                        assert(archive_fault(error@, "lookup_block_prefix_req"@));
                    }
                    Err(RemoteError::Transport(error.to_text()))
                },
            }
        },
        Command::GetKvBlocksBatch { namespace, block_hashes_hex } => {
            let req = GetKvBlocksBatchReq { namespace: namespace.clone(), block_hashes_hex };
            match encode_get_kv_blocks_batch_req(&req) {
                Ok(payload) => Ok(
                    request(id, op::GET_KV_BLOCKS_BATCH, namespace, String::new(), payload),
                ),
                Err(error) => {
                    proof {
                        assert(archive_fault(error@, "get_kv_blocks_batch_req"@));
                    }
                    Err(RemoteError::Transport(error.to_text()))
                },
            }
        },
        Command::PutKvBlocksBatch { namespace, block_hashes_hex, payloads } => {
            let req = PutKvBlocksBatchReq {
                namespace: namespace.clone(),
                block_hashes_hex,
                payloads,
            };
            match encode_put_kv_blocks_batch_req(&req) {
                Ok(payload) => Ok(
                    request(id, op::PUT_KV_BLOCKS_BATCH, namespace, String::new(), payload),
                ),
                Err(error) => {
                    proof {
                        if req.block_hashes_hex@.len() == req.payloads@.len() {
                            assert(archive_fault(error@, "put_kv_blocks_batch_req"@));
                        }
                    }
                    Err(RemoteError::Transport(error.to_text()))
                },
            }
        },
    }
}

// ---- answers ----

/// Accepts the response to a request only if it carries the request's id.
pub fn accept_response(request_id: u64, response: WireResponse) -> (accepted: Result<
    WireResponse,
    RemoteError,
>)
    ensures
        response.id == request_id ==> accepted == Ok::<WireResponse, RemoteError>(response),
        response.id != request_id ==> (accepted matches Err(error) && error@
            == RemoteFault::Transport(
            "response id mismatch: req="@ + dec(request_id as nat) + " resp="@ + dec(
                response.id as nat,
            ),
        )),
{
    if response.id != request_id {
        let mut text = String::new();
        text.push_str("response id mismatch: req=");
        push_dec(&mut text, request_id as u128);
        text.push_str(" resp=");
        push_dec(&mut text, response.id as u128);
        assert(text@ =~= "response id mismatch: req="@ + dec(request_id as nat) + " resp="@ + dec(
            response.id as nat,
        ));
        return Err(RemoteError::Transport(text));
    }
    Ok(response)
}

/// The failure that a response with an unexpected status reports.
pub open spec fn status_fault(response: ResponseFields) -> RemoteFault {
    RemoteFault::DaemonStatus { status: response.status, message: response.message }
}

/// Whether a result is what a put, clear or ping makes of a response.
pub open spec fn unit_finished(response: ResponseFields, result: Result<(), RemoteError>) -> bool {
    match result {
        Ok(_) => response.status == status::OK,
        Err(error) => response.status != status::OK && error@ == status_fault(response),
    }
}

/// What a put, clear or ping is answered.
pub fn finish_unit(response: WireResponse) -> (result: Result<(), RemoteError>)
    ensures
        unit_finished(response@, result),
{
    if response.status == status::OK {
        Ok(())
    } else {
        Err(RemoteError::DaemonStatus { status: response.status, message: response.message })
    }
}

/// Whether a result is what an exists makes of a response.
pub open spec fn exists_finished(
    response: ResponseFields,
    result: Result<bool, RemoteError>,
) -> bool {
    match result {
        Ok(found) => response.status == if found {
            status::OK
        } else {
            status::MISS
        },
        Err(error) => response.status != status::OK && response.status != status::MISS
            && error@ == status_fault(response),
    }
}

/// What an exists is answered.
pub fn finish_exists(response: WireResponse) -> (result: Result<bool, RemoteError>)
    ensures
        exists_finished(response@, result),
{
    if response.status == status::OK {
        Ok(true)
    } else if response.status == status::MISS {
        Ok(false)
    } else {
        Err(RemoteError::DaemonStatus { status: response.status, message: response.message })
    }
}

/// Whether a result is what a list makes of a response.
pub open spec fn list_finished(
    response: ResponseFields,
    result: Result<Bytes, RemoteError>,
) -> bool {
    match result {
        Ok(batch) => response.status == status::OK && bytes_of(batch) == response.payload,
        Err(error) => response.status != status::OK && error@ == status_fault(response),
    }
}

/// What a list is answered: the daemon's encoded key batch.
pub fn finish_list(response: WireResponse) -> (result: Result<Bytes, RemoteError>)
    ensures
        list_finished(response@, result),
{
    if response.status == status::OK {
        Ok(bytes_from(response.payload))
    } else {
        Err(RemoteError::DaemonStatus { status: response.status, message: response.message })
    }
}

/// Whether a result is what a stats call makes of a response.
pub open spec fn stats_finished(
    response: ResponseFields,
    result: Result<String, RemoteError>,
) -> bool {
    match result {
        Ok(text) => response.status == status::OK && text@ == response.message,
        Err(error) => response.status != status::OK && error@ == status_fault(response),
    }
}

/// What a stats call is answered: the message.
pub fn finish_stats(response: WireResponse) -> (result: Result<String, RemoteError>)
    ensures
        stats_finished(response@, result),
{
    if response.status == status::OK {
        Ok(response.message)
    } else {
        Err(RemoteError::DaemonStatus { status: response.status, message: response.message })
    }
}

/// Whether a result is what a restore makes of a response.
pub open spec fn restore_finished(
    response: ResponseFields,
    result: Result<usize, RemoteError>,
) -> bool {
    match result {
        Ok(count) => response.status == status::OK && parsed_uint(
            response.message,
            usize::MAX as nat,
        ) == Some(count as nat),
        Err(error) => if response.status != status::OK {
            error@ == status_fault(response)
        } else {
            parsed_uint(response.message, usize::MAX as nat) is None && error@
                == RemoteFault::Transport(
                "restore count parse: "@ + parse_error_text(response.message) + " (msg="@
                    + debug_of(response.message) + ")"@,
            )
        },
    }
}

/// What a restore is answered: the number of keys, carried in the message.
pub fn finish_restore(response: WireResponse) -> (result: Result<usize, RemoteError>)
    ensures
        restore_finished(response@, result),
{
    if response.status != status::OK {
        return Err(
            RemoteError::DaemonStatus { status: response.status, message: response.message },
        );
    }
    match parse_usize(&response.message) {
        Ok(count) => Ok(count),
        Err(source) => {
            let mut text = String::new();
            text.push_str("restore count parse: ");
            text.push_str(&source);
            text.push_str(" (msg=");
            text.push_str(&debug_text(&response.message));
            text.push_str(")");
            assert(text@ =~= "restore count parse: "@ + parse_error_text(response.message@)
                + " (msg="@ + debug_of(response.message@) + ")"@);
            Err(RemoteError::Transport(text))
        },
    }
}

/// The tier that a message names: one of its parts is `tier:1`, or it is the
/// object store.
pub open spec fn tier_of(message: Seq<char>) -> RemoteHitTier {
    if split_char(message, ';').contains("tier:1"@) {
        RemoteHitTier::Foyer
    } else {
        RemoteHitTier::ObjectStore
    }
}

/// Reads the tier out of a response message.
pub fn parse_tier(message: &str) -> (tier: RemoteHitTier)
    ensures
        tier == tier_of(message@),
{
    let chars = chars_of(message);
    let parts = split_at_char(&chars, ';');
    let wanted = chars_of("tier:1");
    let mut i: usize = 0;
    while i < parts.len()
        invariant
            i <= parts@.len(),
            char_parts(parts@) == split_char(message@, ';'),
            wanted@ == "tier:1"@,
            forall|j: int| 0 <= j < i ==> #[trigger] split_char(message@, ';')[j] != "tier:1"@,
        decreases parts@.len() - i,
    {
        assert(split_char(message@, ';')[i as int] == parts@[i as int]@);
        if same_chars(&parts[i], &wanted) {
            return RemoteHitTier::Foyer;
        }
        i = i + 1;
    }
    RemoteHitTier::ObjectStore
}

/// What follows the first part that starts with `arena:`.
pub open spec fn arena_field(parts: Seq<Seq<char>>) -> Option<Seq<char>>
    decreases parts.len(),
{
    if parts.len() == 0 {
        None
    } else if "arena:"@.is_prefix_of(parts[0]) {
        Some(parts[0].skip("arena:"@.len() as int))
    } else {
        arena_field(parts.drop_first())
    }
}

/// The slab that a message refers to: `arena:<offset>:<len>` among its parts.
pub open spec fn arena_ref_of(message: Seq<char>) -> Option<(nat, nat)> {
    match arena_field(split_char(message, ';')) {
        None => None,
        Some(encoded) => {
            let fields = split_char(encoded, ':');
            if fields.len() != 2 {
                None
            } else {
                match (
                    parsed_uint(fields[0], u64::MAX as nat),
                    parsed_uint(fields[1], u32::MAX as nat),
                ) {
                    (Some(offset), Some(len)) => Some((offset, len)),
                    _ => None,
                }
            }
        },
    }
}

/// Reads a slab reference out of a response message.
pub fn parse_arena_ref(message: &str) -> (slab: Option<(u64, u32)>)
    ensures
        match slab {
            Some((offset, len)) => arena_ref_of(message@) == Some((offset as nat, len as nat)),
            None => arena_ref_of(message@) is None,
        },
{
    let chars = chars_of(message);
    let parts = split_at_char(&chars, ';');
    let prefix = chars_of("arena:");
    let ghost all = split_char(message@, ';');
    let mut i: usize = 0;
    assert(all.skip(0) =~= all);
    while i < parts.len()
        invariant
            i <= parts@.len(),
            char_parts(parts@) == all,
            all == split_char(message@, ';'),
            prefix@ == "arena:"@,
            arena_field(all.skip(i as int)) == arena_field(all),
        decreases parts@.len() - i,
    {
        assert(all.skip(i as int)[0] == parts@[i as int]@);
        if chars_start_with(&parts[i], &prefix) {
            let encoded = copy_chars(&parts[i], prefix.len(), parts[i].len());
            assert(encoded@ =~= parts@[i as int]@.skip("arena:"@.len() as int));
            let fields = split_at_char(&encoded, ':');
            assert(split_char(encoded@, ':').len() == fields@.len());
            if fields.len() != 2 {
                return None;
            }
            assert(split_char(encoded@, ':')[0] == fields@[0]@);
            assert(split_char(encoded@, ':')[1] == fields@[1]@);
            let offset: u64 = match parse_uint(&fields[0], u64::MAX as u128) {
                Some(n) => n as u64,
                None => {
                    return None;
                },
            };
            let len: u32 = match parse_uint(&fields[1], u32::MAX as u128) {
                Some(n) => n as u32,
                None => {
                    return None;
                },
            };
            return Some((offset, len));
        }
        assert(all.skip(i as int).drop_first() =~= all.skip(i + 1));
        i = i + 1;
    }
    assert(all.skip(i as int).len() == 0);
    None
}

/// The bytes that a successful response carries: those of the slab that its
/// message refers to, else its payload. The slab is read from the mapped arena.
pub open spec fn carried_bytes(response: ResponseFields, arena: Option<Seq<u8>>) -> Result<
    Seq<u8>,
    RemoteFault,
> {
    match arena_ref_of(response.message) {
        None => Ok(response.payload),
        Some((offset, len)) => match arena {
            None => Err(
                RemoteFault::Transport(
                    "daemon returned arena ref but WMBT_KV_DAEMON_SHM_ARENA_PATH is unset"@,
                ),
            ),
            Some(region) => if offset < ARENA_HEADER_BYTES || offset + len > region.len() {
                Err(
                    RemoteFault::Transport(
                        "arena read offset="@ + dec(offset) + " len="@ + dec(len) + ": "@
                            + arena_error_text(
                            ArenaError::OutOfBounds {
                                offset: offset as u64,
                                len: len as u32,
                                arena: region.len() as u64,
                            },
                        ),
                    ),
                )
            } else {
                Ok(region.subrange(offset as int, (offset + len) as int))
            },
        },
    }
}

/// The contents of an optional region.
pub open spec fn region_view(arena: Option<&[u8]>) -> Option<Seq<u8>> {
    match arena {
        Some(region) => Some(region@),
        None => None,
    }
}

/// Gets the bytes that a successful response carries. They are copied out of
/// the arena, so that a later wrap cannot change them.
fn carried(response: WireResponse, arena: Option<&[u8]>) -> (bytes: Result<Vec<u8>, RemoteError>)
    ensures
        match bytes {
            Ok(b) => carried_bytes(response@, region_view(arena)) == Ok::<Seq<u8>, RemoteFault>(b@),
            Err(error) => carried_bytes(response@, region_view(arena)) == Err::<
                Seq<u8>,
                RemoteFault,
            >(error@),
        },
{
    match parse_arena_ref(&response.message) {
        None => Ok(response.payload),
        Some((offset, len)) => match arena {
            None => {
                let mut text = String::new();
                text.push_str(
                    "daemon returned arena ref but WMBT_KV_DAEMON_SHM_ARENA_PATH is unset",
                );
                assert(text@
                    =~= "daemon returned arena ref but WMBT_KV_DAEMON_SHM_ARENA_PATH is unset"@);
                Err(RemoteError::Transport(text))
            },
            Some(region) => {
                let reader = ArenaReader::open(region);
                match reader.read_payload(region, offset, len) {
                    Ok(slab) => Ok(copy_bytes(slab)),
                    Err(error) => {
                        let mut text = String::new();
                        text.push_str("arena read offset=");
                        push_dec(&mut text, offset as u128);
                        text.push_str(" len=");
                        push_dec(&mut text, len as u128);
                        text.push_str(": ");
                        text.push_str(&error.to_text());
                        assert(text@ =~= "arena read offset="@ + dec(offset as nat) + " len="@
                            + dec(len as nat) + ": "@ + arena_error_text(error));
                        Err(RemoteError::Transport(text))
                    },
                }
            },
        },
    }
}

/// Whether a result is what a get makes of a response and the mapped arena.
pub open spec fn get_finished(
    response: ResponseFields,
    arena: Option<Seq<u8>>,
    result: Result<RemoteGetOutcome, RemoteError>,
) -> bool {
    match result {
        Ok(RemoteGetOutcome::Hit { tier, payload }) => response.status == status::OK && tier
            == tier_of(response.message) && carried_bytes(response, arena) == Ok::<
            Seq<u8>,
            RemoteFault,
        >(bytes_of(payload)),
        Ok(RemoteGetOutcome::Miss) => response.status == status::MISS,
        Err(error) => if response.status == status::OK {
            carried_bytes(response, arena) == Err::<Seq<u8>, RemoteFault>(error@)
        } else {
            response.status != status::MISS && error@ == status_fault(response)
        },
    }
}

/// What a get is answered.
pub fn finish_get(response: WireResponse, arena: Option<&[u8]>) -> (result: Result<
    RemoteGetOutcome,
    RemoteError,
>)
    ensures
        get_finished(response@, region_view(arena), result),
{
    if response.status == status::OK {
        let tier = parse_tier(&response.message);
        match carried(response, arena) {
            Ok(bytes) => Ok(RemoteGetOutcome::Hit { tier, payload: bytes_from(bytes) }),
            Err(error) => Err(error),
        }
    } else if response.status == status::MISS {
        Ok(RemoteGetOutcome::Miss)
    } else {
        Err(RemoteError::DaemonStatus { status: response.status, message: response.message })
    }
}

/// Whether a result is what a batched get makes of a response and the mapped arena.
pub open spec fn get_many_finished(
    response: ResponseFields,
    arena: Option<Seq<u8>>,
    result: Result<Option<Bytes>, RemoteError>,
) -> bool {
    match result {
        Ok(Some(batch)) => response.status == status::OK && carried_bytes(
            response,
            arena,
        ) == Ok::<Seq<u8>, RemoteFault>(bytes_of(batch)) && bytes_batch_decoded(
            bytes_of(batch),
        ) is Ok,
        Ok(None) => response.status == status::MISS,
        Err(error) => if response.status == status::OK {
            match carried_bytes(response, arena) {
                Err(fault) => error@ == fault,
                Ok(bytes) => bytes_batch_decoded(bytes) matches Err(fault) && error@
                    == RemoteFault::Transport(
                    "decode get_many batch: "@ + wire_fault_text(fault),
                ),
            }
        } else {
            response.status != status::MISS && error@ == status_fault(response)
        },
    }
}

/// What a batched get is answered: the encoded batch, which must decode, or
/// `None` where a key was missing.
pub fn finish_get_many(response: WireResponse, arena: Option<&[u8]>) -> (result: Result<
    Option<Bytes>,
    RemoteError,
>)
    ensures
        get_many_finished(response@, region_view(arena), result),
{
    if response.status == status::OK {
        let batch = match carried(response, arena) {
            Ok(bytes) => bytes_from(bytes),
            Err(error) => {
                return Err(error);
            },
        };
        match decode_bytes_batch(batch.clone()) {
            Ok(_) => Ok(Some(batch)),
            Err(error) => {
                let mut text = String::new();
                text.push_str("decode get_many batch: ");
                text.push_str(&error.to_text());
                assert(text@ =~= "decode get_many batch: "@ + wire_fault_text(error@));
                Err(RemoteError::Transport(text))
            },
        }
    } else if response.status == status::MISS {
        Ok(None)
    } else {
        Err(RemoteError::DaemonStatus { status: response.status, message: response.message })
    }
}

/// Whether a failure reports that a response payload did not decode.
pub open spec fn decode_failure(
    fault: RemoteFault,
    prefix: Seq<char>,
    payload: Seq<u8>,
    magic: Seq<u8>,
    op: Seq<char>,
) -> bool {
    exists|cause: WireFault| #[trigger]
        undecodable(cause, payload, magic, op) && fault == RemoteFault::Transport(
            prefix + wire_fault_text(cause),
        )
}

/// Builds the error for a response payload that did not decode.
fn decode_error(prefix: &str, error: &WireCodecError) -> (failed: RemoteError)
    ensures
        failed@ == RemoteFault::Transport(prefix@ + wire_fault_text(error@)),
{
    let mut text = String::new();
    text.push_str(prefix);
    text.push_str(&error.to_text());
    assert(text@ =~= prefix@ + wire_fault_text(error@));
    RemoteError::Transport(text)
}

/// Whether a result is what a block-prefix lookup makes of a response.
pub open spec fn lookup_finished(
    response: ResponseFields,
    result: Result<usize, RemoteError>,
) -> bool {
    match result {
        Ok(count) => response.status == status::OK && lookup_resp_decoded(response.payload)
            == Some(CountFields { count: count as nat, error: None }),
        Err(error) => if response.status != status::OK {
            error@ == status_fault(response)
        } else {
            match lookup_resp_decoded(response.payload) {
                Some(fields) => fields.error matches Some(message) && error@ == (
                RemoteFault::DaemonStatus { status: status::ERROR, message }),
                None => decode_failure(
                    error@,
                    "decode lookup_block_prefix resp: "@,
                    response.payload,
                    LOOKUP_BLOCK_PREFIX_RESP_MAGIC@,
                    "lookup_block_prefix_resp"@,
                ),
            }
        },
    }
}

/// What a block-prefix lookup is answered: the number of leading hits.
pub fn finish_lookup_block_prefix(response: WireResponse) -> (result: Result<usize, RemoteError>)
    ensures
        lookup_finished(response@, result),
{
    if response.status != status::OK {
        return Err(
            RemoteError::DaemonStatus { status: response.status, message: response.message },
        );
    }
    match decode_lookup_block_prefix_resp(&response.payload) {
        Ok(decoded) => match decoded.error {
            Some(message) => Err(RemoteError::DaemonStatus { status: status::ERROR, message }),
            None => Ok(decoded.matched_count as usize),
        },
        Err(error) => {
            assert(undecodable(
                error@,
                response.payload@,
                LOOKUP_BLOCK_PREFIX_RESP_MAGIC@,
                "lookup_block_prefix_resp"@,
            ));
            Err(decode_error("decode lookup_block_prefix resp: ", &error))
        },
    }
}

/// Shared buffers with the contents of byte vectors.
pub(crate) fn share_all(vectors: Vec<Vec<u8>>) -> (shared: Vec<Bytes>)
    ensures
        buffers(shared@) == blobs(vectors@),
{
    let mut shared: Vec<Bytes> = Vec::new();
    let mut i: usize = 0;
    while i < vectors.len()
        invariant
            i <= vectors@.len(),
            shared@.len() == i,
            forall|j: int| 0 <= j < i ==> bytes_of(#[trigger] shared@[j]) == vectors@[j]@,
        decreases vectors@.len() - i,
    {
        shared.push(bytes_from(copy_bytes(&vectors[i])));
        i = i + 1;
    }
    assert(buffers(shared@) =~= blobs(vectors@));
    shared
}

/// The contents of optional shared buffers.
pub open spec fn buffers_opt(items: Option<Vec<Bytes>>) -> Option<Seq<Seq<u8>>> {
    match items {
        Some(v) => Some(buffers(v@)),
        None => None,
    }
}

/// Whether a result is what a block get makes of a response.
pub open spec fn blocks_finished(
    response: ResponseFields,
    result: Result<Option<Vec<Bytes>>, RemoteError>,
) -> bool {
    match result {
        Ok(blocks) => response.status == status::OK && get_resp_decoded(response.payload)
            == Some(PayloadsFields { payloads: buffers_opt(blocks), error: None }),
        Err(error) => if response.status != status::OK {
            error@ == status_fault(response)
        } else {
            match get_resp_decoded(response.payload) {
                Some(fields) => fields.error matches Some(message) && error@ == (
                RemoteFault::DaemonStatus { status: status::ERROR, message }),
                None => decode_failure(
                    error@,
                    "decode get_kv_blocks_batch resp: "@,
                    response.payload,
                    GET_KV_BLOCKS_BATCH_RESP_MAGIC@,
                    "get_kv_blocks_batch_resp"@,
                ),
            }
        },
    }
}

/// What a block get is answered: all blocks in input order, or `None` where one
/// was missing.
pub fn finish_get_kv_blocks_batch(response: WireResponse) -> (result: Result<
    Option<Vec<Bytes>>,
    RemoteError,
>)
    ensures
        blocks_finished(response@, result),
{
    if response.status != status::OK {
        return Err(
            RemoteError::DaemonStatus { status: response.status, message: response.message },
        );
    }
    match decode_get_kv_blocks_batch_resp(&response.payload) {
        Ok(decoded) => match decoded.error {
            Some(message) => Err(RemoteError::DaemonStatus { status: status::ERROR, message }),
            None => match decoded.payloads {
                Some(payloads) => Ok(Some(share_all(payloads))),
                None => Ok(None),
            },
        },
        Err(error) => {
            assert(undecodable(
                error@,
                response.payload@,
                GET_KV_BLOCKS_BATCH_RESP_MAGIC@,
                "get_kv_blocks_batch_resp"@,
            ));
            Err(decode_error("decode get_kv_blocks_batch resp: ", &error))
        },
    }
}

/// Whether a result is what a block put makes of a response.
pub open spec fn put_blocks_finished(
    response: ResponseFields,
    result: Result<u64, RemoteError>,
) -> bool {
    match result {
        Ok(total) => response.status == status::OK && put_resp_decoded(response.payload)
            == Some(CountFields { count: total as nat, error: None }),
        Err(error) => if response.status != status::OK {
            error@ == status_fault(response)
        } else {
            match put_resp_decoded(response.payload) {
                Some(fields) => fields.error matches Some(message) && error@ == (
                RemoteFault::DaemonStatus { status: status::ERROR, message }),
                None => decode_failure(
                    error@,
                    "decode put_kv_blocks_batch resp: "@,
                    response.payload,
                    PUT_KV_BLOCKS_BATCH_RESP_MAGIC@,
                    "put_kv_blocks_batch_resp"@,
                ),
            }
        },
    }
}

/// What a block put is answered: the stored bytes.
pub fn finish_put_kv_blocks_batch(response: WireResponse) -> (result: Result<u64, RemoteError>)
    ensures
        put_blocks_finished(response@, result),
{
    if response.status != status::OK {
        return Err(
            RemoteError::DaemonStatus { status: response.status, message: response.message },
        );
    }
    match decode_put_kv_blocks_batch_resp(&response.payload) {
        Ok(decoded) => match decoded.error {
            Some(message) => Err(RemoteError::DaemonStatus { status: status::ERROR, message }),
            None => Ok(decoded.total_bytes),
        },
        Err(error) => {
            assert(undecodable(
                error@,
                response.payload@,
                PUT_KV_BLOCKS_BATCH_RESP_MAGIC@,
                "put_kv_blocks_batch_resp"@,
            ));
            Err(decode_error("decode put_kv_blocks_batch resp: ", &error))
        },
    }
}

// ---- large values ----

/// How a value is put: in one request, or as chunks behind a manifest.
#[derive(Debug)]
pub enum PutPlan {
    Whole,
    Chunked { id: String, chunk_count: usize },
}

/// Whether an id is the hexadecimal form of a hash.
pub open spec fn hash_id(id: Seq<char>) -> bool {
    id.len() == 64 && forall|i: int|
        0 <= i < 64 ==> (is_digit(#[trigger] id[i]) || ('a' <= id[i] && id[i] <= 'f'))
}

/// Plan how to put a value: whole if it fits one frame.
pub fn plan_put(namespace: &str, key: &str, payload: &[u8]) -> (plan: PutPlan)
    ensures
        match plan {
            PutPlan::Whole => payload@.len() + 256 <= FRAME_DATA_BYTES,
            PutPlan::Chunked { id, chunk_count } => {
                &&& payload@.len() + 256 > FRAME_DATA_BYTES
                &&& id@ == blake3_hex_of(id_input(namespace@, key@, payload@))
                &&& hash_id(id@)
                &&& chunk_count == chunk_count_of(payload@.len())
            },
        },
{
    if fits_one_frame(payload.len()) {
        return PutPlan::Whole;
    }
    let id = large_payload_id(namespace, key, payload);
    PutPlan::Chunked { id, chunk_count: chunk_count(payload.len()) }
}

/// The number of put requests that a plan takes.
pub open spec fn plan_len(plan: PutPlan) -> nat {
    match plan {
        PutPlan::Whole => 1,
        PutPlan::Chunked { id, chunk_count } => (chunk_count + 1) as nat,
    }
}

/// The key and bytes of a plan's `i`th put: the chunks in order, the manifest
/// last and under the value's own key.
pub open spec fn plan_item(plan: PutPlan, key: Seq<char>, payload: Seq<u8>, i: nat) -> (
    Seq<char>,
    Seq<u8>,
) {
    match plan {
        PutPlan::Whole => (key, payload),
        PutPlan::Chunked { id, chunk_count } => if i < chunk_count {
            (chunk_key_text(id@, i), chunk_of(payload, i))
        } else {
            (
                key,
                vstd::utf8::encode_utf8(
                    manifest_text(
                        ManifestFields {
                            id: id@,
                            total_len: payload.len(),
                            chunk_count: chunk_count as nat,
                        },
                    ),
                ),
            )
        },
    }
}

/// The key and bytes of a plan's `i`th put, or `None` behind the last.
pub fn put_step(plan: &PutPlan, key: &str, payload: &[u8], i: usize) -> (step: Option<
    (String, Vec<u8>),
>)
    requires
        plan matches PutPlan::Chunked { id, chunk_count } ==> chunk_count == chunk_count_of(
            payload@.len(),
        ),
    ensures
        match step {
            Some((k, bytes)) => i < plan_len(*plan) && (k@, bytes@) == plan_item(
                *plan,
                key@,
                payload@,
                i as nat,
            ),
            None => i >= plan_len(*plan),
        },
{
    match plan {
        PutPlan::Whole => if i == 0 {
            Some((key.to_owned(), copy_bytes(payload)))
        } else {
            None
        },
        PutPlan::Chunked { id, chunk_count } => if i < *chunk_count {
            proof {
                crate::large::lemma_chunk_count(payload@.len(), i as nat);
            }
            let total: usize = payload.len();
            let start: usize = i * LARGE_CHUNK_BYTES;
            let end: usize = if total - start < LARGE_CHUNK_BYTES {
                total
            } else {
                start + LARGE_CHUNK_BYTES
            };
            Some((large_chunk_key(id, i), copy_bytes(&payload[start..end])))
        } else if i == *chunk_count {
            let manifest = large_manifest(id, payload.len(), *chunk_count);
            Some((key.to_owned(), copy_bytes(manifest.as_str().as_bytes())))
        } else {
            None
        },
    }
}

/// The store after the first `n` puts of a plan.
pub open spec fn store_after(
    store: Map<Seq<char>, Seq<u8>>,
    plan: PutPlan,
    key: Seq<char>,
    payload: Seq<u8>,
    n: nat,
) -> Map<Seq<char>, Seq<u8>>
    decreases n,
{
    if n == 0 {
        store
    } else {
        let item = plan_item(plan, key, payload, (n - 1) as nat);
        store_after(store, plan, key, payload, (n - 1) as nat).insert(item.0, item.1)
    }
}

proof fn lemma_store_after(
    store: Map<Seq<char>, Seq<u8>>,
    plan: PutPlan,
    key: Seq<char>,
    payload: Seq<u8>,
    n: nat,
)
    requires
        plan matches PutPlan::Chunked { id, chunk_count } && n <= chunk_count,
    ensures
        store_after(store, plan, key, payload, n) == crate::large::store_with_chunks(
            store,
            plan->Chunked_id@,
            payload,
            n,
        ),
    decreases n,
{
    if n > 0 {
        lemma_store_after(store, plan, key, payload, (n - 1) as nat);
    }
}

/// A get after a put gives back the value, whatever the store held before. Left
/// out are a small value that is itself a manifest, and a key that is one of
/// the value's own chunk keys.
pub proof fn put_then_get(
    store: Map<Seq<char>, Seq<u8>>,
    plan: PutPlan,
    key: Seq<char>,
    payload: Seq<u8>,
)
    requires
        payload.len() <= usize::MAX,
        plan is Whole ==> manifest_parsed(payload) is None,
        plan matches PutPlan::Chunked { id, chunk_count } ==> {
            &&& hash_id(id@)
            &&& chunk_count == chunk_count_of(payload.len())
            &&& forall|i: nat| i < chunk_count ==> key != #[trigger] chunk_key_text(id@, i)
        },
    ensures
        ({
            let after = store_after(store, plan, key, payload, plan_len(plan));
            &&& after.dom().contains(key)
            &&& crate::large::read_value(after, after[key]) == Ok::<Seq<u8>, LargeFault>(payload)
        }),
{
    match plan {
        PutPlan::Whole => {
            let item = plan_item(plan, key, payload, 0);
            assert(store_after(store, plan, key, payload, 0) == store);
            assert(store_after(store, plan, key, payload, 1) == store.insert(item.0, item.1));
        },
        PutPlan::Chunked { id, chunk_count } => {
            let count = chunk_count as nat;
            lemma_store_after(store, plan, key, payload, count);
            assert forall|i: int| 0 <= i < id@.len() implies #[trigger] id@[i] != '\n' by {
                assert(is_digit(id@[i]) || ('a' <= id@[i] && id@[i] <= 'f'));
            }
            assert(is_digit(id@[63]) || ('a' <= id@[63] && id@[63] <= 'f'));
            crate::large::large_put_then_get(store, id@, key, payload);
            assert(store_after(store, plan, key, payload, count + 1)
                == crate::large::store_with_large(store, id@, key, payload));
        },
    }
}

/// How a get goes on after the value itself was fetched.
#[derive(Debug)]
pub enum GetStep {
    /// The outcome is final.
    Done(RemoteGetOutcome),
    /// The value is a manifest: fetch its chunks.
    Chunks { tier: RemoteHitTier, read: LargeRead },
}

/// Decide how a get goes on.
pub fn start_get(outcome: RemoteGetOutcome) -> (step: GetStep)
    ensures
        match outcome {
            RemoteGetOutcome::Miss => step == GetStep::Done(outcome),
            RemoteGetOutcome::Hit { tier, payload } => match manifest_parsed(bytes_of(payload)) {
                None => step == GetStep::Done(outcome),
                Some(manifest) => step matches GetStep::Chunks { tier: t, read } && t == tier
                    && read.manifest@ == manifest && read.next == 0 && read.out@ == Seq::<
                    u8,
                >::empty(),
            },
        },
{
    match outcome {
        RemoteGetOutcome::Miss => GetStep::Done(outcome),
        RemoteGetOutcome::Hit { tier, payload } => match parse_large_manifest(
            bytes_slice(&payload),
        ) {
            Some(manifest) => GetStep::Chunks { tier, read: LargeRead::new(manifest) },
            None => GetStep::Done(RemoteGetOutcome::Hit { tier, payload }),
        },
    }
}

/// The client error for a large value that could not be put together: a missing
/// chunk is a miss, a wrong length a transport error.
pub fn large_error(error: &LargeError) -> (remote: RemoteError)
    ensures
        remote@ == (match error@ {
            LargeFault::MissingChunk { idx, id } => RemoteFault::DaemonStatus {
                status: status::MISS,
                message: large_fault_text(error@),
            },
            LargeFault::LengthMismatch { expected, got } => RemoteFault::Transport(
                large_fault_text(error@),
            ),
        }),
{
    match error {
        LargeError::MissingChunk { .. } => RemoteError::DaemonStatus {
            status: status::MISS,
            message: error.to_text(),
        },
        LargeError::LengthMismatch { .. } => RemoteError::Transport(error.to_text()),
    }
}

/// The outcome of a get whose chunks were all fetched.
pub fn finish_large_get(tier: RemoteHitTier, read: LargeRead) -> (result: Result<
    RemoteGetOutcome,
    RemoteError,
>)
    ensures
        match result {
            Ok(RemoteGetOutcome::Hit { tier: t, payload }) => t == tier && bytes_of(payload)
                == read.out@ && read.out@.len() == read.manifest.total_len,
            Ok(RemoteGetOutcome::Miss) => false,
            Err(error) => read.out@.len() != read.manifest.total_len && error@
                == RemoteFault::Transport(
                large_fault_text(
                    LargeFault::LengthMismatch {
                        expected: read.manifest.total_len as nat,
                        got: read.out@.len(),
                    },
                ),
            ),
        },
{
    match read.finish() {
        Ok(payload) => Ok(RemoteGetOutcome::Hit { tier, payload: bytes_from(payload) }),
        Err(error) => Err(large_error(&error)),
    }
}

/// Whether a batched get falls back to single gets: the daemon found the batch
/// too large.
pub fn falls_back_to_serial(result: &Result<Option<Bytes>, RemoteError>) -> (serial: bool)
    ensures
        serial == (result matches Err(error) && error@ matches RemoteFault::DaemonStatus {
            status: s,
            message: _,
        } && s == status::TOO_LARGE),
{
    match result {
        Err(RemoteError::DaemonStatus { status: s, .. }) => *s == status::TOO_LARGE,
        _ => false,
    }
}

/// The payloads of gets that all hit.
pub open spec fn hit_payloads(outcomes: Seq<RemoteGetOutcome>) -> Seq<Seq<u8>> {
    outcomes.map_values(
        |o: RemoteGetOutcome|
            match o {
                RemoteGetOutcome::Hit { tier, payload } => bytes_of(payload),
                RemoteGetOutcome::Miss => Seq::empty(),
            },
    )
}

/// The encoded batch of single gets, or `None` where one of them missed.
pub fn serial_batch(outcomes: Vec<RemoteGetOutcome>) -> (batch: Option<Bytes>)
    ensures
        match batch {
            Some(b) => (forall|i: int| 0 <= i < outcomes@.len() ==> #[trigger] outcomes@[i] is Hit)
                && bytes_of(b) == bytes_batch_bytes(hit_payloads(outcomes@)),
            None => exists|i: int| 0 <= i < outcomes@.len() && #[trigger] outcomes@[i] is Miss,
        },
{
    let mut items: Vec<Bytes> = Vec::new();
    let mut i: usize = 0;
    while i < outcomes.len()
        invariant
            i <= outcomes@.len(),
            items@.len() == i,
            forall|j: int| 0 <= j < i ==> #[trigger] outcomes@[j] is Hit,
            forall|j: int|
                0 <= j < i ==> bytes_of(#[trigger] items@[j]) == hit_payloads(outcomes@)[j],
        decreases outcomes@.len() - i,
    {
        match &outcomes[i] {
            RemoteGetOutcome::Hit { tier: _, payload } => {
                items.push(payload.clone());
            },
            RemoteGetOutcome::Miss => {
                assert(outcomes@[i as int] is Miss);
                return None;
            },
        }
        i = i + 1;
    }
    assert(buffers(items@) =~= hit_payloads(outcomes@));
    Some(bytes_from(encode_bytes_batch(&items)))
}

/// Refuses a block put whose hashes and payloads differ in number.
pub fn check_block_counts(hashes: usize, payloads: usize) -> (checked: Result<(), RemoteError>)
    ensures
        match checked {
            Ok(_) => hashes == payloads,
            Err(error) => hashes != payloads && error@ == RemoteFault::Transport(
                count_mismatch(hashes as nat, payloads as nat),
            ),
        },
{
    if hashes == payloads {
        return Ok(());
    }
    Err(RemoteError::Transport(count_mismatch_text(hashes, payloads)))
}

// ---- laws ----

/// Where the daemon answers a call with a failure, the call fails with the status and
/// the message that the daemon gave, whichever call it was; a miss counts as a failure
/// of all calls but those that ask for something.
pub proof fn failures_are_told_as_the_daemon_told_them(
    response: ResponseFields,
    arena: Option<Seq<u8>>,
    unit: Result<(), RemoteError>,
    found: Result<bool, RemoteError>,
    listed: Result<Bytes, RemoteError>,
    text: Result<String, RemoteError>,
    restored: Result<usize, RemoteError>,
    got: Result<RemoteGetOutcome, RemoteError>,
    many: Result<Option<Bytes>, RemoteError>,
    matched: Result<usize, RemoteError>,
    blocks: Result<Option<Vec<Bytes>>, RemoteError>,
    stored: Result<u64, RemoteError>,
)
    requires
        response.status != status::OK,
        unit_finished(response, unit),
        exists_finished(response, found),
        list_finished(response, listed),
        stats_finished(response, text),
        restore_finished(response, restored),
        get_finished(response, arena, got),
        get_many_finished(response, arena, many),
        lookup_finished(response, matched),
        blocks_finished(response, blocks),
        put_blocks_finished(response, stored),
    ensures
        ({
            let told = RemoteFault::DaemonStatus {
                status: response.status,
                message: response.message,
            };
            &&& unit matches Err(error) && error@ == told
            &&& listed matches Err(error) && error@ == told
            &&& text matches Err(error) && error@ == told
            &&& restored matches Err(error) && error@ == told
            &&& matched matches Err(error) && error@ == told
            &&& blocks matches Err(error) && error@ == told
            &&& stored matches Err(error) && error@ == told
            &&& if response.status == status::MISS {
                &&& found matches Ok(there) && !there
                &&& got matches Ok(outcome) && outcome is Miss
                &&& many matches Ok(batch) && batch is None
            } else {
                &&& found matches Err(error) && error@ == told
                &&& got matches Err(error) && error@ == told
                &&& many matches Err(error) && error@ == told
            }
        }),
{
}

/// A block call whose answer carries an error fails with that error, and one whose
/// answer cannot be read fails as the transport would.
pub proof fn block_errors_are_told(
    response: ResponseFields,
    matched: Result<usize, RemoteError>,
    blocks: Result<Option<Vec<Bytes>>, RemoteError>,
    stored: Result<u64, RemoteError>,
)
    requires
        response.status == status::OK,
        lookup_finished(response, matched),
        blocks_finished(response, blocks),
        put_blocks_finished(response, stored),
    ensures
        match lookup_resp_decoded(response.payload) {
            Some(fields) => match fields.error {
                Some(message) => matched matches Err(error) && error@ == (
                RemoteFault::DaemonStatus { status: status::ERROR, message }),
                None => matched matches Ok(count) && count == fields.count,
            },
            None => matched matches Err(error) && error@ is Transport,
        },
        match get_resp_decoded(response.payload) {
            Some(fields) => match fields.error {
                Some(message) => blocks matches Err(error) && error@ == (
                RemoteFault::DaemonStatus { status: status::ERROR, message }),
                None => blocks matches Ok(list) && buffers_opt(list) == fields.payloads,
            },
            None => blocks matches Err(error) && error@ is Transport,
        },
        match put_resp_decoded(response.payload) {
            Some(fields) => match fields.error {
                Some(message) => stored matches Err(error) && error@ == (
                RemoteFault::DaemonStatus { status: status::ERROR, message }),
                None => stored matches Ok(total) && total == fields.count,
            },
            None => stored matches Err(error) && error@ is Transport,
        },
{
}

/// A response that refers to a slab carries the bytes of the region from the slab's
/// offset on; where the client has no region, or the slab lies in its header or beyond
/// its end, the response carries nothing and the call fails as the transport would.
pub proof fn slab_is_read_where_it_lies(
    response: ResponseFields,
    arena: Option<Seq<u8>>,
    offset: nat,
    len: nat,
)
    requires
        arena_ref_of(response.message) == Some((offset, len)),
    ensures
        match carried_bytes(response, arena) {
            Ok(bytes) => {
                &&& arena matches Some(region)
                &&& ARENA_HEADER_BYTES <= offset
                &&& offset + len <= region.len()
                &&& bytes.len() == len
                &&& forall|i: int| 0 <= i < len ==> #[trigger] bytes[i] == region[offset + i]
            },
            Err(fault) => fault is Transport && (arena matches Some(region) ==> offset
                < ARENA_HEADER_BYTES || offset + len > region.len()),
        },
{
}

/// A slab reference is read wherever it stands among the parts of a message: the two
/// numbers behind the first `arena:` name the slab.
pub proof fn slab_references_are_read(message: Seq<char>, at: int, offset: u64, len: u32)
    requires
        0 <= at < split_char(message, ';').len(),
        split_char(message, ';')[at] == "arena:"@ + dec(offset as nat) + ":"@ + dec(len as nat),
        forall|i: int|
            0 <= i < at ==> !"arena:"@.is_prefix_of(#[trigger] split_char(message, ';')[i]),
    ensures
        arena_ref_of(message) == Some((offset as nat, len as nat)),
{
    let parts = split_char(message, ';');
    let (a, b) = (dec(offset as nat), dec(len as nat));
    lemma_arena_field_at(parts, at);
    reveal_strlit("arena:");
    reveal_strlit(":");
    let encoded = parts[at].skip("arena:"@.len() as int);
    assert(encoded =~= a + seq![':'] + b);
    lemma_dec_digits(offset as nat);
    lemma_dec_digits(len as nat);
    assert(absent(a, ':'));
    assert(absent(b, ':'));
    lemma_split_first(a, ':', b);
    lemma_split_whole(b, ':');
    lemma_dec_parses(offset as nat, u64::MAX as nat);
    lemma_dec_parses(len as nat, u32::MAX as nat);
    assert(split_char(encoded, ':') =~= seq![a, b]);
}

proof fn lemma_arena_field_at(parts: Seq<Seq<char>>, at: int)
    requires
        0 <= at < parts.len(),
        "arena:"@.is_prefix_of(parts[at]),
        forall|i: int| 0 <= i < at ==> !"arena:"@.is_prefix_of(#[trigger] parts[i]),
    ensures
        arena_field(parts) == Some(parts[at].skip("arena:"@.len() as int)),
    decreases at,
{
    if at > 0 {
        let rest = parts.drop_first();
        assert forall|i: int| 0 <= i < at - 1 implies !"arena:"@.is_prefix_of(
            #[trigger] rest[i],
        ) by {
            assert(rest[i] == parts[i + 1]);
        }
        assert(rest[at - 1] == parts[at]);
        assert(!"arena:"@.is_prefix_of(parts[0]));
        lemma_arena_field_at(rest, at - 1);
    }
}

/// A batch put together of single gets decodes to the values that they found, in the
/// order of the gets.
pub proof fn single_gets_make_the_batch(outcomes: Vec<RemoteGetOutcome>, batch: Bytes)
    requires
        call_ensures(serial_batch, (outcomes,), Some(batch)),
        outcomes@.len() <= u32::MAX,
        forall|i: int|
            0 <= i < outcomes@.len() ==> (#[trigger] outcomes@[i] matches RemoteGetOutcome::Hit {
                tier: _,
                payload,
            } ==> bytes_of(payload).len() <= u32::MAX),
        bytes_of(batch).len() <= usize::MAX,
    ensures
        bytes_batch_decoded(bytes_of(batch)) matches Ok(values) && values.len() == outcomes@.len()
            && forall|i: int|
            0 <= i < values.len() ==> (outcomes@[i] matches RemoteGetOutcome::Hit {
                tier: _,
                payload,
            } && bytes_of(payload) == #[trigger] values[i]),
{
    let values = hit_payloads(outcomes@);
    assert forall|i: int| 0 <= i < values.len() implies (outcomes@[i] matches RemoteGetOutcome::Hit {
        tier: _,
        payload,
    } && bytes_of(payload) == #[trigger] values[i]) by {
        assert(outcomes@[i] is Hit);
    }
    assert forall|i: int| 0 <= i < values.len() implies #[trigger] values[i].len() <= u32::MAX by {
        assert(outcomes@[i] is Hit);
    }
    crate::wire::bytes_batch_round_trip(values);
}

} // verus!
