//! What the socket clients share: the requests that their calls send and the
//! meaning of the answers.

use bytes::Bytes;
use vstd::prelude::*;

use crate::blocks::{
    count_mismatch, decode_get_kv_blocks_batch_resp, decode_lookup_block_prefix_resp,
    decode_put_kv_blocks_batch_resp, get_resp_decoded, lookup_resp_decoded, put_resp_decoded,
    undecodable, CountFields, PayloadsFields,
};
use crate::client::{
    begin_command, buffers_opt, check_block_counts, command_fits, remote_fault_text,
    request_matches, share_all, Command, RemoteError, RemoteFault,
};
use crate::message::{RequestFields, ResponseFields, WireRequest, WireResponse};
use crate::status;
use crate::wire::{
    bytes_from, bytes_of, wire_fault_text, WireFault, GET_KV_BLOCKS_BATCH_RESP_MAGIC,
    LOOKUP_BLOCK_PREFIX_RESP_MAGIC, PUT_KV_BLOCKS_BATCH_RESP_MAGIC,
};

verus! {

/// Why a call failed although the exchange went through.
#[derive(Debug)]
pub enum CallError {
    /// A payload could not be encoded or decoded.
    Codec(String),
    /// The daemon answered with a status that the call does not expect.
    Status { code: u8, message: String },
}

/// The contents of a [`CallError`].
pub enum CallFault {
    Codec(Seq<char>),
    Status { code: u8, message: Seq<char> },
}

impl View for CallError {
    type V = CallFault;

    open spec fn view(&self) -> CallFault {
        match *self {
            CallError::Codec(text) => CallFault::Codec(text@),
            CallError::Status { code, message } => CallFault::Status { code, message: message@ },
        }
    }
}

/// Whether a command is a block put whose hashes and payloads differ in number.
pub open spec fn counts_differ(command: Command) -> Option<Seq<char>> {
    match command {
        Command::PutKvBlocksBatch { namespace, block_hashes_hex, payloads } => if block_hashes_hex@.len()
            != payloads@.len() {
            Some(count_mismatch(block_hashes_hex@.len(), payloads@.len()))
        } else {
            None
        },
        _ => None,
    }
}

/// Whether a built request is the one for a command. A block put whose hashes
/// and payloads differ in number is refused; any other failure carries the text
/// of what kept the payload from being encoded.
pub open spec fn call_matches(
    command: Command,
    id: u64,
    built: Result<RequestFields, CallFault>,
) -> bool {
    match counts_differ(command) {
        Some(text) => built == Err::<RequestFields, CallFault>(CallFault::Codec(text)),
        None => match built {
            Ok(fields) => request_matches(command, id, Ok(fields)),
            Err(fault) => fault matches CallFault::Codec(text) && request_matches(
                command,
                id,
                Err(RemoteFault::Transport(text)),
            ),
        },
    }
}

/// The fields of a built request, or the failure.
pub open spec fn call_fields(built: Result<WireRequest, CallError>) -> Result<
    RequestFields,
    CallFault,
> {
    match built {
        Ok(request) => Ok(request@),
        Err(error) => Err(error@),
    }
}

/// Build the request for a call, with the next id. The id is used up only if
/// there is a request to send.
pub fn call_request(next_id: &mut u64, command: Command) -> (built: Result<WireRequest, CallError>)
    requires
        command_fits(command),
    ensures
        call_matches(command, *old(next_id), call_fields(built)),
        *final(next_id) == if built is Ok {
            ((*old(next_id) + 1) % 0x1_0000_0000_0000_0000) as u64
        } else {
            *old(next_id)
        },
{
    if let Command::PutKvBlocksBatch { namespace: _, block_hashes_hex, payloads } = &command {
        match check_block_counts(block_hashes_hex.len(), payloads.len()) {
            Ok(()) => {},
            Err(error) => {
                return Err(codec_error(error));
            },
        }
    }
    let mut id: u64 = *next_id;
    match begin_command(&mut id, command) {
        Ok(request) => {
            *next_id = id;
            Ok(request)
        },
        Err(error) => Err(codec_error(error)),
    }
}

fn codec_error(error: RemoteError) -> (failed: CallError)
    ensures
        failed@ == CallFault::Codec(
            match error@ {
                RemoteFault::Transport(text) => text,
                fault => remote_fault_text(fault),
            },
        ),
{
    match error {
        RemoteError::Transport(text) => CallError::Codec(text),
        other => CallError::Codec(other.to_text()),
    }
}

/// The failure that a response with an unexpected status reports.
pub open spec fn call_status_fault(response: ResponseFields) -> CallFault {
    CallFault::Status { code: response.status, message: response.message }
}

/// What a put or a ping is answered.
pub fn unit_answer(response: WireResponse) -> (result: Result<(), CallError>)
    ensures
        match result {
            Ok(_) => response.status == status::OK,
            Err(error) => response.status != status::OK && error@ == call_status_fault(response@),
        },
{
    if response.status == status::OK {
        Ok(())
    } else {
        Err(CallError::Status { code: response.status, message: response.message })
    }
}

/// What a get is answered: the value, or none on a miss.
pub fn get_answer(response: WireResponse) -> (result: Result<Option<Bytes>, CallError>)
    ensures
        match result {
            Ok(Some(payload)) => response.status == status::OK && bytes_of(payload)
                == response.payload@,
            Ok(None) => response.status == status::MISS,
            Err(error) => response.status != status::OK && response.status != status::MISS && error@
                == call_status_fault(response@),
        },
{
    if response.status == status::OK {
        Ok(Some(bytes_from(response.payload)))
    } else if response.status == status::MISS {
        Ok(None)
    } else {
        Err(CallError::Status { code: response.status, message: response.message })
    }
}

/// Whether a failure reports that a response payload did not decode.
pub open spec fn call_decode_failure(
    fault: CallFault,
    payload: Seq<u8>,
    magic: Seq<u8>,
    op: Seq<char>,
) -> bool {
    exists|cause: WireFault| #[trigger]
        undecodable(cause, payload, magic, op) && fault == CallFault::Codec(wire_fault_text(cause))
}

/// What a block-prefix lookup is answered: the number of leading hits.
pub fn lookup_answer(response: WireResponse) -> (result: Result<usize, CallError>)
    ensures
        match result {
            Ok(count) => response.status == status::OK && lookup_resp_decoded(response.payload@)
                == Some(CountFields { count: count as nat, error: None }),
            Err(error) => if response.status != status::OK {
                error@ == call_status_fault(response@)
            } else {
                match lookup_resp_decoded(response.payload@) {
                    Some(fields) => fields.error matches Some(message) && error@ == (
                    CallFault::Status { code: status::ERROR, message }),
                    None => call_decode_failure(
                        error@,
                        response.payload@,
                        LOOKUP_BLOCK_PREFIX_RESP_MAGIC@,
                        "lookup_block_prefix_resp"@,
                    ),
                }
            },
        },
{
    if response.status != status::OK {
        return Err(CallError::Status { code: response.status, message: response.message });
    }
    match decode_lookup_block_prefix_resp(&response.payload) {
        Ok(decoded) => match decoded.error {
            Some(message) => Err(CallError::Status { code: status::ERROR, message }),
            None => Ok(decoded.matched_count as usize),
        },
        Err(error) => {
            assert(undecodable(
                error@,
                response.payload@,
                LOOKUP_BLOCK_PREFIX_RESP_MAGIC@,
                "lookup_block_prefix_resp"@,
            ));
            Err(CallError::Codec(error.to_text()))
        },
    }
}

/// What a block get is answered: all blocks in input order, or none where one
/// was missing.
pub fn blocks_answer(response: WireResponse) -> (result: Result<Option<Vec<Bytes>>, CallError>)
    ensures
        match result {
            Ok(blocks) => response.status == status::OK && get_resp_decoded(response.payload@)
                == Some(PayloadsFields { payloads: buffers_opt(blocks), error: None }),
            Err(error) => if response.status != status::OK {
                error@ == call_status_fault(response@)
            } else {
                match get_resp_decoded(response.payload@) {
                    Some(fields) => fields.error matches Some(message) && error@ == (
                    CallFault::Status { code: status::ERROR, message }),
                    None => call_decode_failure(
                        error@,
                        response.payload@,
                        GET_KV_BLOCKS_BATCH_RESP_MAGIC@,
                        "get_kv_blocks_batch_resp"@,
                    ),
                }
            },
        },
{
    if response.status != status::OK {
        return Err(CallError::Status { code: response.status, message: response.message });
    }
    match decode_get_kv_blocks_batch_resp(&response.payload) {
        Ok(decoded) => match decoded.error {
            Some(message) => Err(CallError::Status { code: status::ERROR, message }),
            None => match decoded.payloads {
                Some(payloads) => Ok(Some(share_all(payloads))),
                None => Ok(None),
            },
        },
        Err(error) => {
            assert(undecodable(
                error@,
                response.payload@,
                GET_KV_BLOCKS_BATCH_RESP_MAGIC@,
                "get_kv_blocks_batch_resp"@,
            ));
            Err(CallError::Codec(error.to_text()))
        },
    }
}

/// What a block put is answered: the stored bytes.
pub fn put_blocks_answer(response: WireResponse) -> (result: Result<u64, CallError>)
    ensures
        match result {
            Ok(total) => response.status == status::OK && put_resp_decoded(response.payload@)
                == Some(CountFields { count: total as nat, error: None }),
            Err(error) => if response.status != status::OK {
                error@ == call_status_fault(response@)
            } else {
                match put_resp_decoded(response.payload@) {
                    Some(fields) => fields.error matches Some(message) && error@ == (
                    CallFault::Status { code: status::ERROR, message }),
                    None => call_decode_failure(
                        error@,
                        response.payload@,
                        PUT_KV_BLOCKS_BATCH_RESP_MAGIC@,
                        "put_kv_blocks_batch_resp"@,
                    ),
                }
            },
        },
{
    if response.status != status::OK {
        return Err(CallError::Status { code: response.status, message: response.message });
    }
    match decode_put_kv_blocks_batch_resp(&response.payload) {
        Ok(decoded) => match decoded.error {
            Some(message) => Err(CallError::Status { code: status::ERROR, message }),
            None => Ok(decoded.total_bytes),
        },
        Err(error) => {
            assert(undecodable(
                error@,
                response.payload@,
                PUT_KV_BLOCKS_BATCH_RESP_MAGIC@,
                "put_kv_blocks_batch_resp"@,
            ));
            Err(CallError::Codec(error.to_text()))
        },
    }
}

/// A call over a socket sends what the shared-memory client would send for the same
/// command; a block put whose hashes and payloads differ in number is refused and sends
/// nothing.
pub proof fn calls_send_the_command(
    command: Command,
    id: u64,
    built: Result<RequestFields, CallFault>,
)
    requires
        call_matches(command, id, built),
    ensures
        built matches Ok(fields) ==> request_matches(
            command,
            id,
            Ok::<RequestFields, RemoteFault>(fields),
        ) && fields.id == id,
        command matches Command::PutKvBlocksBatch { namespace, block_hashes_hex, payloads } ==> (
        block_hashes_hex@.len() != payloads@.len() ==> built is Err),
        built is Err ==> command is LookupBlockPrefix || command is GetKvBlocksBatch
            || command is PutKvBlocksBatch,
{
}

/// What an input or output failure says of the peer.
#[derive(Debug, Clone, Copy, PartialEq, Eq, Structural)]
pub enum IoKind {
    UnexpectedEof,
    ConnectionReset,
    ConnectionAborted,
    BrokenPipe,
    NotConnected,
    Other,
}

/// Whether a failure means that the peer is gone, which is no error.
pub fn is_peer_disconnect(kind: IoKind) -> (gone: bool)
    ensures
        gone == (kind != IoKind::Other),
{
    match kind {
        IoKind::UnexpectedEof => true,
        IoKind::ConnectionReset => true,
        IoKind::ConnectionAborted => true,
        IoKind::BrokenPipe => true,
        IoKind::NotConnected => true,
        IoKind::Other => false,
    }
}

} // verus!
