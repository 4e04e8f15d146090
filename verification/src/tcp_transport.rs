//! The TCP transport: what a server connection does with the bytes it reads,
//! and what a client makes of an exchange.
//!
//! Both directions carry a checksummed envelope around an archived message. The
//! application owns the sockets: it performs an [`TcpAction`] and hands back
//! the [`TcpEvent`] that came of it.

use bytes::Bytes;
use vstd::prelude::*;

use crate::archive::is_short;
use crate::envelope::{
    body_fault, crc32c_of, decode_envelope_header, encode_envelope, envelope_bytes,
    envelope_fault_text, envelope_round_trip, header_decoded, verify_envelope_crc, EnvelopeError,
    EnvelopeFault, EnvelopeHeader, WIRE_ENVELOPE_MAGIC, WIRE_ENVELOPE_VERSION,
};
use crate::le::{le_value, lemma_le_bytes_len, lemma_le_capacities, lemma_le_value_bound};
use crate::message::{
    request_archive, request_archived, request_fits, request_short, response_archive,
    response_archived, response_fits, CodecError, RequestFields, WireRequest, WireResponse,
};
use crate::remote::{is_peer_disconnect, CallError, CallFault, IoKind};
use crate::text::{debug_of, debug_text, dec, push_dec};
use crate::wire::bytes_of;

verus! {

/// The largest body accepted in an envelope.
pub const MAX_FRAME_BYTES: usize = 268_435_456;

// ---- errors ----

/// Errors of a server connection.
#[derive(Debug)]
pub enum TcpServerError {
    Io(String),
    Decode(String),
    Encode(String),
}

/// The contents of a [`TcpServerError`].
pub enum TcpServerFault {
    Io(Seq<char>),
    Decode(Seq<char>),
    Encode(Seq<char>),
}

impl View for TcpServerError {
    type V = TcpServerFault;

    open spec fn view(&self) -> TcpServerFault {
        match *self {
            TcpServerError::Io(text) => TcpServerFault::Io(text@),
            TcpServerError::Decode(text) => TcpServerFault::Decode(text@),
            TcpServerError::Encode(text) => TcpServerFault::Encode(text@),
        }
    }
}

/// The displayed text of a server error.
pub open spec fn tcp_server_text(fault: TcpServerFault) -> Seq<char> {
    match fault {
        TcpServerFault::Io(text) => "tcp io: "@ + text,
        TcpServerFault::Decode(text) => "tcp decode: "@ + text,
        TcpServerFault::Encode(text) => "tcp encode: "@ + text,
    }
}

pub(crate) fn prefixed(prefix: &str, text: &str) -> (joined: String)
    ensures
        joined@ == prefix@ + text@,
{
    let mut joined = prefix.to_owned();
    joined.push_str(text);
    joined
}

impl TcpServerError {
    /// The error in words.
    pub fn to_text(&self) -> (text: String)
        ensures
            text@ == tcp_server_text(self@),
    {
        match self {
            TcpServerError::Io(source) => prefixed("tcp io: ", source),
            TcpServerError::Decode(source) => prefixed("tcp decode: ", source),
            TcpServerError::Encode(source) => prefixed("tcp encode: ", source),
        }
    }
}

/// The text under which both sides report a bad envelope.
pub open spec fn envelope_text(fault: EnvelopeFault) -> Seq<char> {
    "envelope: "@ + envelope_fault_text(fault)
}

pub(crate) fn envelope_message(error: &EnvelopeError) -> (text: String)
    ensures
        text@ == envelope_text(error@),
{
    prefixed("envelope: ", &error.to_text())
}

/// The text under which an error of the archive is reported.
pub open spec fn codec_debug(error: CodecError) -> Seq<char> {
    match error {
        CodecError::Encode(source) => "Encode("@ + debug_of(source@) + ")"@,
        CodecError::Decode(source) => "Decode("@ + debug_of(source@) + ")"@,
    }
}

pub(crate) fn codec_message(prefix: &str, error: &CodecError) -> (text: String)
    ensures
        text@ == prefix@ + codec_debug(*error),
{
    let mut text = prefix.to_owned();
    match error {
        CodecError::Encode(source) => {
            text.push_str("Encode(");
            text.push_str(&debug_text(source));
            text.push_str(")");
        },
        CodecError::Decode(source) => {
            text.push_str("Decode(");
            text.push_str(&debug_text(source));
            text.push_str(")");
        },
    }
    assert(text@ =~= prefix@ + codec_debug(*error));
    text
}

/// Errors of a client.
#[derive(Debug)]
pub enum TcpClientError {
    Io(String),
    Codec(String),
    /// The daemon answered with a status that the call does not expect.
    Status { code: u8, message: String },
}

/// The contents of a [`TcpClientError`].
pub enum TcpClientFault {
    Io(Seq<char>),
    Codec(Seq<char>),
    Status { code: u8, message: Seq<char> },
}

impl View for TcpClientError {
    type V = TcpClientFault;

    open spec fn view(&self) -> TcpClientFault {
        match *self {
            TcpClientError::Io(text) => TcpClientFault::Io(text@),
            TcpClientError::Codec(text) => TcpClientFault::Codec(text@),
            TcpClientError::Status { code, message } => TcpClientFault::Status {
                code,
                message: message@,
            },
        }
    }
}

/// The displayed text of a client error.
pub open spec fn tcp_client_text(fault: TcpClientFault) -> Seq<char> {
    match fault {
        TcpClientFault::Io(text) => "tcp client io: "@ + text,
        TcpClientFault::Codec(text) => "tcp client codec: "@ + text,
        TcpClientFault::Status { code, message } => "tcp client server status code="@ + dec(
            code as nat,
        ) + " msg="@ + debug_of(message),
    }
}

impl TcpClientError {
    /// The error in words.
    pub fn to_text(&self) -> (text: String)
        ensures
            text@ == tcp_client_text(self@),
    {
        match self {
            TcpClientError::Io(source) => prefixed("tcp client io: ", source),
            TcpClientError::Codec(source) => prefixed("tcp client codec: ", source),
            TcpClientError::Status { code, message } => {
                let mut text = String::new();
                text.push_str("tcp client server status code=");
                push_dec(&mut text, *code as u128);
                text.push_str(" msg=");
                text.push_str(&debug_text(message));
                assert(text@ =~= tcp_client_text(self@));
                text
            },
        }
    }

    /// The error of a call whose exchange went through.
    pub fn from_call(error: CallError) -> (failed: Self)
        ensures
            failed@ == match error@ {
                CallFault::Codec(text) => TcpClientFault::Codec(text),
                CallFault::Status { code, message } => TcpClientFault::Status { code, message },
            },
    {
        match error {
            CallError::Codec(text) => TcpClientError::Codec(text),
            CallError::Status { code, message } => TcpClientError::Status { code, message },
        }
    }
}

/// Outcome of a get over TCP.
#[derive(Debug, Clone)]
pub enum TcpGetOutcome {
    Hit { payload: Bytes },
    Miss,
}

impl TcpGetOutcome {
    /// The outcome for an answered value.
    pub fn from_answer(answer: Option<Bytes>) -> (outcome: Self)
        ensures
            match answer {
                Some(value) => outcome matches TcpGetOutcome::Hit { payload } && bytes_of(payload)
                    == bytes_of(value),
                None => outcome is Miss,
            },
    {
        match answer {
            Some(payload) => TcpGetOutcome::Hit { payload },
            None => TcpGetOutcome::Miss,
        }
    }
}

// ---- the pool and the shards ----

/// The number of dispatching threads and the depth of the queue before them:
/// at least one thread, four places each, at least eight.
pub fn dispatch_pool(worker_count: usize) -> (pool: (usize, usize))
    requires
        worker_count * 4 <= usize::MAX,
    ensures
        pool.0 == (if worker_count == 0 {
            1
        } else {
            worker_count as int
        }),
        pool.1 == (if worker_count <= 2 {
            8
        } else {
            worker_count * 4
        }),
{
    let workers: usize = if worker_count == 0 {
        1
    } else {
        worker_count
    };
    let depth: usize = if workers * 4 < 8 {
        8
    } else {
        workers * 4
    };
    (workers, depth)
}

/// The number of accepting threads: at least one.
pub fn shard_count(tpc_threads: usize) -> (count: usize)
    ensures
        count == (if tpc_threads == 0 {
            1
        } else {
            tpc_threads as int
        }),
{
    if tpc_threads == 0 {
        1
    } else {
        tpc_threads
    }
}

/// The first connection id that a shard gives out.
pub open spec fn first_id(shard: u64) -> u64 {
    (shard << 32) | 1
}

/// The first connection id that a shard gives out: the shard's number in the
/// upper half, one in the lower.
pub fn first_conn_id(shard: u64) -> (id: u64)
    ensures
        id == first_id(shard),
        shard < 0x1_0000_0000 ==> id == shard * 0x1_0000_0000 + 1,
{
    assert((shard << 32) | 1 == (shard % 0x1_0000_0000) * 0x1_0000_0000 + 1) by (bit_vector);
    (shard << 32) | 1
}

/// Connections of different shards have different ids, as long as none has
/// accepted four billion.
pub proof fn shard_ids_distinct(shard_a: u64, shard_b: u64, nth_a: nat, nth_b: nat)
    requires
        shard_a < 0x1_0000_0000,
        shard_b < 0x1_0000_0000,
        nth_a < 0xffff_ffff,
        nth_b < 0xffff_ffff,
        first_id(shard_a) + nth_a == first_id(shard_b) + nth_b,
    ensures
        shard_a == shard_b && nth_a == nth_b,
{
    assert((shard_a << 32) | 1 == (shard_a % 0x1_0000_0000) * 0x1_0000_0000 + 1) by (bit_vector);
    assert((shard_b << 32) | 1 == (shard_b % 0x1_0000_0000) * 0x1_0000_0000 + 1) by (bit_vector);
}

/// Why the dispatching threads gave no response.
#[derive(Debug, Clone, Copy, PartialEq, Eq, Structural)]
pub enum PoolFault {
    SenderClosed,
    ResponseDropped,
}

/// What is said of a failed dispatch.
pub open spec fn pool_fault_text(fault: PoolFault) -> Seq<char> {
    match fault {
        PoolFault::SenderClosed => "dispatch pool sender closed"@,
        PoolFault::ResponseDropped => "dispatch worker dropped response"@,
    }
}

/// The error for a failed dispatch.
pub fn pool_error(fault: PoolFault) -> (error: TcpServerError)
    ensures
        error@ == TcpServerFault::Decode(pool_fault_text(fault)),
{
    match fault {
        PoolFault::SenderClosed => TcpServerError::Decode("dispatch pool sender closed".to_owned()),
        PoolFault::ResponseDropped => TcpServerError::Decode(
            "dispatch worker dropped response".to_owned(),
        ),
    }
}

// ---- a server connection ----

/// What a server connection waits for.
#[derive(Debug)]
pub enum TcpState {
    /// The header of the next request.
    Header,
    /// The body under a header.
    Body { header: EnvelopeHeader },
    /// The response to a request.
    Serving,
    /// The response's way to the peer.
    Replying,
    /// Nothing more.
    Closed,
}

/// What came of the connection's last action.
#[derive(Debug)]
pub enum TcpEvent {
    HeaderRead([u8; 16]),
    BodyRead(Vec<u8>),
    Served(Result<WireResponse, PoolFault>),
    Written,
    /// Reading or writing failed.
    IoFailed { kind: IoKind, text: String },
}

/// What a server connection does next.
#[derive(Debug)]
pub enum TcpAction {
    /// Read a header.
    ReadHeader,
    /// Read that many bytes.
    ReadBody(usize),
    /// Dispatch a request.
    Serve(WireRequest),
    /// Write these bytes.
    Write(Vec<u8>),
    /// Close the connection in peace.
    Close,
    /// Close the connection with an error.
    Fail(TcpServerError),
    /// The response is too long for an archive or an envelope.
    Unframeable,
}

/// Whether an event is one that a state waits for.
pub open spec fn tcp_awaits(state: TcpState, event: TcpEvent) -> bool {
    match state {
        TcpState::Header => event is HeaderRead || event is IoFailed,
        TcpState::Body { .. } => event is BodyRead || event is IoFailed,
        TcpState::Serving => event is Served,
        TcpState::Replying => event is Written || event is IoFailed,
        TcpState::Closed => false,
    }
}

/// The connection fails with a decoding error of the given text.
pub open spec fn tcp_fails(next: TcpState, action: TcpAction, fault: TcpServerFault) -> bool {
    &&& next is Closed
    &&& action matches TcpAction::Fail(error)
    &&& error@ == fault
}

/// How a header is taken: a bad one or one that announces too long a body ends
/// the connection before any of the body is read.
pub open spec fn header_taken(header: Seq<u8>, next: TcpState, action: TcpAction) -> bool {
    match header_decoded(header) {
        Err(fault) => tcp_fails(next, action, TcpServerFault::Decode(envelope_text(fault))),
        Ok(decoded) => if decoded.len > MAX_FRAME_BYTES {
            tcp_fails(
                next,
                action,
                TcpServerFault::Decode(
                    "envelope body_len "@ + dec(decoded.len as nat) + " exceeds MAX_FRAME_BYTES "@
                        + dec(MAX_FRAME_BYTES as nat),
                ),
            )
        } else {
            next == (TcpState::Body { header: decoded }) && action == TcpAction::ReadBody(
                decoded.len as usize,
            )
        },
    }
}

/// How a body is taken: a request in it is served; a wrong length, a wrong
/// checksum or a bad archive ends the connection.
pub open spec fn body_taken(
    header: EnvelopeHeader,
    body: Seq<u8>,
    next: TcpState,
    action: TcpAction,
) -> bool {
    match body_fault(header, body) {
        Some(fault) => tcp_fails(next, action, TcpServerFault::Decode(envelope_text(fault))),
        None => match request_archived(body) {
            Some(fields) => {
                &&& next is Serving
                &&& action matches TcpAction::Serve(request)
                &&& request@ == fields
            },
            None => exists|error: CodecError| #[trigger]
                tcp_fails(
                    next,
                    action,
                    TcpServerFault::Decode("WireRequest: "@ + codec_debug(error)),
                ) && error is Decode,
        },
    }
}

/// How a response is taken: its archive goes out in an envelope. One that does
/// not fit either is not sent, and one with too long a message ends the
/// connection.
pub open spec fn response_taken(response: WireResponse, next: TcpState, action: TcpAction) -> bool {
    if !response_fits(response@) {
        next is Closed && action is Unframeable
    } else {
        match response_archive(response@) {
            Some(archive) => {
                &&& is_short(response.message@)
                &&& response_archived(archive) == Some(response@)
                &&& if archive.len() <= u32::MAX {
                    &&& next is Replying
                    &&& action matches TcpAction::Write(wire)
                    &&& wire@ == envelope_bytes(archive)
                } else {
                    next is Closed && action is Unframeable
                }
            },
            None => {
                &&& !is_short(response.message@)
                &&& exists|error: CodecError| #[trigger]
                    tcp_fails(
                        next,
                        action,
                        TcpServerFault::Encode("WireResponse: "@ + codec_debug(error)),
                    ) && error is Encode
            },
        }
    }
}

/// How a connection goes on.
pub open spec fn tcp_goes_on(
    state: TcpState,
    event: TcpEvent,
    next: TcpState,
    action: TcpAction,
) -> bool {
    match (state, event) {
        (_, TcpEvent::IoFailed { kind, text }) => if kind != IoKind::Other {
            next is Closed && action is Close
        } else {
            tcp_fails(next, action, TcpServerFault::Io(text@))
        },
        (TcpState::Header, TcpEvent::HeaderRead(header)) => header_taken(header@, next, action),
        (TcpState::Body { header }, TcpEvent::BodyRead(body)) => body_taken(
            header,
            body@,
            next,
            action,
        ),
        (TcpState::Serving, TcpEvent::Served(served)) => match served {
            Ok(response) => response_taken(response, next, action),
            Err(fault) => tcp_fails(next, action, TcpServerFault::Decode(pool_fault_text(fault))),
        },
        (TcpState::Replying, TcpEvent::Written) => next is Header && action is ReadHeader,
        _ => next is Closed && action is Close,
    }
}

/// What a new connection does first.
pub fn tcp_start() -> (first: (TcpState, TcpAction))
    ensures
        first.0 is Header,
        first.1 is ReadHeader,
{
    (TcpState::Header, TcpAction::ReadHeader)
}

fn take_header(bytes: &[u8; 16]) -> (next: (TcpState, TcpAction))
    ensures
        header_taken(bytes@, next.0, next.1),
{
    match decode_envelope_header(bytes) {
        Err(error) => (
            TcpState::Closed,
            TcpAction::Fail(TcpServerError::Decode(envelope_message(&error))),
        ),
        Ok(header) => {
            let len: usize = header.len as usize;
            if len > MAX_FRAME_BYTES {
                let mut text = String::new();
                text.push_str("envelope body_len ");
                push_dec(&mut text, len as u128);
                text.push_str(" exceeds MAX_FRAME_BYTES ");
                push_dec(&mut text, MAX_FRAME_BYTES as u128);
                assert(text@ =~= "envelope body_len "@ + dec(len as nat)
                    + " exceeds MAX_FRAME_BYTES "@ + dec(MAX_FRAME_BYTES as nat));
                (TcpState::Closed, TcpAction::Fail(TcpServerError::Decode(text)))
            } else {
                (TcpState::Body { header }, TcpAction::ReadBody(len))
            }
        },
    }
}

fn take_body(header: EnvelopeHeader, body: &[u8]) -> (next: (TcpState, TcpAction))
    ensures
        body_taken(header, body@, next.0, next.1),
{
    match verify_envelope_crc(&header, body) {
        Err(error) => (
            TcpState::Closed,
            TcpAction::Fail(TcpServerError::Decode(envelope_message(&error))),
        ),
        Ok(()) => match WireRequest::decode(body) {
            Ok(request) => (TcpState::Serving, TcpAction::Serve(request)),
            Err(error) => {
                let text = codec_message("WireRequest: ", &error);
                let next = TcpState::Closed;
                let action = TcpAction::Fail(TcpServerError::Decode(text));
                assert(tcp_fails(
                    next,
                    action,
                    TcpServerFault::Decode("WireRequest: "@ + codec_debug(error)),
                ));
                (next, action)
            },
        },
    }
}

fn take_response(response: &WireResponse) -> (next: (TcpState, TcpAction))
    ensures
        response_taken(*response, next.0, next.1),
{
    if !response.fits() {
        return (TcpState::Closed, TcpAction::Unframeable);
    }
    match response.encode() {
        Ok(archive) => {
            if archive.len() as u64 <= u32::MAX as u64 {
                (TcpState::Replying, TcpAction::Write(encode_envelope(&archive)))
            } else {
                (TcpState::Closed, TcpAction::Unframeable)
            }
        },
        Err(error) => {
            let text = codec_message("WireResponse: ", &error);
            let next = TcpState::Closed;
            let action = TcpAction::Fail(TcpServerError::Encode(text));
            assert(tcp_fails(
                next,
                action,
                TcpServerFault::Encode("WireResponse: "@ + codec_debug(error)),
            ));
            (next, action)
        },
    }
}

/// Go on after an event.
pub fn tcp_advance(state: TcpState, event: TcpEvent) -> (next: (TcpState, TcpAction))
    requires
        tcp_awaits(state, event),
    ensures
        tcp_goes_on(state, event, next.0, next.1),
        next.1 matches TcpAction::ReadBody(len) ==> len <= MAX_FRAME_BYTES,
{
    match (state, event) {
        (_, TcpEvent::IoFailed { kind, text }) => if is_peer_disconnect(kind) {
            (TcpState::Closed, TcpAction::Close)
        } else {
            (TcpState::Closed, TcpAction::Fail(TcpServerError::Io(text)))
        },
        (TcpState::Header, TcpEvent::HeaderRead(header)) => take_header(&header),
        (TcpState::Body { header }, TcpEvent::BodyRead(body)) => take_body(header, &body),
        (TcpState::Serving, TcpEvent::Served(served)) => match served {
            Ok(response) => take_response(&response),
            Err(fault) => (TcpState::Closed, TcpAction::Fail(pool_error(fault))),
        },
        (TcpState::Replying, TcpEvent::Written) => (TcpState::Header, TcpAction::ReadHeader),
        _ => (TcpState::Closed, TcpAction::Close),
    }
}

// ---- a client's exchange ----

/// The bytes that a client sends for a request; none where the request is too
/// long for an archive or an envelope.
pub fn request_wire(request: &WireRequest) -> (wire: Result<Option<Vec<u8>>, TcpClientError>)
    ensures
        match wire {
            Ok(Some(bytes)) => {
                &&& request_fits(request@)
                &&& request_short(request@)
                &&& request_archive(request@) matches Some(archive)
                &&& archive.len() <= u32::MAX
                &&& bytes@ == envelope_bytes(archive)
                &&& request_archived(archive) == Some(request@)
            },
            Ok(None) => !request_fits(request@) || (request_archive(request@) matches Some(archive)
                && archive.len() > u32::MAX),
            Err(error) => {
                &&& request_fits(request@)
                &&& !request_short(request@)
                &&& exists|cause: CodecError|
                    cause is Encode && error@ == TcpClientFault::Codec(
                        "encode req: "@ + #[trigger] codec_debug(cause),
                    )
            },
        },
{
    if !request.fits() {
        return Ok(None);
    }
    match request.encode() {
        Ok(archive) => {
            if archive.len() as u64 <= u32::MAX as u64 {
                Ok(Some(encode_envelope(&archive)))
            } else {
                Ok(None)
            }
        },
        Err(error) => Err(TcpClientError::Codec(codec_message("encode req: ", &error))),
    }
}

/// Read the header of a response: how many bytes follow.
pub fn response_header(bytes: &[u8; 16]) -> (header: Result<EnvelopeHeader, TcpClientError>)
    ensures
        match header {
            Ok(h) => header_decoded(bytes@) == Ok::<EnvelopeHeader, EnvelopeFault>(h) && h.len
                <= MAX_FRAME_BYTES,
            Err(error) => match header_decoded(bytes@) {
                Err(fault) => error@ == TcpClientFault::Codec(envelope_text(fault)),
                Ok(h) => h.len > MAX_FRAME_BYTES && error@ == TcpClientFault::Codec(
                    "resp envelope.len "@ + dec(h.len as nat) + " too large"@,
                ),
            },
        },
{
    match decode_envelope_header(bytes) {
        Err(error) => Err(TcpClientError::Codec(envelope_message(&error))),
        Ok(header) => {
            if header.len as usize > MAX_FRAME_BYTES {
                let mut text = String::new();
                text.push_str("resp envelope.len ");
                push_dec(&mut text, header.len as u128);
                text.push_str(" too large");
                assert(text@ =~= "resp envelope.len "@ + dec(header.len as nat) + " too large"@);
                return Err(TcpClientError::Codec(text));
            }
            Ok(header)
        },
    }
}

/// Read the response under a header.
pub fn response_body(header: EnvelopeHeader, body: &[u8]) -> (response: Result<
    WireResponse,
    TcpClientError,
>)
    ensures
        match response {
            Ok(r) => body_fault(header, body@) is None && response_archived(body@) == Some(r@),
            Err(error) => match body_fault(header, body@) {
                Some(fault) => error@ == TcpClientFault::Codec(envelope_text(fault)),
                None => response_archived(body@) is None && exists|cause: CodecError|
                    cause is Decode && error@ == TcpClientFault::Codec(
                        "decode resp: "@ + #[trigger] codec_debug(cause),
                    ),
            },
        },
{
    match verify_envelope_crc(&header, body) {
        Err(error) => Err(TcpClientError::Codec(envelope_message(&error))),
        Ok(()) => match WireResponse::decode(body) {
            Ok(response) => Ok(response),
            Err(error) => Err(TcpClientError::Codec(codec_message("decode resp: ", &error))),
        },
    }
}

// ---- laws ----

/// The header and the body of an enveloped archive are taken as they were sent.
proof fn lemma_frame_taken(archive: Seq<u8>)
    requires
        archive.len() <= MAX_FRAME_BYTES,
    ensures
        ({
            let wire = envelope_bytes(archive);
            &&& wire.len() == 16 + archive.len()
            &&& wire.skip(16) == archive
            &&& header_decoded(wire.take(16)) matches Ok(header)
            &&& header.len == archive.len()
            &&& body_fault(header, archive) is None
        }),
{
    envelope_round_trip(archive);
    lemma_le_bytes_len(WIRE_ENVELOPE_VERSION as nat, 4);
    lemma_le_bytes_len(crc32c_of(archive) as nat, 4);
    lemma_le_bytes_len(archive.len(), 4);
}

/// What a client sends, the server serves: it reads the header, then exactly the
/// body, and dispatches the client's request.
pub proof fn tcp_request_arrives(
    request: RequestFields,
    archive: Seq<u8>,
    middle: TcpState,
    read: TcpAction,
    end: TcpState,
    serve: TcpAction,
)
    requires
        request_archived(archive) == Some(request),
        archive.len() <= MAX_FRAME_BYTES,
        header_taken(envelope_bytes(archive).take(16), middle, read),
        middle matches TcpState::Body { header } ==> body_taken(
            header,
            envelope_bytes(archive).skip(16),
            end,
            serve,
        ),
    ensures
        read == TcpAction::ReadBody(archive.len() as usize),
        end is Serving,
        serve matches TcpAction::Serve(r) && r@ == request,
{
    lemma_frame_taken(archive);
}

/// What a server answers, the client reads.
pub proof fn tcp_response_arrives(response: WireResponse, next: TcpState, action: TcpAction)
    requires
        response_taken(response, next, action),
        action is Write,
        response_archive(response@) matches Some(archive) && archive.len() <= MAX_FRAME_BYTES,
    ensures
        action matches TcpAction::Write(wire) && {
            &&& header_decoded(wire@.take(16)) matches Ok(header)
            &&& header.len <= MAX_FRAME_BYTES
            &&& wire@.len() == 16 + header.len
            &&& body_fault(header, wire@.skip(16)) is None
            &&& response_archived(wire@.skip(16)) == Some(response@)
        },
{
    let archive = response_archive(response@)->Some_0;
    lemma_frame_taken(archive);
}

/// A body that does not match its header ends the connection: nothing in it is
/// ever served.
pub proof fn corrupt_body_is_not_served(
    header: EnvelopeHeader,
    body: Seq<u8>,
    next: TcpState,
    action: TcpAction,
)
    requires
        body_fault(header, body) is Some,
        body_taken(header, body, next, action),
    ensures
        next is Closed,
        action is Fail,
{
}

/// A body that its header announces as too long is never read: the connection
/// ends at the header.
pub proof fn oversized_frame_is_not_read(
    header: Seq<u8>,
    announced: EnvelopeHeader,
    next: TcpState,
    action: TcpAction,
)
    requires
        header_decoded(header) == Ok::<EnvelopeHeader, EnvelopeFault>(announced),
        announced.len > MAX_FRAME_BYTES,
        header_taken(header, next, action),
    ensures
        next is Closed,
        action is Fail,
{
}

/// A connection reads a body only under a header of this protocol that announces no
/// more than the largest frame, serves only a body that has the length and the checksum
/// of its header, and turns to the next request once its response is written. It ends
/// in peace where the peer is gone, and with the error where reading or writing failed
/// otherwise or nobody answered.
pub proof fn tcp_connection_keeps_to_the_protocol(
    state: TcpState,
    event: TcpEvent,
    next: TcpState,
    action: TcpAction,
)
    requires
        tcp_awaits(state, event),
        tcp_goes_on(state, event, next, action),
    ensures
        action matches TcpAction::ReadBody(n) ==> (event matches TcpEvent::HeaderRead(bytes) && {
            &&& bytes@.subrange(0, 4) == seq![0x57u8, 0x4du8, 0x42u8, 0x54u8]
            &&& le_value(bytes@.subrange(4, 8)) == 1
            &&& n == le_value(bytes@.subrange(12, 16))
            &&& n <= MAX_FRAME_BYTES
            &&& next matches TcpState::Body { header }
            &&& header.len == n
            &&& header.crc == le_value(bytes@.subrange(8, 12))
        }),
        action matches TcpAction::Serve(request) ==> next is Serving && (
        state matches TcpState::Body { header } && event matches TcpEvent::BodyRead(body)
            && body@.len() == header.len && crc32c_of(body@) == header.crc && request_archived(
            body@,
        ) == Some(request@)),
        action matches TcpAction::Write(wire) ==> next is Replying && (
        event matches TcpEvent::Served(served) && served is Ok),
        action is ReadHeader ==> next is Header && event is Written,
        event is Written ==> action is ReadHeader,
        event matches TcpEvent::Served(served) ==> (served is Err ==> action is Fail),
        event matches TcpEvent::IoFailed { kind, text } ==> next is Closed && if kind
            == IoKind::Other {
            action matches TcpAction::Fail(error) && error@ == TcpServerFault::Io(text@)
        } else {
            action is Close
        },
        action is Close || action is Fail || action is Unframeable ==> next is Closed,
{
    if let TcpEvent::HeaderRead(bytes) = event {
        lemma_le_value_bound(bytes@.subrange(8, 12));
        lemma_le_value_bound(bytes@.subrange(12, 16));
        lemma_le_capacities();
        assert(WIRE_ENVELOPE_MAGIC@ =~= seq![0x57u8, 0x4du8, 0x42u8, 0x54u8]);
    }
}

/// A response that can be archived and framed is sent, and what is sent is an envelope
/// of it; any other ends the connection without a byte.
pub proof fn responses_are_sent_whole_or_not_at_all(
    response: WireResponse,
    next: TcpState,
    action: TcpAction,
)
    requires
        response_taken(response, next, action),
    ensures
        action matches TcpAction::Write(wire) ==> next is Replying && (crate::envelope::envelope_decoded(
            wire@,
        ) matches Ok(archive) && response_archived(archive) == Some(response@)),
        !(action is Write) ==> next is Closed,
        (response_archive(response@) matches Some(archive) && archive.len() <= 0xffff_ffff
            && response_fits(response@)) ==> action is Write,
{
    if let Some(archive) = response_archive(response@) {
        if archive.len() <= u32::MAX {
            crate::envelope::envelope_round_trip(archive);
        }
    }
}

} // verus!
