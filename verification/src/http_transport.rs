//! The HTTP/1.1 transport: the same enveloped messages as over TCP, in the
//! bodies of POST requests and their responses.
//!
//! The application owns the sockets: it performs an [`HttpAction`] and hands
//! back the [`HttpEvent`] that came of it.

use bytes::Bytes;
use vstd::prelude::*;
use vstd::utf8::{decode_utf8, encode_utf8, valid_utf8};

use crate::archive::is_short;
use crate::envelope::{decode_envelope, encode_envelope, envelope_bytes, envelope_decoded};
use crate::http_head::{
    blank_line_at, find_double_crlf, head_end, head_parsed, keeps_alive, lemma_head_end, no_headers,
    parse_http_head_from_buf, with_header, HeadFields, HeaderFields, Headers, RequestHead,
};
use crate::le::{copy_bytes, push_bytes};
use crate::message::{
    request_archive, request_archived, request_fits, request_short, response_archive,
    response_archived, response_fits, CodecError, WireRequest, WireResponse,
};
use crate::remote::{is_peer_disconnect, CallError, CallFault, IoKind};
use crate::tcp_transport::{
    codec_debug, codec_message, envelope_message, envelope_text, pool_error, pool_fault_text,
    prefixed, tcp_server_text, PoolFault, TcpServerFault,
};
use crate::text::{
    absent, byte_len, chars_of, copy_chars, debug_of, debug_text, dec, find_char, find_from,
    is_digit, lemma_dec_digits, lemma_dec_parses, lemma_find_char_is, parsed_uint, push_dec,
    same_text, text_of, trim, trimmed,
};
use crate::wire::bytes_of;

verus! {

/// Path of the calls.
pub const RPC_PATH: &'static str = "/wmbt/v1/rpc";

/// Path of the liveness check.
pub const PING_PATH: &'static str = "/wmbt/v1/ping";

/// Type of the bodies in both directions.
pub const CONTENT_TYPE: &'static str = "application/x-wombatkv-rkyv";

/// The largest body accepted.
pub const MAX_BODY_BYTES: usize = 268_435_456;

/// The length beyond which a head without an end is given up.
pub const MAX_HEAD_BYTES: usize = 16_384;

/// How much is read at a time.
pub const READ_CHUNK_BYTES: usize = 4096;

// ---- errors ----

/// Errors of a server connection.
#[derive(Debug)]
pub enum HttpServerError {
    Io(String),
    BadRequest(String),
    Decode(String),
    Encode(String),
}

/// The contents of an [`HttpServerError`].
pub enum HttpServerFault {
    Io(Seq<char>),
    BadRequest(Seq<char>),
    Decode(Seq<char>),
    Encode(Seq<char>),
}

impl View for HttpServerError {
    type V = HttpServerFault;

    open spec fn view(&self) -> HttpServerFault {
        match *self {
            HttpServerError::Io(text) => HttpServerFault::Io(text@),
            HttpServerError::BadRequest(text) => HttpServerFault::BadRequest(text@),
            HttpServerError::Decode(text) => HttpServerFault::Decode(text@),
            HttpServerError::Encode(text) => HttpServerFault::Encode(text@),
        }
    }
}

/// The displayed text of a server error.
pub open spec fn http_server_text(fault: HttpServerFault) -> Seq<char> {
    match fault {
        HttpServerFault::Io(text) => "http io: "@ + text,
        HttpServerFault::BadRequest(text) => "http bad request: "@ + text,
        HttpServerFault::Decode(text) => "http decode: "@ + text,
        HttpServerFault::Encode(text) => "http encode: "@ + text,
    }
}

impl HttpServerError {
    /// The error in words.
    pub fn to_text(&self) -> (text: String)
        ensures
            text@ == http_server_text(self@),
    {
        match self {
            HttpServerError::Io(source) => prefixed("http io: ", source),
            HttpServerError::BadRequest(source) => prefixed("http bad request: ", source),
            HttpServerError::Decode(source) => prefixed("http decode: ", source),
            HttpServerError::Encode(source) => prefixed("http encode: ", source),
        }
    }
}

/// Errors of a client.
#[derive(Debug)]
pub enum HttpClientError {
    Io(String),
    Codec(String),
    /// The server answered with another status than 200.
    Http { status: u16, message: String },
    /// The daemon answered with a status that the call does not expect.
    Status { code: u8, message: String },
}

/// The contents of an [`HttpClientError`].
pub enum HttpClientFault {
    Io(Seq<char>),
    Codec(Seq<char>),
    Http { status: u16, message: Seq<char> },
    Status { code: u8, message: Seq<char> },
}

impl View for HttpClientError {
    type V = HttpClientFault;

    open spec fn view(&self) -> HttpClientFault {
        match *self {
            HttpClientError::Io(text) => HttpClientFault::Io(text@),
            HttpClientError::Codec(text) => HttpClientFault::Codec(text@),
            HttpClientError::Http { status, message } => HttpClientFault::Http {
                status,
                message: message@,
            },
            HttpClientError::Status { code, message } => HttpClientFault::Status {
                code,
                message: message@,
            },
        }
    }
}

/// The displayed text of a client error.
pub open spec fn http_client_text(fault: HttpClientFault) -> Seq<char> {
    match fault {
        HttpClientFault::Io(text) => "http client io: "@ + text,
        HttpClientFault::Codec(text) => "http client codec: "@ + text,
        HttpClientFault::Http { status, message } => "http client http status="@ + dec(
            status as nat,
        ) + " msg="@ + debug_of(message),
        HttpClientFault::Status { code, message } => "http client server status code="@ + dec(
            code as nat,
        ) + " msg="@ + debug_of(message),
    }
}

impl HttpClientError {
    /// The error in words.
    pub fn to_text(&self) -> (text: String)
        ensures
            text@ == http_client_text(self@),
    {
        match self {
            HttpClientError::Io(source) => prefixed("http client io: ", source),
            HttpClientError::Codec(source) => prefixed("http client codec: ", source),
            HttpClientError::Http { status, message } => {
                let mut text = String::new();
                text.push_str("http client http status=");
                push_dec(&mut text, *status as u128);
                text.push_str(" msg=");
                text.push_str(&debug_text(message));
                assert(text@ =~= http_client_text(self@));
                text
            },
            HttpClientError::Status { code, message } => {
                let mut text = String::new();
                text.push_str("http client server status code=");
                push_dec(&mut text, *code as u128);
                text.push_str(" msg=");
                text.push_str(&debug_text(message));
                assert(text@ =~= http_client_text(self@));
                text
            },
        }
    }

    /// The error of a call whose exchange went through.
    pub fn from_call(error: CallError) -> (failed: Self)
        ensures
            failed@ == match error@ {
                CallFault::Codec(text) => HttpClientFault::Codec(text),
                CallFault::Status { code, message } => HttpClientFault::Status { code, message },
            },
    {
        match error {
            CallError::Codec(text) => HttpClientError::Codec(text),
            CallError::Status { code, message } => HttpClientError::Status { code, message },
        }
    }
}

/// Outcome of a get over HTTP.
#[derive(Debug, Clone)]
pub enum HttpGetOutcome {
    Hit { payload: Bytes },
    Miss,
}

impl HttpGetOutcome {
    /// The outcome for an answered value.
    pub fn from_answer(answer: Option<Bytes>) -> (outcome: Self)
        ensures
            match answer {
                Some(value) => outcome matches HttpGetOutcome::Hit { payload } && bytes_of(payload)
                    == bytes_of(value),
                None => outcome is Miss,
            },
    {
        match answer {
            Some(payload) => HttpGetOutcome::Hit { payload },
            None => HttpGetOutcome::Miss,
        }
    }
}

// ---- responses of the server ----

/// The bytes of a response.
pub open spec fn response_bytes(
    status: nat,
    reason: Seq<char>,
    content_type: Seq<char>,
    body: Seq<u8>,
    keep_alive: bool,
) -> Seq<u8> {
    encode_utf8(
        "HTTP/1.1 "@ + dec(status) + " "@ + reason + "\r\nContent-Type: "@ + content_type
            + "\r\nContent-Length: "@ + dec(body.len()) + "\r\nConnection: "@ + (if keep_alive {
            "keep-alive"@
        } else {
            "close"@
        }) + "\r\n\r\n"@,
    ) + body
}

fn respond(status: u16, reason: &str, content_type: &str, body: &[u8], keep_alive: bool) -> (wire:
    Vec<u8>)
    ensures
        wire@ == response_bytes(status as nat, reason@, content_type@, body@, keep_alive),
{
    let connection: &str = if keep_alive {
        "keep-alive"
    } else {
        "close"
    };
    let mut head = String::new();
    head.push_str("HTTP/1.1 ");
    push_dec(&mut head, status as u128);
    head.push_str(" ");
    head.push_str(reason);
    head.push_str("\r\nContent-Type: ");
    head.push_str(content_type);
    head.push_str("\r\nContent-Length: ");
    push_dec(&mut head, body.len() as u128);
    head.push_str("\r\nConnection: ");
    head.push_str(connection);
    head.push_str("\r\n\r\n");
    assert(head@ =~= "HTTP/1.1 "@ + dec(status as nat) + " "@ + reason@ + "\r\nContent-Type: "@
        + content_type@ + "\r\nContent-Length: "@ + dec(body@.len()) + "\r\nConnection: "@ + (
    if keep_alive {
        "keep-alive"@
    } else {
        "close"@
    }) + "\r\n\r\n"@);
    let mut wire = copy_bytes(head.as_str().as_bytes());
    push_bytes(&mut wire, body);
    wire
}

// ---- a server connection ----

/// What a server connection waits for.
#[derive(Debug)]
pub enum HttpStage {
    /// More of a head.
    Head,
    /// More of a body of that length.
    Body { len: usize, keep_alive: bool },
    /// The response to a request.
    Serving { keep_alive: bool },
    /// The response's way to the peer.
    Replying { keep_alive: bool },
    /// The way of a refusal to the peer, whether or not it gets there.
    Refusing,
    /// Nothing more.
    Closed,
}

/// A server connection: what was read and not yet used, and what it waits for.
#[derive(Debug)]
pub struct HttpConnection {
    pub buf: Vec<u8>,
    pub stage: HttpStage,
}

/// What came of the connection's last action.
#[derive(Debug)]
pub enum HttpEvent {
    /// These bytes were read; none means that the peer closed.
    Read(Vec<u8>),
    Served(Result<WireResponse, PoolFault>),
    Written,
    /// Reading or writing failed.
    IoFailed { kind: IoKind, text: String },
}

/// What a server connection does next.
#[derive(Debug)]
pub enum HttpAction {
    /// Read up to that many bytes.
    Read(usize),
    /// Dispatch a request.
    Serve(WireRequest),
    /// Write these bytes.
    Write(Vec<u8>),
    /// Close the connection in peace.
    Close,
    /// Close the connection with an error.
    Fail(HttpServerError),
    /// The response is too long for an archive or an envelope.
    Unframeable,
}

/// Whether an event is one that a stage waits for.
pub open spec fn http_awaits(stage: HttpStage, event: HttpEvent) -> bool {
    match stage {
        HttpStage::Head => event is Read || event is IoFailed,
        HttpStage::Body { .. } => event is Read || event is IoFailed,
        HttpStage::Serving { .. } => event is Served,
        HttpStage::Replying { .. } => event is Written || event is IoFailed,
        HttpStage::Refusing => event is Written || event is IoFailed,
        HttpStage::Closed => false,
    }
}

/// The connection fails.
pub open spec fn http_fails(
    after: HttpConnection,
    action: HttpAction,
    fault: HttpServerFault,
) -> bool {
    &&& after.stage is Closed
    &&& action matches HttpAction::Fail(error)
    &&& error@ == fault
}

/// The connection closes in peace.
pub open spec fn http_closes(after: HttpConnection, action: HttpAction) -> bool {
    after.stage is Closed && action is Close
}

/// The connection writes a response and goes on with what is left over.
pub open spec fn http_replies(
    after: HttpConnection,
    action: HttpAction,
    rest: Seq<u8>,
    keep_alive: bool,
    wire: Seq<u8>,
) -> bool {
    &&& after.buf@ == rest
    &&& after.stage == (HttpStage::Replying { keep_alive })
    &&& action matches HttpAction::Write(bytes)
    &&& bytes@ == wire
}

/// The connection writes a refusal and closes.
pub open spec fn http_refuses(after: HttpConnection, action: HttpAction, wire: Seq<u8>) -> bool {
    &&& after.stage is Refusing
    &&& action matches HttpAction::Write(bytes)
    &&& bytes@ == wire
}

/// How a connection goes on with what it has of a body of `len` bytes: it reads
/// until the body is there, then takes the request in it. What follows the body
/// is left for the next request.
pub open spec fn body_goes_on(
    len: nat,
    keep_alive: bool,
    buf: Seq<u8>,
    after: HttpConnection,
    action: HttpAction,
) -> bool {
    if buf.len() < len {
        &&& after.buf@ == buf
        &&& after.stage matches HttpStage::Body { len: l, keep_alive: k }
        &&& l == len
        &&& k == keep_alive
        &&& action matches HttpAction::Read(n)
        &&& n == if len - buf.len() < READ_CHUNK_BYTES {
            len - buf.len()
        } else {
            READ_CHUNK_BYTES as int
        }
    } else {
        match envelope_decoded(buf.take(len as int)) {
            Err(fault) => http_fails(after, action, HttpServerFault::Decode(envelope_text(fault))),
            Ok(body) => match request_archived(body) {
                Some(fields) => {
                    &&& after.buf@ == buf.skip(len as int)
                    &&& after.stage == (HttpStage::Serving { keep_alive })
                    &&& action matches HttpAction::Serve(request)
                    &&& request@ == fields
                },
                None => exists|error: CodecError| #[trigger]
                    http_fails(
                        after,
                        action,
                        HttpServerFault::Decode("WireRequest: "@ + codec_debug(error)),
                    ) && error is Decode,
            },
        }
    }
}

/// How a request with the given head is taken; `rest` is what follows the head.
pub open spec fn routes(
    head: HeadFields,
    rest: Seq<u8>,
    after: HttpConnection,
    action: HttpAction,
) -> bool {
    if head.method == "GET"@ && head.path == "/wmbt/v1/ping"@ {
        http_replies(
            after,
            action,
            rest,
            head.keep_alive,
            response_bytes(200, "OK"@, "text/plain"@, Seq::empty(), head.keep_alive),
        )
    } else if !(head.method == "POST"@ && head.path == "/wmbt/v1/rpc"@) {
        http_replies(
            after,
            action,
            rest,
            head.keep_alive,
            response_bytes(
                404,
                "Not Found"@,
                "text/plain"@,
                encode_utf8("unknown route"@),
                head.keep_alive,
            ),
        )
    } else {
        match head.content_length {
            None => http_refuses(
                after,
                action,
                response_bytes(
                    411,
                    "Length Required"@,
                    "text/plain"@,
                    encode_utf8("missing Content-Length"@),
                    false,
                ),
            ),
            Some(len) => if len > MAX_BODY_BYTES {
                http_refuses(
                    after,
                    action,
                    response_bytes(
                        413,
                        "Payload Too Large"@,
                        "text/plain"@,
                        encode_utf8(too_large_text(len)),
                        false,
                    ),
                )
            } else {
                body_goes_on(len, head.keep_alive, rest, after, action)
            },
        }
    }
}

/// What is said of a body that is too long.
pub open spec fn too_large_text(len: nat) -> Seq<char> {
    "body "@ + dec(len) + " > MAX_BODY_BYTES "@ + dec(MAX_BODY_BYTES as nat)
}

/// How a connection goes on with what it has of a head: it reads until the head
/// is there or too long, then takes the request.
pub open spec fn head_goes_on(buf: Seq<u8>, after: HttpConnection, action: HttpAction) -> bool {
    match head_end(buf) {
        None => if buf.len() > MAX_HEAD_BYTES {
            http_fails(
                after,
                action,
                HttpServerFault::BadRequest(
                    "header section exceeds "@ + dec(MAX_HEAD_BYTES as nat) + " bytes"@,
                ),
            )
        } else {
            &&& after.buf@ == buf
            &&& after.stage is Head
            &&& action == HttpAction::Read(READ_CHUNK_BYTES)
        },
        Some(at) => match head_parsed(buf.take(at as int)) {
            Err(text) => http_fails(after, action, HttpServerFault::BadRequest(text)),
            Ok(head) => routes(head, buf.skip(at as int + 4), after, action),
        },
    }
}

/// How a response is taken: its archive goes out in an envelope. One that does
/// not fit either is not sent, and one with too long a message ends the
/// connection.
pub open spec fn served_goes_on(
    served: Result<WireResponse, PoolFault>,
    keep_alive: bool,
    buf: Seq<u8>,
    after: HttpConnection,
    action: HttpAction,
) -> bool {
    match served {
        Err(fault) => http_fails(
            after,
            action,
            HttpServerFault::Decode(
                "dispatch_async: "@ + tcp_server_text(
                    TcpServerFault::Decode(pool_fault_text(fault)),
                ),
            ),
        ),
        Ok(response) => if !response_fits(response@) {
            after.stage is Closed && action is Unframeable
        } else {
            match response_archive(response@) {
                Some(archive) => {
                    &&& is_short(response.message@)
                    &&& response_archived(archive) == Some(response@)
                    &&& if archive.len() <= u32::MAX {
                        http_replies(
                            after,
                            action,
                            buf,
                            keep_alive,
                            response_bytes(
                                200,
                                "OK"@,
                                "application/x-wombatkv-rkyv"@,
                                envelope_bytes(archive),
                                keep_alive,
                            ),
                        )
                    } else {
                        after.stage is Closed && action is Unframeable
                    }
                },
                None => {
                    &&& !is_short(response.message@)
                    &&& exists|error: CodecError| #[trigger]
                        http_fails(
                            after,
                            action,
                            HttpServerFault::Encode("WireResponse: "@ + codec_debug(error)),
                        ) && error is Encode
                },
            }
        },
    }
}

/// How a connection goes on.
pub open spec fn http_goes_on(
    before: HttpConnection,
    event: HttpEvent,
    after: HttpConnection,
    action: HttpAction,
) -> bool {
    match (before.stage, event) {
        (HttpStage::Head, HttpEvent::Read(chunk)) => if chunk@.len() == 0 {
            http_closes(after, action)
        } else {
            head_goes_on(before.buf@ + chunk@, after, action)
        },
        (HttpStage::Body { len, keep_alive }, HttpEvent::Read(chunk)) => if chunk@.len() == 0 {
            http_fails(after, action, HttpServerFault::Io("peer closed mid-body"@))
        } else {
            body_goes_on(len as nat, keep_alive, before.buf@ + chunk@, after, action)
        },
        (HttpStage::Serving { keep_alive }, HttpEvent::Served(served)) => served_goes_on(
            served,
            keep_alive,
            before.buf@,
            after,
            action,
        ),
        (HttpStage::Replying { keep_alive }, HttpEvent::Written) => if keep_alive {
            head_goes_on(before.buf@, after, action)
        } else {
            http_closes(after, action)
        },
        (HttpStage::Replying { .. }, HttpEvent::IoFailed { kind, text }) => http_fails(
            after,
            action,
            HttpServerFault::Io(text@),
        ),
        (HttpStage::Refusing, _) => http_closes(after, action),
        (_, HttpEvent::IoFailed { kind, text }) => if kind != IoKind::Other {
            http_closes(after, action)
        } else {
            http_fails(after, action, HttpServerFault::Io(text@))
        },
        _ => http_closes(after, action),
    }
}

fn closed() -> (next: (HttpConnection, HttpAction))
    ensures
        http_closes(next.0, next.1),
{
    (HttpConnection { buf: Vec::new(), stage: HttpStage::Closed }, HttpAction::Close)
}

fn failed(error: HttpServerError) -> (next: (HttpConnection, HttpAction))
    ensures
        http_fails(next.0, next.1, error@),
{
    (HttpConnection { buf: Vec::new(), stage: HttpStage::Closed }, HttpAction::Fail(error))
}

fn unframeable() -> (next: (HttpConnection, HttpAction))
    ensures
        next.0.stage is Closed,
        next.1 is Unframeable,
{
    (HttpConnection { buf: Vec::new(), stage: HttpStage::Closed }, HttpAction::Unframeable)
}

fn replying(rest: Vec<u8>, keep_alive: bool, wire: Vec<u8>) -> (next: (HttpConnection, HttpAction))
    ensures
        http_replies(next.0, next.1, rest@, keep_alive, wire@),
{
    (HttpConnection { buf: rest, stage: HttpStage::Replying { keep_alive } }, HttpAction::Write(wire))
}

fn refusing(wire: Vec<u8>) -> (next: (HttpConnection, HttpAction))
    ensures
        http_refuses(next.0, next.1, wire@),
{
    (HttpConnection { buf: Vec::new(), stage: HttpStage::Refusing }, HttpAction::Write(wire))
}

fn body_step(len: usize, keep_alive: bool, buf: Vec<u8>) -> (next: (HttpConnection, HttpAction))
    ensures
        body_goes_on(len as nat, keep_alive, buf@, next.0, next.1),
{
    if buf.len() < len {
        let missing: usize = len - buf.len();
        let n: usize = if missing < READ_CHUNK_BYTES {
            missing
        } else {
            READ_CHUNK_BYTES
        };
        return (
            HttpConnection { buf, stage: HttpStage::Body { len, keep_alive } },
            HttpAction::Read(n),
        );
    }
    let (message, rest) = buf.as_slice().split_at(len);
    assert(message@ =~= buf@.take(len as int));
    assert(rest@ =~= buf@.skip(len as int));
    let body: &[u8] = match decode_envelope(message) {
        Ok(body) => body,
        Err(error) => {
            return failed(HttpServerError::Decode(envelope_message(&error)));
        },
    };
    match WireRequest::decode(body) {
        Ok(request) => (
            HttpConnection { buf: copy_bytes(rest), stage: HttpStage::Serving { keep_alive } },
            HttpAction::Serve(request),
        ),
        Err(error) => {
            let next = failed(
                HttpServerError::Decode(codec_message("WireRequest: ", &error)),
            );
            assert(http_fails(
                next.0,
                next.1,
                HttpServerFault::Decode("WireRequest: "@ + codec_debug(error)),
            ));
            next
        },
    }
}

fn route(head: RequestHead, rest: Vec<u8>) -> (next: (HttpConnection, HttpAction))
    ensures
        routes(head@, rest@, next.0, next.1),
{
    let keep_alive: bool = head.keep_alive;
    if same_text(&head.method, "GET") && same_text(&head.path, PING_PATH) {
        let empty: Vec<u8> = Vec::new();
        let wire = respond(200, "OK", "text/plain", &empty, keep_alive);
        assert(empty@ =~= Seq::<u8>::empty());
        return replying(rest, keep_alive, wire);
    }
    if !(same_text(&head.method, "POST") && same_text(&head.path, RPC_PATH)) {
        let wire = respond(
            404,
            "Not Found",
            "text/plain",
            "unknown route".as_bytes(),
            keep_alive,
        );
        return replying(rest, keep_alive, wire);
    }
    match head.content_length {
        None => refusing(
            respond(
                411,
                "Length Required",
                "text/plain",
                "missing Content-Length".as_bytes(),
                false,
            ),
        ),
        Some(len) => {
            if len > MAX_BODY_BYTES {
                let mut text = String::new();
                text.push_str("body ");
                push_dec(&mut text, len as u128);
                text.push_str(" > MAX_BODY_BYTES ");
                push_dec(&mut text, MAX_BODY_BYTES as u128);
                assert(text@ =~= too_large_text(len as nat));
                return refusing(
                    respond(
                        413,
                        "Payload Too Large",
                        "text/plain",
                        text.as_str().as_bytes(),
                        false,
                    ),
                );
            }
            body_step(len, keep_alive, rest)
        },
    }
}

fn head_step(buf: Vec<u8>) -> (next: (HttpConnection, HttpAction))
    ensures
        head_goes_on(buf@, next.0, next.1),
{
    match find_double_crlf(&buf) {
        None => {
            if buf.len() > MAX_HEAD_BYTES {
                let mut text = String::new();
                text.push_str("header section exceeds ");
                push_dec(&mut text, MAX_HEAD_BYTES as u128);
                text.push_str(" bytes");
                assert(text@ =~= "header section exceeds "@ + dec(MAX_HEAD_BYTES as nat)
                    + " bytes"@);
                return failed(HttpServerError::BadRequest(text));
            }
            (HttpConnection { buf, stage: HttpStage::Head }, HttpAction::Read(READ_CHUNK_BYTES))
        },
        Some(at) => {
            assert(buf.len() == buf@.len());
            let (head, _) = buf.as_slice().split_at(at);
            assert(head@ =~= buf@.take(at as int));
            let (_, rest) = buf.as_slice().split_at(at + 4);
            assert(rest@ =~= buf@.skip(at as int + 4));
            match parse_http_head_from_buf(head) {
                Ok(parsed) => route(parsed, copy_bytes(rest)),
                Err(text) => failed(HttpServerError::BadRequest(text)),
            }
        },
    }
}

fn served_step(served: Result<WireResponse, PoolFault>, keep_alive: bool, buf: Vec<u8>) -> (next: (
    HttpConnection,
    HttpAction,
))
    ensures
        served_goes_on(served, keep_alive, buf@, next.0, next.1),
{
    match served {
        Err(fault) => failed(
            HttpServerError::Decode(prefixed("dispatch_async: ", &pool_error(fault).to_text())),
        ),
        Ok(response) => {
            if !response.fits() {
                return unframeable();
            }
            match response.encode() {
                Ok(archive) => {
                    if archive.len() as u64 <= u32::MAX as u64 {
                        let body = encode_envelope(&archive);
                        replying(
                            buf,
                            keep_alive,
                            respond(200, "OK", CONTENT_TYPE, &body, keep_alive),
                        )
                    } else {
                        unframeable()
                    }
                },
                Err(error) => {
                    let next = failed(
                        HttpServerError::Encode(codec_message("WireResponse: ", &error)),
                    );
                    assert(http_fails(
                        next.0,
                        next.1,
                        HttpServerFault::Encode("WireResponse: "@ + codec_debug(error)),
                    ));
                    next
                },
            }
        },
    }
}

/// What a new connection does first.
pub fn http_start() -> (first: (HttpConnection, HttpAction))
    ensures
        first.0.buf@.len() == 0,
        first.0.stage is Head,
        first.1 == HttpAction::Read(READ_CHUNK_BYTES),
{
    (
        HttpConnection { buf: Vec::new(), stage: HttpStage::Head },
        HttpAction::Read(READ_CHUNK_BYTES),
    )
}

/// Go on after an event.
pub fn http_advance(connection: HttpConnection, event: HttpEvent) -> (next: (
    HttpConnection,
    HttpAction,
))
    requires
        http_awaits(connection.stage, event),
    ensures
        http_goes_on(connection, event, next.0, next.1),
{
    let mut buf = connection.buf;
    match (connection.stage, event) {
        (HttpStage::Head, HttpEvent::Read(chunk)) => {
            if chunk.len() == 0 {
                return closed();
            }
            push_bytes(&mut buf, &chunk);
            head_step(buf)
        },
        (HttpStage::Body { len, keep_alive }, HttpEvent::Read(chunk)) => {
            if chunk.len() == 0 {
                return failed(HttpServerError::Io("peer closed mid-body".to_owned()));
            }
            push_bytes(&mut buf, &chunk);
            body_step(len, keep_alive, buf)
        },
        (HttpStage::Serving { keep_alive }, HttpEvent::Served(served)) => served_step(
            served,
            keep_alive,
            buf,
        ),
        (HttpStage::Replying { keep_alive }, HttpEvent::Written) => if keep_alive {
            head_step(buf)
        } else {
            closed()
        },
        (HttpStage::Replying { .. }, HttpEvent::IoFailed { kind: _, text }) => failed(
            HttpServerError::Io(text),
        ),
        (HttpStage::Refusing, _) => closed(),
        (_, HttpEvent::IoFailed { kind, text }) => if is_peer_disconnect(kind) {
            closed()
        } else {
            failed(HttpServerError::Io(text))
        },
        _ => closed(),
    }
}

/// A request is answered by its route: a ping with nothing, a call that announces a
/// body of a length that is allowed by serving it, a call that announces no length or
/// too long a body with a refusal after which the connection closes, and anything else
/// as unknown; whether the connection stays open is as the request asked.
pub proof fn http_requests_go_by_their_route(
    head: HeadFields,
    rest: Seq<u8>,
    after: HttpConnection,
    action: HttpAction,
)
    requires
        routes(head, rest, after, action),
    ensures
        head.method == "GET"@ && head.path == "/wmbt/v1/ping"@ ==> {
            &&& action matches HttpAction::Write(bytes)
            &&& bytes@ == response_bytes(200, "OK"@, "text/plain"@, Seq::empty(), head.keep_alive)
            &&& after.stage == (HttpStage::Replying { keep_alive: head.keep_alive })
            &&& after.buf@ == rest
        },
        !(head.method == "GET"@ && head.path == "/wmbt/v1/ping"@) && !(head.method == "POST"@
            && head.path == "/wmbt/v1/rpc"@) ==> {
            &&& action matches HttpAction::Write(bytes)
            &&& bytes@ == response_bytes(
                404,
                "Not Found"@,
                "text/plain"@,
                encode_utf8("unknown route"@),
                head.keep_alive,
            )
            &&& after.stage == (HttpStage::Replying { keep_alive: head.keep_alive })
            &&& after.buf@ == rest
        },
        head.method == "POST"@ && head.path == "/wmbt/v1/rpc"@ ==> match head.content_length {
            None => {
                &&& action matches HttpAction::Write(bytes)
                &&& bytes@ == response_bytes(
                    411,
                    "Length Required"@,
                    "text/plain"@,
                    encode_utf8("missing Content-Length"@),
                    false,
                )
                &&& after.stage is Refusing
            },
            Some(len) => {
                &&& len > MAX_BODY_BYTES ==> after.stage is Refusing && action is Write
                &&& len <= MAX_BODY_BYTES && rest.len() < len ==> {
                    &&& after.stage matches HttpStage::Body { len: l, keep_alive: k }
                    &&& l == len
                    &&& k == head.keep_alive
                    &&& after.buf@ == rest
                    &&& action matches HttpAction::Read(n)
                    &&& 0 < n <= len - rest.len()
                }
                &&& action matches HttpAction::Serve(request) ==> {
                    &&& len <= MAX_BODY_BYTES
                    &&& len <= rest.len()
                    &&& envelope_decoded(rest.take(len as int)) matches Ok(body)
                    &&& request_archived(body) == Some(request@)
                    &&& after.stage == (HttpStage::Serving { keep_alive: head.keep_alive })
                    &&& after.buf@ == rest.skip(len as int)
                }
                &&& action is Serve || action is Read || action is Fail || len > MAX_BODY_BYTES
            },
        },
{
    reveal_strlit("GET");
    reveal_strlit("POST");
    assert("GET"@.len() != "POST"@.len());
}

/// A connection that stays open goes on with what follows a request once its response
/// is written, and one that does not closes; a refusal always closes. A peer that is
/// gone before its request is complete closes the connection in peace, unless it left
/// in the middle of a body.
pub proof fn http_connection_goes_on_or_closes(
    before: HttpConnection,
    event: HttpEvent,
    after: HttpConnection,
    action: HttpAction,
)
    requires
        http_awaits(before.stage, event),
        http_goes_on(before, event, after, action),
    ensures
        before.stage == (HttpStage::Replying { keep_alive: false }) && event is Written
            ==> action is Close && after.stage is Closed,
        before.stage == (HttpStage::Replying { keep_alive: true }) && event is Written
            ==> head_goes_on(before.buf@, after, action),
        before.stage is Refusing ==> action is Close && after.stage is Closed,
        event matches HttpEvent::Read(chunk) ==> (chunk@.len() == 0 ==> after.stage is Closed && if before.stage
            is Head {
            action is Close
        } else {
            action matches HttpAction::Fail(error) && error@ == HttpServerFault::Io(
                "peer closed mid-body"@,
            )
        }),
        event matches HttpEvent::IoFailed { kind, text } ==> after.stage is Closed && if before.stage
            is Refusing || (kind != IoKind::Other && !(before.stage is Replying)) {
            action is Close
        } else {
            action matches HttpAction::Fail(error) && error@ == HttpServerFault::Io(text@)
        },
        event matches HttpEvent::Served(served) ==> (served is Err ==> action is Fail),
        event is Served && action is Write ==> after.buf@ == before.buf@ && (
        before.stage matches HttpStage::Serving { keep_alive } && after.stage == (
        HttpStage::Replying { keep_alive })),
{
}

/// A head that is not complete is waited for until it is too long.
pub proof fn http_head_is_waited_for(buf: Seq<u8>, after: HttpConnection, action: HttpAction)
    requires
        head_goes_on(buf, after, action),
        forall|i: int|
            0 <= i <= buf.len() - 4 ==> !(#[trigger] buf[i] == 13 && buf[i + 1] == 10 && buf[i + 2]
                == 13 && buf[i + 3] == 10),
    ensures
        buf.len() <= MAX_HEAD_BYTES ==> after.buf@ == buf && after.stage is Head && action is Read,
        buf.len() > MAX_HEAD_BYTES ==> after.stage is Closed && action is Fail,
{
    lemma_head_end(buf, 0);
    if let Some(at) = head_end(buf) {
        assert(blank_line_at(buf, at as int));
        assert(buf[at as int] == 13);
    }
}

// ---- a client's exchange ----

/// The head of a call.
pub open spec fn call_head(host: Seq<char>, len: nat) -> Seq<char> {
    "POST "@ + "/wmbt/v1/rpc"@ + " HTTP/1.1\r\nHost: "@ + host + "\r\nContent-Type: "@
        + "application/x-wombatkv-rkyv"@ + "\r\nContent-Length: "@ + dec(len)
        + "\r\nConnection: keep-alive\r\n\r\n"@
}

/// The bytes that a client sends for a request; none where the request is too
/// long for an archive or an envelope.
pub fn call_wire(host: &str, request: &WireRequest) -> (wire: Result<
    Option<Vec<u8>>,
    HttpClientError,
>)
    ensures
        match wire {
            Ok(Some(bytes)) => {
                &&& request_fits(request@)
                &&& request_short(request@)
                &&& request_archive(request@) matches Some(archive)
                &&& archive.len() <= u32::MAX
                &&& bytes@ == encode_utf8(call_head(host@, envelope_bytes(archive).len()))
                    + envelope_bytes(archive)
                &&& request_archived(archive) == Some(request@)
            },
            Ok(None) => !request_fits(request@) || (request_archive(request@) matches Some(archive)
                && archive.len() > u32::MAX),
            Err(error) => {
                &&& request_fits(request@)
                &&& !request_short(request@)
                &&& exists|cause: CodecError|
                    cause is Encode && error@ == HttpClientFault::Codec(
                        "encode req: "@ + #[trigger] codec_debug(cause),
                    )
            },
        },
{
    if !request.fits() {
        return Ok(None);
    }
    let archive: Vec<u8> = match request.encode() {
        Ok(archive) => archive,
        Err(error) => {
            return Err(HttpClientError::Codec(codec_message("encode req: ", &error)));
        },
    };
    if archive.len() as u64 > u32::MAX as u64 {
        return Ok(None);
    }
    let body = encode_envelope(&archive);
    let mut head = String::new();
    head.push_str("POST ");
    head.push_str(RPC_PATH);
    head.push_str(" HTTP/1.1\r\nHost: ");
    head.push_str(host);
    head.push_str("\r\nContent-Type: ");
    head.push_str(CONTENT_TYPE);
    head.push_str("\r\nContent-Length: ");
    push_dec(&mut head, body.len() as u128);
    head.push_str("\r\nConnection: keep-alive\r\n\r\n");
    assert(head@ =~= call_head(host@, body@.len()));
    let mut wire = copy_bytes(head.as_str().as_bytes());
    push_bytes(&mut wire, &body);
    Ok(Some(wire))
}

/// The text that `std::num::ParseIntError` displays for a text that is not a
/// `u16`.
pub uninterp spec fn parse_u16_error_text(text: Seq<char>) -> Seq<char>;

/// `str::parse::<u16>`: an optional plus sign and decimal digits whose value
/// fits. On other texts the displayed text of the `ParseIntError` comes back;
/// it depends on the text alone.
#[verifier::external_body]
fn parse_u16(text: &str) -> (value: Result<u16, String>)
    ensures
        match value {
            Ok(n) => parsed_uint(text@, u16::MAX as nat) == Some(n as nat),
            Err(e) => parsed_uint(text@, u16::MAX as nat) is None && e@ == parse_u16_error_text(
                text@,
            ),
        },
{
    match text.parse::<u16>() {
        Ok(n) => Ok(n),
        Err(err) => Err(format!("{err}")),
    }
}

/// The text that bytes give with what is not UTF-8 in them replaced.
pub uninterp spec fn lossy_text_of(bytes: Seq<u8>) -> Seq<char>;

/// `String::from_utf8_lossy`: valid UTF-8 gives the text that it encodes; in
/// other bytes what is invalid is replaced. The result depends on the bytes
/// alone.
#[verifier::external_body]
fn lossy_text(bytes: &[u8]) -> (text: String)
    ensures
        text@ == lossy_text_of(bytes@),
        valid_utf8(bytes@) ==> text@ == decode_utf8(bytes@),
{
    String::from_utf8_lossy(bytes).into_owned()
}

/// What the first line of a response says: its version and its status.
pub open spec fn status_line_parsed(line: Seq<char>) -> Result<(Seq<char>, nat), Seq<char>> {
    let first = find_char(line, ' ');
    if first >= line.len() {
        Err("malformed status line: "@ + debug_of(trimmed(line)))
    } else {
        let rest = line.skip(first as int + 1);
        let code = rest.take(find_char(rest, ' ') as int);
        match parsed_uint(code, u16::MAX as nat) {
            Some(status) => Ok((line.take(first as int), status)),
            None => Err(
                "bad status code "@ + debug_of(code) + ": "@ + parse_u16_error_text(code),
            ),
        }
    }
}

/// A line without the line ends behind it.
pub open spec fn without_line_end(line: Seq<char>) -> Seq<char>
    decreases line.len(),
{
    if line.len() > 0 && (line.last() == '\r' || line.last() == '\n') {
        without_line_end(line.drop_last())
    } else {
        line
    }
}

fn cut_line_end(line: &[char]) -> (cut: Vec<char>)
    ensures
        cut@ == without_line_end(line@),
{
    let mut end: usize = line.len();
    assert(line@.take(end as int) =~= line@);
    while end > 0 && (line[end - 1] == '\r' || line[end - 1] == '\n')
        invariant
            end <= line@.len(),
            without_line_end(line@) == without_line_end(line@.take(end as int)),
        decreases end,
    {
        assert(line@.take(end as int).drop_last() =~= line@.take(end - 1));
        end = end - 1;
    }
    let cut = copy_chars(line, 0, end);
    assert(cut@ =~= line@.take(end as int));
    cut
}

/// The head of a response while its lines are read.
#[derive(Debug, Clone)]
pub struct ResponseHead {
    pub version: Vec<char>,
    pub status: u16,
    pub headers: Headers,
    /// Bytes read so far.
    pub head_bytes: usize,
}

/// What one more line does to the head of a response: it ends it, adds to it, or
/// is wrong.
pub enum LineFate {
    Done,
    More(HeaderFields),
    Wrong(HttpClientFault),
}

/// The fate of a header line of a response.
pub open spec fn line_fate(found: HeaderFields, head_bytes: nat, line: Seq<char>) -> LineFate {
    if line.len() == 0 {
        LineFate::Wrong(HttpClientFault::Io("peer closed mid-response-headers"@))
    } else if head_bytes + byte_len(line) > MAX_HEAD_BYTES {
        LineFate::Wrong(
            HttpClientFault::Codec(
                "response head exceeds "@ + dec(MAX_HEAD_BYTES as nat) + " bytes"@,
            ),
        )
    } else if without_line_end(line).len() == 0 {
        LineFate::Done
    } else {
        match with_header(found, without_line_end(line), "malformed response header: "@) {
            Ok(more) => LineFate::More(more),
            Err(text) => LineFate::Wrong(HttpClientFault::Codec(text)),
        }
    }
}

/// What the head of a response says in the end: its status, the length of the
/// body and whether the connection stays open.
pub open spec fn response_head_of(version: Seq<char>, status: u16, found: HeaderFields) -> Result<
    (u16, nat, bool),
    HttpClientFault,
> {
    match found.content_length {
        None => Err(HttpClientFault::Codec("response missing Content-Length"@)),
        Some(len) => if len > MAX_BODY_BYTES {
            Err(
                HttpClientFault::Codec(
                    "response Content-Length "@ + dec(len) + " > MAX_BODY_BYTES "@ + dec(
                        MAX_BODY_BYTES as nat,
                    ),
                ),
            )
        } else {
            Ok((status, len, keeps_alive(found.connection, version)))
        },
    }
}

impl ResponseHead {
    /// Take the first line; an empty one means that the peer closed.
    pub fn start(line: &str) -> (head: Result<Self, HttpClientError>)
        ensures
            match head {
                Ok(h) => line@.len() > 0 && status_line_parsed(line@) == Ok::<
                    (Seq<char>, nat),
                    Seq<char>,
                >((h.version@, h.status as nat)) && h.headers@ == no_headers() && h.head_bytes
                    == byte_len(line@),
                Err(error) => if line@.len() == 0 {
                    error@ == HttpClientFault::Io("peer closed before response"@)
                } else {
                    status_line_parsed(line@) matches Err(text) && error@ == HttpClientFault::Codec(
                        text,
                    )
                },
            },
    {
        if line.is_empty() {
            return Err(HttpClientError::Io("peer closed before response".to_owned()));
        }
        let chars = chars_of(line);
        let first: usize = find_from(&chars, 0, ' ');
        assert(chars@.skip(0) =~= chars@);
        if first >= chars.len() {
            let mut text = String::new();
            text.push_str("malformed status line: ");
            text.push_str(&debug_text(&text_of(&trim(&chars))));
            assert(text@ =~= "malformed status line: "@ + debug_of(trimmed(line@)));
            return Err(HttpClientError::Codec(text));
        }
        let second: usize = find_from(&chars, first + 1, ' ');
        let code = copy_chars(&chars, first + 1, second);
        let ghost rest = line@.skip(first as int + 1);
        assert(code@ =~= rest.take(find_char(rest, ' ') as int));
        let code_text = text_of(&code);
        match parse_u16(&code_text) {
            Ok(status) => {
                let version = copy_chars(&chars, 0, first);
                assert(version@ =~= line@.take(first as int));
                Ok(
                    ResponseHead {
                        version,
                        status,
                        headers: Headers::new(),
                        head_bytes: line.as_bytes().len(),
                    },
                )
            },
            Err(cause) => {
                let mut text = String::new();
                text.push_str("bad status code ");
                text.push_str(&debug_text(&code_text));
                text.push_str(": ");
                text.push_str(&cause);
                assert(text@ =~= "bad status code "@ + debug_of(code@) + ": "@
                    + parse_u16_error_text(code@));
                Err(HttpClientError::Codec(text))
            },
        }
    }

    /// Take a header line; true when the head is complete.
    pub fn feed(&mut self, line: &str) -> (done: Result<bool, HttpClientError>)
        ensures
            final(self).version == old(self).version,
            final(self).status == old(self).status,
            match line_fate(old(self).headers@, old(self).head_bytes as nat, line@) {
                LineFate::Done => done == Ok::<bool, HttpClientError>(true) && final(self).headers
                    == old(self).headers,
                LineFate::More(found) => done == Ok::<bool, HttpClientError>(false)
                    && final(self).headers@ == found && final(self).head_bytes == old(
                    self,
                ).head_bytes + byte_len(line@),
                LineFate::Wrong(fault) => done matches Err(error) && error@ == fault,
            },
    {
        if line.is_empty() {
            return Err(HttpClientError::Io("peer closed mid-response-headers".to_owned()));
        }
        let n: usize = line.as_bytes().len();
        if self.head_bytes > MAX_HEAD_BYTES || n > MAX_HEAD_BYTES - self.head_bytes {
            let mut text = String::new();
            text.push_str("response head exceeds ");
            push_dec(&mut text, MAX_HEAD_BYTES as u128);
            text.push_str(" bytes");
            assert(text@ =~= "response head exceeds "@ + dec(MAX_HEAD_BYTES as nat) + " bytes"@);
            return Err(HttpClientError::Codec(text));
        }
        self.head_bytes = self.head_bytes + n;
        let cut = cut_line_end(&chars_of(line));
        if cut.len() == 0 {
            return Ok(true);
        }
        match self.headers.take_line(&cut, "malformed response header: ") {
            Ok(()) => Ok(false),
            Err(text) => Err(HttpClientError::Codec(text)),
        }
    }

    /// What the complete head says.
    pub fn finish(&self) -> (said: Result<(u16, usize, bool), HttpClientError>)
        ensures
            match said {
                Ok((status, len, keep)) => response_head_of(
                    self.version@,
                    self.status,
                    self.headers@,
                ) == Ok::<(u16, nat, bool), HttpClientFault>((status, len as nat, keep)),
                Err(error) => response_head_of(self.version@, self.status, self.headers@) == Err::<
                    (u16, nat, bool),
                    HttpClientFault,
                >(error@),
            },
    {
        match self.headers.content_length {
            None => Err(HttpClientError::Codec("response missing Content-Length".to_owned())),
            Some(len) => {
                if len > MAX_BODY_BYTES {
                    let mut text = String::new();
                    text.push_str("response Content-Length ");
                    push_dec(&mut text, len as u128);
                    text.push_str(" > MAX_BODY_BYTES ");
                    push_dec(&mut text, MAX_BODY_BYTES as u128);
                    assert(text@ =~= "response Content-Length "@ + dec(len as nat)
                        + " > MAX_BODY_BYTES "@ + dec(MAX_BODY_BYTES as nat));
                    return Err(HttpClientError::Codec(text));
                }
                Ok((self.status, len, self.headers.keep_alive(&self.version)))
            },
        }
    }
}

/// Read the response in a body.
pub fn call_answer(status: u16, body: &[u8]) -> (response: Result<WireResponse, HttpClientError>)
    ensures
        match response {
            Ok(r) => status == 200 && (envelope_decoded(body@) matches Ok(archive)
                && response_archived(archive) == Some(r@)),
            Err(error) => if status != 200 {
                error@ == (HttpClientFault::Http { status, message: lossy_text_of(body@) })
            } else {
                match envelope_decoded(body@) {
                    Err(fault) => error@ == HttpClientFault::Codec(envelope_text(fault)),
                    Ok(archive) => response_archived(archive) is None && exists|cause: CodecError|
                        cause is Decode && error@ == HttpClientFault::Codec(
                            "decode resp: "@ + #[trigger] codec_debug(cause),
                        ),
                }
            },
        },
{
    if status != 200 {
        return Err(HttpClientError::Http { status, message: lossy_text(body) });
    }
    match decode_envelope(body) {
        Err(error) => Err(HttpClientError::Codec(envelope_message(&error))),
        Ok(archive) => match WireResponse::decode(archive) {
            Ok(response) => Ok(response),
            Err(error) => Err(HttpClientError::Codec(codec_message("decode resp: ", &error))),
        },
    }
}

/// The first line of a response gives its version and its status, whatever the status
/// is and whether or not words follow it.
pub proof fn status_lines_are_read(version: Seq<char>, code: nat, reason: Seq<char>)
    requires
        absent(version, ' '),
        code <= u16::MAX,
    ensures
        status_line_parsed(version + seq![' '] + dec(code)) == Ok::<(Seq<char>, nat), Seq<char>>(
            (version, code),
        ),
        status_line_parsed(version + seq![' '] + (dec(code) + seq![' '] + reason)) == Ok::<
            (Seq<char>, nat),
            Seq<char>,
        >((version, code)),
        status_line_parsed(version) is Err,
{
    lemma_dec_digits(code);
    lemma_dec_parses(code, u16::MAX as nat);
    lemma_find_char_is(version, ' ', version.len() as int);
    assert(dec(code).take(dec(code).len() as int) =~= dec(code));
    lemma_status_line_read(version, code, dec(code));
    let rest = dec(code) + seq![' '] + reason;
    assert(rest.take(dec(code).len() as int) =~= dec(code));
    lemma_status_line_read(version, code, rest);
}

proof fn lemma_status_line_read(version: Seq<char>, code: nat, rest: Seq<char>)
    requires
        absent(version, ' '),
        code <= u16::MAX,
        rest.len() >= dec(code).len(),
        rest.take(dec(code).len() as int) == dec(code),
        rest.len() > dec(code).len() ==> rest[dec(code).len() as int] == ' ',
    ensures
        status_line_parsed(version + seq![' '] + rest) == Ok::<(Seq<char>, nat), Seq<char>>(
            (version, code),
        ),
{
    let line = version + seq![' '] + rest;
    let at = version.len() as int;
    lemma_dec_digits(code);
    lemma_dec_parses(code, u16::MAX as nat);
    assert(line[at] == ' ');
    assert forall|i: int| 0 <= i < at implies #[trigger] line[i] != ' ' by {
        assert(line[i] == version[i]);
    }
    lemma_find_char_is(line, ' ', at);
    assert(line.skip(at + 1) =~= rest);
    assert(line.take(at) =~= version);
    let n = dec(code).len() as int;
    assert forall|i: int| 0 <= i < n implies #[trigger] rest[i] != ' ' by {
        assert(rest.take(n)[i] == rest[i]);
        assert(is_digit(dec(code)[i]));
    }
    lemma_find_char_is(rest, ' ', n);
}

/// The head of a response has to announce the length of its body, and one that is
/// allowed; the status is the one of its first line, and the connection stays open as
/// the head says.
pub proof fn response_heads_announce_a_body(version: Seq<char>, status: u16, found: HeaderFields)
    ensures
        match response_head_of(version, status, found) {
            Ok((told, len, keep)) => told == status && found.content_length == Some(len) && len
                <= MAX_BODY_BYTES && keep == keeps_alive(found.connection, version),
            Err(fault) => fault is Codec && (found.content_length matches Some(len) ==> len
                > MAX_BODY_BYTES),
        },
{
}

/// A blank line ends the head of a response, a missing one or one that makes the head
/// too long is an error, and no other line is taken for the end.
pub proof fn blank_line_ends_the_head(found: HeaderFields, head_bytes: nat, line: Seq<char>)
    ensures
        line_fate(found, head_bytes, line) is Done <==> line.len() > 0 && head_bytes + byte_len(line)
            <= MAX_HEAD_BYTES && forall|i: int|
            0 <= i < line.len() ==> (#[trigger] line[i] == '\r' || line[i] == '\n'),
        line.len() == 0 ==> (line_fate(found, head_bytes, line) matches LineFate::Wrong(fault)
            && fault is Io),
        line.len() > 0 && head_bytes + byte_len(line) > MAX_HEAD_BYTES ==> (line_fate(
            found,
            head_bytes,
            line,
        ) matches LineFate::Wrong(fault) && fault is Codec),
{
    lemma_without_line_end(line);
}

proof fn lemma_without_line_end(line: Seq<char>)
    ensures
        without_line_end(line).len() == 0 <==> forall|i: int|
            0 <= i < line.len() ==> (#[trigger] line[i] == '\r' || line[i] == '\n'),
    decreases line.len(),
{
    if line.len() > 0 {
        let shorter = line.drop_last();
        if line.last() == '\r' || line.last() == '\n' {
            lemma_without_line_end(shorter);
            if without_line_end(line).len() == 0 {
                assert forall|i: int| 0 <= i < line.len() implies (#[trigger] line[i] == '\r'
                    || line[i] == '\n') by {
                    if i < line.len() - 1 {
                        assert(shorter[i] == line[i]);
                    }
                }
            } else {
                let i = choose|i: int|
                    0 <= i < shorter.len() && !(#[trigger] shorter[i] == '\r' || shorter[i] == '\n');
                assert(shorter[i] == line[i]);
            }
        } else {
            assert(line[line.len() - 1] == line.last());
        }
    }
}

} // verus!
