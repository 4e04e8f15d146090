use bytes::Bytes;
use std::collections::HashMap;
use wombatkv::client::Command;
use wombatkv::envelope::{encode_envelope, EnvelopeHeader, WIRE_ENVELOPE_BYTES};
use wombatkv::http_head::{find_double_crlf, parse_http_head_from_buf};
use wombatkv::http_transport::{
    call_answer, call_wire, http_advance, http_start, HttpAction, HttpClientError, HttpConnection,
    HttpEvent, HttpGetOutcome, HttpServerError, ResponseHead, CONTENT_TYPE, MAX_BODY_BYTES,
    RPC_PATH,
};
use wombatkv::message::{WireRequest, WireResponse};
use wombatkv::{op, status};
use wombatkv::remote::{
    call_request, get_answer, is_peer_disconnect, unit_answer, CallError, IoKind,
};
use wombatkv::tcp_transport::{
    dispatch_pool, first_conn_id, pool_error, request_wire, response_body, response_header,
    shard_count, tcp_advance, tcp_start, PoolFault, TcpAction, TcpClientError, TcpEvent,
    TcpGetOutcome, TcpServerError, TcpState, MAX_FRAME_BYTES,
};

type Store = HashMap<String, Vec<u8>>;

fn respond(req: &WireRequest, code: u8, payload: Vec<u8>, message: &str) -> WireResponse {
    WireResponse { id: req.id, status: code, op: req.op, payload, message: message.to_string() }
}

fn keep(store: &mut Store, req: WireRequest) -> WireResponse {
    let key = format!("{}::{}", req.namespace, req.key);
    match req.op {
        op::PING => respond(&req, status::OK, vec![], ""),
        op::PUT => {
            store.insert(key, req.payload.clone());
            respond(&req, status::OK, vec![], "")
        }
        op::GET => match store.get(&key) {
            Some(v) => respond(&req, status::OK, v.clone(), ""),
            None => respond(&req, status::MISS, vec![], ""),
        },
        _ => respond(&req, status::ERROR, vec![], "unexpected op"),
    }
}

// ---- TCP ----

/// What a server makes of the bytes that a client sends: all that it writes
/// back, and how the connection ended.
fn tcp_serve(store: &mut Store, sent: &[u8]) -> (Vec<u8>, Option<TcpServerError>) {
    let mut written = Vec::new();
    let mut at = 0;
    let (mut state, mut action) = tcp_start();
    loop {
        let take = |at: &mut usize, n: usize| -> Option<Vec<u8>> {
            if sent.len() - *at < n {
                None
            } else {
                *at += n;
                Some(sent[*at - n..*at].to_vec())
            }
        };
        let gone = || TcpEvent::IoFailed { kind: IoKind::UnexpectedEof, text: "eof".to_string() };
        let event = match action {
            TcpAction::ReadHeader => match take(&mut at, WIRE_ENVELOPE_BYTES) {
                Some(bytes) => TcpEvent::HeaderRead(bytes.try_into().unwrap()),
                None => gone(),
            },
            TcpAction::ReadBody(n) => match take(&mut at, n) {
                Some(bytes) => TcpEvent::BodyRead(bytes),
                None => gone(),
            },
            TcpAction::Serve(req) => TcpEvent::Served(Ok(keep(store, req))),
            TcpAction::Write(bytes) => {
                written.extend_from_slice(&bytes);
                TcpEvent::Written
            }
            TcpAction::Close => return (written, None),
            TcpAction::Fail(error) => return (written, Some(error)),
            TcpAction::Unframeable => panic!("unframeable"),
        };
        (state, action) = tcp_advance(state, event);
    }
}

fn tcp_call(store: &mut Store, next_id: &mut u64, command: Command) -> WireResponse {
    let request = call_request(next_id, command).expect("request");
    let wire = request_wire(&request).expect("encode").expect("framed");
    let (written, error) = tcp_serve(store, &wire);
    assert!(error.is_none());
    let header: [u8; 16] = written[..16].try_into().unwrap();
    let header = response_header(&header).expect("header");
    response_body(header, &written[16..]).expect("body")
}

fn put(namespace: &str, key: &str, payload: &[u8]) -> Command {
    Command::Put {
        namespace: namespace.to_string(),
        key: key.to_string(),
        payload: Bytes::from(payload.to_vec()),
    }
}

fn get(namespace: &str, key: &str) -> Command {
    Command::Get { namespace: namespace.to_string(), key: key.to_string() }
}

#[test]
fn ping_roundtrip_in_process() {
    let mut store = Store::new();
    unit_answer(tcp_call(&mut store, &mut 1, Command::Ping)).expect("ping");
}

#[test]
fn put_then_get_roundtrip_in_process() {
    let mut store = Store::new();
    let mut id = 1;
    unit_answer(tcp_call(&mut store, &mut id, put("ns", "k1", b"hello"))).expect("put");
    let got = get_answer(tcp_call(&mut store, &mut id, get("ns", "k1"))).expect("get");
    match TcpGetOutcome::from_answer(got) {
        TcpGetOutcome::Hit { payload } => assert_eq!(&payload[..], b"hello"),
        TcpGetOutcome::Miss => panic!("expected hit"),
    }
    let got = get_answer(tcp_call(&mut store, &mut id, get("ns", "missing"))).expect("get_miss");
    match TcpGetOutcome::from_answer(got) {
        TcpGetOutcome::Miss => {}
        TcpGetOutcome::Hit { .. } => panic!("expected miss"),
    }
    assert_eq!(id, 4);
}

fn ping_request() -> WireRequest {
    WireRequest {
        id: 1,
        op: op::PING,
        namespace: String::new(),
        key: String::new(),
        payload: Vec::new(),
    }
}

fn craft_tampered_wire(tamper: impl FnOnce(&mut Vec<u8>)) -> Vec<u8> {
    let req_bytes = WireRequest::encode(&ping_request()).unwrap();
    let mut wire = encode_envelope(req_bytes.as_ref());
    tamper(&mut wire);
    wire
}

fn assert_tcp_drops(wire: &[u8], why: &str) {
    let (written, error) = tcp_serve(&mut Store::new(), wire);
    assert!(written.is_empty(), "{why}");
    match error {
        Some(TcpServerError::Decode(text)) => assert!(text.starts_with("envelope"), "{text}"),
        other => panic!("expected a decode error, got {other:?}"),
    }
}

#[test]
fn tcp_sync_rejects_envelope_bad_magic() {
    assert_tcp_drops(&craft_tampered_wire(|w| w[0] = b'X'), "tampered envelope");
}

#[test]
fn tcp_sync_rejects_envelope_bad_version() {
    assert_tcp_drops(&craft_tampered_wire(|w| w[4] = 99), "wrong-version envelope");
}

#[test]
fn tcp_sync_rejects_envelope_bad_crc() {
    assert_tcp_drops(&craft_tampered_wire(|w| w[20] ^= 0xff), "body-tampered envelope");
}

#[test]
fn tcp_sync_rejects_envelope_truncated_header() {
    let partial = [b'W', b'M', b'B', b'T', 1, 0, 0, 0];
    let (written, error) = tcp_serve(&mut Store::new(), &partial);
    assert!(written.is_empty());
    assert!(error.is_none());
}

#[test]
fn tcp_sync_rejects_oversized_envelope_len() {
    // Craft a header that claims body_len > MAX_FRAME_BYTES.
    let mut wire = vec![0u8; WIRE_ENVELOPE_BYTES];
    wire[0..4].copy_from_slice(b"WMBT");
    wire[4..8].copy_from_slice(&1u32.to_le_bytes());
    wire[8..12].copy_from_slice(&0u32.to_le_bytes()); // crc placeholder
    let oversized_len = (MAX_FRAME_BYTES + 1) as u32;
    wire[12..16].copy_from_slice(&oversized_len.to_le_bytes());
    assert_tcp_drops(&wire, "oversized envelope.len");
}

#[test]
fn a_connection_serves_request_after_request() {
    let mut store = Store::new();
    let mut wire = Vec::new();
    for id in 0..3 {
        let mut req = ping_request();
        req.id = id;
        wire.extend_from_slice(&request_wire(&req).unwrap().unwrap());
    }
    let (written, error) = tcp_serve(&mut store, &wire);
    assert!(error.is_none());
    let mut at = 0;
    for id in 0..3 {
        let header: [u8; 16] = written[at..at + 16].try_into().unwrap();
        let header = response_header(&header).expect("header");
        let end = at + 16 + header.len as usize;
        assert_eq!(response_body(header, &written[at + 16..end]).expect("body").id, id);
        at = end;
    }
    assert_eq!(at, written.len());
}

#[test]
fn tcp_failures() {
    let reset = TcpEvent::IoFailed { kind: IoKind::ConnectionReset, text: "r".to_string() };
    assert!(matches!(tcp_advance(TcpState::Header, reset), (TcpState::Closed, TcpAction::Close)));
    let other = TcpEvent::IoFailed { kind: IoKind::Other, text: "disk".to_string() };
    match tcp_advance(TcpState::Replying, other) {
        (TcpState::Closed, TcpAction::Fail(error)) => assert_eq!(error.to_text(), "tcp io: disk"),
        other => panic!("expected a failure, got {other:?}"),
    }
    match tcp_advance(TcpState::Serving, TcpEvent::Served(Err(PoolFault::SenderClosed))) {
        (_, TcpAction::Fail(error)) => {
            assert_eq!(error.to_text(), "tcp decode: dispatch pool sender closed")
        }
        other => panic!("expected a failure, got {other:?}"),
    }
    assert_eq!(
        pool_error(PoolFault::ResponseDropped).to_text(),
        "tcp decode: dispatch worker dropped response"
    );
    assert_eq!(TcpServerError::Encode("e".to_string()).to_text(), "tcp encode: e");
    assert_eq!(TcpClientError::Io("i".to_string()).to_text(), "tcp client io: i");
    assert_eq!(TcpClientError::Codec("c".to_string()).to_text(), "tcp client codec: c");
    assert_eq!(
        TcpClientError::from_call(CallError::Status { code: 3, message: "m".to_string() })
            .to_text(),
        "tcp client server status code=3 msg=\"m\""
    );
    let garbage = encode_envelope(b"not an archive");
    let (_, error) = tcp_serve(&mut Store::new(), &garbage);
    assert!(error.expect("fails").to_text().starts_with("tcp decode: WireRequest: Decode("));
}

#[test]
fn bad_tcp_responses() {
    let mut header = [0u8; 16];
    assert!(response_header(&header).is_err());
    header[0..4].copy_from_slice(b"WMBT");
    header[4] = 1;
    header[12..16].copy_from_slice(&u32::MAX.to_le_bytes());
    match response_header(&header) {
        Err(error) => assert_eq!(
            error.to_text(),
            "tcp client codec: resp envelope.len 4294967295 too large"
        ),
        Ok(_) => panic!("expected an error"),
    }
    let header = EnvelopeHeader { crc: 0, len: 1 };
    assert!(response_body(header, b"x").is_err());
}

#[test]
fn pools_and_shards() {
    assert_eq!(dispatch_pool(0), (1, 8));
    assert_eq!(dispatch_pool(2), (2, 8));
    assert_eq!(dispatch_pool(3), (3, 12));
    assert_eq!(shard_count(0), 1);
    assert_eq!(shard_count(5), 5);
    assert_eq!(first_conn_id(0), 1);
    assert_eq!(first_conn_id(3), (3 << 32) + 1);
    assert!(is_peer_disconnect(IoKind::BrokenPipe));
    assert!(is_peer_disconnect(IoKind::ConnectionAborted));
    assert!(is_peer_disconnect(IoKind::NotConnected));
    assert!(!is_peer_disconnect(IoKind::Other));
}

// ---- HTTP ----

struct HttpServer {
    connection: HttpConnection,
    action: HttpAction,
    store: Store,
}

enum HttpEnd {
    Open,
    Closed,
    Failed(HttpServerError),
}

impl HttpServer {
    fn new() -> HttpServer {
        let (connection, action) = http_start();
        HttpServer { connection, action, store: Store::new() }
    }

    /// What the server writes back for more bytes of the connection. They reach
    /// it in pieces.
    fn feed(mut self, mut sent: &[u8]) -> (Option<HttpServer>, Vec<u8>, HttpEnd) {
        let mut written = Vec::new();
        loop {
            let event = match self.action {
                HttpAction::Read(n) => {
                    if sent.is_empty() {
                        self.action = HttpAction::Read(n);
                        return (Some(self), written, HttpEnd::Open);
                    }
                    let some = sent.len().min(n).min(100);
                    let chunk = sent[..some].to_vec();
                    sent = &sent[some..];
                    HttpEvent::Read(chunk)
                }
                HttpAction::Serve(req) => HttpEvent::Served(Ok(keep(&mut self.store, req))),
                HttpAction::Write(bytes) => {
                    written.extend_from_slice(&bytes);
                    HttpEvent::Written
                }
                HttpAction::Close => return (None, written, HttpEnd::Closed),
                HttpAction::Fail(error) => return (None, written, HttpEnd::Failed(error)),
                HttpAction::Unframeable => panic!("unframeable"),
            };
            let (connection, action) = http_advance(self.connection, event);
            self.connection = connection;
            self.action = action;
        }
    }
}

/// What a client reads in the bytes of a response.
fn http_answer(written: &[u8]) -> Result<WireResponse, HttpClientError> {
    let mut at = 0;
    let mut line = || {
        let end = written[at..].iter().position(|b| *b == b'\n').map(|i| at + i + 1);
        let end = end.unwrap_or(written.len());
        let text = String::from_utf8(written[at..end].to_vec()).expect("utf8 head");
        at = end;
        text
    };
    let mut head = ResponseHead::start(&line())?;
    while !head.feed(&line())? {}
    let (code, len, keep_alive) = head.finish()?;
    assert!(keep_alive);
    assert_eq!(written.len() - at, len);
    call_answer(code, &written[at..])
}

struct HttpClient {
    server: Option<HttpServer>,
    next_id: u64,
}

impl HttpClient {
    fn connect() -> HttpClient {
        HttpClient { server: Some(HttpServer::new()), next_id: 1 }
    }

    fn call(&mut self, command: Command) -> WireResponse {
        let request = call_request(&mut self.next_id, command).expect("request");
        let wire = call_wire("127.0.0.1:7879", &request).expect("encode").expect("framed");
        let server = self.server.take().expect("open");
        let (server, written, _) = server.feed(&wire);
        self.server = server;
        http_answer(&written).expect("answer")
    }

    fn ping(&mut self) -> Result<(), CallError> {
        unit_answer(self.call(Command::Ping))
    }

    fn put_kv(&mut self, namespace: &str, key: &str, payload: &[u8]) -> Result<(), CallError> {
        unit_answer(self.call(put(namespace, key, payload)))
    }

    fn get_kv(&mut self, namespace: &str, key: &str) -> Result<HttpGetOutcome, CallError> {
        get_answer(self.call(get(namespace, key))).map(HttpGetOutcome::from_answer)
    }
}

#[test]
fn ping_roundtrip() {
    let mut client = HttpClient::connect();
    client.ping().unwrap();
    client.ping().unwrap();
    client.ping().unwrap();
}

fn check_put_then_get(mut client: HttpClient) {
    client.put_kv("ns", "k1", b"hello").unwrap();
    client.put_kv("ns", "k2", &[0u8; 4096]).unwrap();
    match client.get_kv("ns", "k1").unwrap() {
        HttpGetOutcome::Hit { payload } => assert_eq!(payload.as_ref(), b"hello"),
        HttpGetOutcome::Miss => panic!("k1 should hit"),
    }
    match client.get_kv("ns", "k2").unwrap() {
        HttpGetOutcome::Hit { payload } => assert_eq!(payload.len(), 4096),
        HttpGetOutcome::Miss => panic!("k2 should hit"),
    }
    match client.get_kv("ns", "missing").unwrap() {
        HttpGetOutcome::Hit { .. } => panic!("missing should miss"),
        HttpGetOutcome::Miss => {}
    }
}

#[test]
fn put_then_get_roundtrip() {
    check_put_then_get(HttpClient::connect());
}

#[test]
fn http_tpc_ping_roundtrip() {
    let mut client = HttpClient::connect();
    client.ping().unwrap();
    client.ping().unwrap();
    client.ping().unwrap();
}

#[test]
fn http_tpc_put_then_get_roundtrip() {
    check_put_then_get(HttpClient::connect());
}

#[test]
fn http_tpc_keep_alive_pipelined() {
    // Single client, many sequential requests on one keep-alive connection.
    let mut client = HttpClient::connect();
    for _ in 0..50 {
        client.ping().unwrap();
    }
}

#[test]
fn ping_endpoint_returns_200() {
    let (_, written, _) =
        HttpServer::new().feed(b"GET /wmbt/v1/ping HTTP/1.1\r\nHost: localhost\r\n\r\n");
    let s = std::str::from_utf8(&written).unwrap();
    assert!(s.starts_with("HTTP/1.1 200 OK\r\n"), "got: {s:?}");
}

#[test]
fn unknown_route_returns_404() {
    let (_, written, _) =
        HttpServer::new().feed(b"GET /bogus HTTP/1.1\r\nHost: localhost\r\n\r\n");
    let s = std::str::from_utf8(&written).unwrap();
    assert!(s.starts_with("HTTP/1.1 404 Not Found\r\n"), "got: {s:?}");
}

fn raw_http_post_rpc(host: &str, body: &[u8]) -> Vec<u8> {
    let head = format!(
        "POST {RPC_PATH} HTTP/1.1\r\n\
         Host: {host}\r\n\
         Content-Type: {CONTENT_TYPE}\r\n\
         Content-Length: {}\r\n\
         Connection: close\r\n\
         \r\n",
        body.len()
    );
    let mut wire = head.into_bytes();
    wire.extend_from_slice(body);
    wire
}

fn assert_http_rejects(body: &[u8]) {
    let (server, written, end) = HttpServer::new().feed(&raw_http_post_rpc("127.0.0.1", body));
    assert!(server.is_none());
    assert!(!written.starts_with(b"HTTP/1.1 200 OK"));
    match end {
        HttpEnd::Failed(error) => assert!(error.to_text().starts_with("http decode: envelope: ")),
        _ => panic!("expected a failure"),
    }
}

#[test]
fn http_sync_rejects_envelope_bad_magic() {
    // clobber 'W' in 'WMBT'
    assert_http_rejects(&craft_tampered_wire(|wire| wire[0] = b'X'));
}

#[test]
fn http_sync_rejects_envelope_bad_version() {
    assert_http_rejects(&craft_tampered_wire(|wire| wire[4] = 99));
}

#[test]
fn http_sync_rejects_envelope_bad_crc() {
    assert_http_rejects(&craft_tampered_wire(|wire| wire[20] ^= 0xff));
}

#[test]
fn http_sync_rejects_envelope_truncated() {
    let valid_wire = craft_tampered_wire(|_| {});
    assert_http_rejects(&valid_wire[..valid_wire.len() - 1]);
}

#[test]
fn http_sync_oversized_body_rejected() {
    // Build an HTTP request whose Content-Length exceeds MAX_BODY_BYTES.
    let head = format!(
        "POST {RPC_PATH} HTTP/1.1\r\n\
         Host: 127.0.0.1\r\n\
         Content-Type: {CONTENT_TYPE}\r\n\
         Content-Length: {}\r\n\
         Connection: close\r\n\
         \r\n",
        MAX_BODY_BYTES + 1
    );
    let (server, written, end) = HttpServer::new().feed(head.as_bytes());
    assert!(server.is_none());
    assert!(matches!(end, HttpEnd::Closed));
    assert!(written.starts_with(b"HTTP/1.1 413"));
}

#[test]
fn a_missing_length_is_required() {
    let head = format!("POST {RPC_PATH} HTTP/1.1\r\n\r\n");
    let (server, written, _) = HttpServer::new().feed(head.as_bytes());
    assert!(server.is_none());
    assert!(written.starts_with(b"HTTP/1.1 411 Length Required\r\n"));
    assert!(written.ends_with(b"missing Content-Length"));
}

#[test]
fn connections_stay_open_or_not() {
    let ping = |version: &str, connection: &str| {
        format!("GET /wmbt/v1/ping HTTP/{version}\r\n{connection}\r\n").into_bytes()
    };
    let (server, _, _) = HttpServer::new().feed(&ping("1.1", ""));
    assert!(server.is_some());
    let (server, written, _) = HttpServer::new().feed(&ping("1.1", "Connection: Close\r\n"));
    assert!(server.is_none());
    assert_eq!(
        written,
        b"HTTP/1.1 200 OK\r\nContent-Type: text/plain\r\nContent-Length: 0\r\nConnection: close\r\n\r\n"
    );
    let (server, _, _) = HttpServer::new().feed(&ping("1.0", ""));
    assert!(server.is_none());
    let (server, _, _) = HttpServer::new().feed(&ping("1.0", "connection: keep-alive\r\n"));
    assert!(server.is_some());
}

#[test]
fn a_peer_that_leaves() {
    let (connection, _) = http_start();
    let (_, action) = http_advance(connection, HttpEvent::Read(vec![]));
    assert!(matches!(action, HttpAction::Close));
    let body = craft_tampered_wire(|_| {});
    let wire = raw_http_post_rpc("h", &body);
    let (server, _, _) = HttpServer::new().feed(&wire[..wire.len() - 1]);
    let (_, action) = http_advance(server.expect("open").connection, HttpEvent::Read(vec![]));
    match action {
        HttpAction::Fail(error) => assert_eq!(error.to_text(), "http io: peer closed mid-body"),
        other => panic!("expected a failure, got {other:?}"),
    }
}

#[test]
fn a_call_arrives_in_pieces() {
    let body = craft_tampered_wire(|_| {});
    let wire = raw_http_post_rpc("h", &body);
    let head = wire.len() - body.len();
    for size in [1, 3, 50, wire.len()] {
        let (mut connection, mut action) = http_start();
        let mut arrived = 0;
        for piece in wire.chunks(size) {
            assert!(matches!(action, HttpAction::Read(_)));
            let (after, next) = http_advance(connection, HttpEvent::Read(piece.to_vec()));
            connection = after;
            action = next;
            arrived += piece.len();
            if arrived < head {
                assert_eq!(connection.buf, wire[..arrived]);
            } else if arrived < wire.len() {
                assert_eq!(connection.buf, wire[head..arrived]);
            }
        }
        assert!(matches!(action, HttpAction::Serve(_)));
        assert!(connection.buf.is_empty());
    }
}

#[test]
fn heads_are_parsed() {
    assert_eq!(find_double_crlf(b"ab\r\n\r\ncd"), Some(2));
    assert_eq!(find_double_crlf(b"ab\r\n\r"), None);
    let head = parse_http_head_from_buf(
        b"POST /x HTTP/1.1\r\ncontent-length:  12 \r\nX-Other: a:b\r\nConnection: close",
    )
    .expect("a head");
    assert_eq!((head.method.as_str(), head.path.as_str()), ("POST", "/x"));
    assert_eq!(head.content_length, Some(12));
    assert!(!head.keep_alive);
    assert!(parse_http_head_from_buf(b"POST").is_err());
    assert!(parse_http_head_from_buf(b"GET / HTTP/1.1\r\nno colon").is_err());
    assert!(parse_http_head_from_buf(b"GET / HTTP/1.1\r\nContent-Length: x").is_err());
    assert!(parse_http_head_from_buf(&[0xFF, b' ', b'/', b' ', b'H']).is_err());
    let (_, _, end) = HttpServer::new().feed(b"BAD\r\n\r\n");
    match end {
        HttpEnd::Failed(error) => assert!(error.to_text().starts_with("http bad request: ")),
        _ => panic!("expected a failure"),
    }
}

#[test]
fn bad_http_responses() {
    match http_answer(b"HTTP/1.1 500 Oops\r\nContent-Length: 4\r\n\r\nwh\xFFy") {
        Err(HttpClientError::Http { status, message }) => {
            assert_eq!(status, 500);
            assert_eq!(message, String::from_utf8_lossy(b"wh\xFFy"));
        }
        other => panic!("expected an HTTP error, got {other:?}"),
    }
    let code_error = "abc".parse::<u16>().unwrap_err();
    match http_answer(b"HTTP/1.1 abc OK\r\n\r\n") {
        Err(error) => assert_eq!(
            error.to_text(),
            format!("http client codec: bad status code \"abc\": {code_error}")
        ),
        Ok(_) => panic!("expected an error"),
    }
    assert_eq!(
        http_answer(b"").unwrap_err().to_text(),
        "http client io: peer closed before response"
    );
    assert_eq!(
        http_answer(b"HTTP/1.1 200 OK\r\n").unwrap_err().to_text(),
        "http client io: peer closed mid-response-headers"
    );
    assert_eq!(
        http_answer(b"nonsense\r\n").unwrap_err().to_text(),
        "http client codec: malformed status line: \"nonsense\""
    );
    assert_eq!(
        http_answer(b"HTTP/1.1 200 OK\r\n\r\n").unwrap_err().to_text(),
        "http client codec: response missing Content-Length"
    );
    let long = format!("HTTP/1.1 200 OK\r\nX: {}\r\n\r\n", "y".repeat(20_000));
    assert_eq!(
        http_answer(long.as_bytes()).unwrap_err().to_text(),
        "http client codec: response head exceeds 16384 bytes"
    );
    assert_eq!(
        HttpClientError::from_call(CallError::Status { code: 2, message: "m".to_string() })
            .to_text(),
        "http client server status code=2 msg=\"m\""
    );
    assert_eq!(HttpServerError::Encode("e".to_string()).to_text(), "http encode: e");
    assert!(matches!(call_answer(200, b"junk"), Err(HttpClientError::Codec(_))));
    assert!(matches!(
        call_answer(200, &encode_envelope(b"junk")),
        Err(HttpClientError::Codec(_))
    ));
}
