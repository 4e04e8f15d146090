use bytes::Bytes;
use wombatkv::client::{Command, RemoteError, RemoteGetOutcome, RemoteHitTier};
use wombatkv::message::{WireRequest, WireResponse};
use wombatkv::worker::{reply_kind, Phase, Reply, ReplyKind, Worker, WorkerStep};
use wombatkv::{op, status};

fn sent(worker: &mut Worker, command: Command) -> WireRequest {
    assert_eq!(worker.phase, Phase::Idle);
    assert!(command.fits());
    match worker.begin(command) {
        WorkerStep::Send(request) => request,
        WorkerStep::Refuse(reply) => panic!("refused: {reply:?}"),
    }
}

fn response(request: &WireRequest, code: u8, payload: &[u8], message: &str) -> WireResponse {
    WireResponse {
        id: request.id,
        status: code,
        op: request.op,
        payload: payload.to_vec(),
        message: message.to_string(),
    }
}

fn get(key: &str) -> Command {
    Command::Get { namespace: "ns".to_string(), key: key.to_string() }
}

#[test]
fn each_command_gets_the_next_id_and_one_reply() {
    let mut worker = Worker::new();
    let put = sent(
        &mut worker,
        Command::Put {
            namespace: "ns".to_string(),
            key: "k".to_string(),
            payload: Bytes::from_static(b"v"),
        },
    );
    assert_eq!((put.id, put.op, put.payload.as_slice()), (0, op::PUT, &b"v"[..]));
    assert_eq!(worker.phase, Phase::Awaiting { id: 0, kind: ReplyKind::Unit });
    let ok = response(&put, status::OK, b"", "");
    assert!(matches!(worker.finish(Ok(ok), None), Reply::Unit(Ok(()))));

    let first = sent(&mut worker, get("k"));
    assert_eq!((first.id, first.op, first.key.as_str()), (1, op::GET, "k"));
    let ok = response(&first, status::OK, b"v", "tier:1");
    match worker.finish(Ok(ok), None) {
        Reply::Get(Ok(RemoteGetOutcome::Hit { tier, payload })) => {
            assert_eq!((tier, payload.as_ref()), (RemoteHitTier::Foyer, &b"v"[..]));
        }
        other => panic!("expected a hit, got {other:?}"),
    }

    let second = sent(&mut worker, get("gone"));
    assert_eq!(second.id, 2);
    let miss = response(&second, status::MISS, b"", "");
    assert!(matches!(worker.finish(Ok(miss), None), Reply::Get(Ok(RemoteGetOutcome::Miss))));

    let third = sent(&mut worker, get("broken"));
    let error = response(&third, status::ERROR, b"", "get: disk");
    match worker.finish(Ok(error), None) {
        Reply::Get(Err(RemoteError::DaemonStatus { status: code, message })) => {
            assert_eq!((code, message.as_str()), (status::ERROR, "get: disk"));
        }
        other => panic!("expected a status, got {other:?}"),
    }
    assert_eq!(worker.next_id, 4);
    assert!(!worker.has_ended());
}

#[test]
fn a_miss_is_a_failure_where_no_miss_is_known() {
    let mut worker = Worker::new();
    let exists =
        Command::Exists { namespace: "ns".to_string(), key: "k".to_string() };
    let request = sent(&mut worker, exists);
    let miss = response(&request, status::MISS, b"", "");
    assert!(matches!(worker.finish(Ok(miss), None), Reply::Exists(Ok(false))));
    let many = Command::GetMany { namespace: "ns".to_string(), keys: vec!["k".to_string()] };
    let request = sent(&mut worker, many);
    let miss = response(&request, status::MISS, b"", "k");
    assert!(matches!(worker.finish(Ok(miss), None), Reply::GetMany(Ok(None))));
    let request = sent(&mut worker, Command::Stats);
    let miss = response(&request, status::MISS, b"", "none");
    match worker.finish(Ok(miss), None) {
        Reply::Stats(Err(RemoteError::DaemonStatus { status: code, message })) => {
            assert_eq!((code, message.as_str()), (status::MISS, "none"));
        }
        other => panic!("expected a status, got {other:?}"),
    }
}

#[test]
fn a_refused_command_uses_up_its_id() {
    let mut worker = Worker::new();
    let command = Command::PutKvBlocksBatch {
        namespace: "ns".to_string(),
        block_hashes_hex: vec!["a".repeat(64)],
        payloads: vec![],
    };
    assert_eq!(reply_kind(&command), ReplyKind::PutBlocks);
    assert!(command.fits());
    match worker.begin(command) {
        WorkerStep::Refuse(Reply::PutBlocks(Err(RemoteError::Transport(text)))) => {
            assert!(text.starts_with("put_kv_blocks_batch_req: "), "{text}");
        }
        other => panic!("expected a refusal, got {other:?}"),
    }
    assert_eq!(worker.phase, Phase::Idle);
    assert_eq!(sent(&mut worker, Command::Ping).id, 1);
}

#[test]
fn what_fails_on_the_way_reaches_the_caller() {
    let mut worker = Worker::new();
    let list = Command::List { namespace: "ns".to_string() };
    sent(&mut worker, list);
    let lost = Err(RemoteError::Transport("recv: closed".to_string()));
    match worker.finish(lost, None) {
        Reply::List(Err(RemoteError::Transport(text))) => assert_eq!(text, "recv: closed"),
        other => panic!("expected a transport error, got {other:?}"),
    }
    let request = sent(&mut worker, Command::Clear);
    let mut stray = response(&request, status::OK, b"", "");
    stray.id = 9;
    match worker.finish(Ok(stray), None) {
        Reply::Unit(Err(RemoteError::Transport(text))) => {
            assert_eq!(text, "response id mismatch: req=1 resp=9");
        }
        other => panic!("expected a mismatch, got {other:?}"),
    }
}

#[test]
fn shutting_down_ends_the_run_whatever_comes_back() {
    let mut worker = Worker::new();
    let close = sent(&mut worker, Command::Shutdown);
    assert_eq!((close.id, close.op), (0, op::CLOSE));
    let lost = Err(RemoteError::Transport("recv: closed".to_string()));
    assert!(matches!(worker.finish(lost, None), Reply::Closed));
    assert!(worker.has_ended());
}

#[test]
fn ids_wrap_around() {
    let mut worker = Worker { next_id: u64::MAX, phase: Phase::Idle };
    let last = sent(&mut worker, Command::Ping);
    assert_eq!((last.id, worker.next_id), (u64::MAX, 0));
}
