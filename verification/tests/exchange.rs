use bytes::Bytes;
use std::collections::BTreeMap;
use wombatkv::arena::{ArenaShared, ArenaWriter};
use wombatkv::client::{
    accept_response, begin_command, check_block_counts, falls_back_to_serial, finish_exists,
    finish_get, finish_get_kv_blocks_batch, finish_get_many, finish_large_get, finish_list,
    finish_lookup_block_prefix, finish_put_kv_blocks_batch, finish_restore, finish_stats,
    finish_unit, large_error, parse_arena_ref, parse_tier, plan_put, put_step, serial_batch,
    start_get, take_id, CallEvent, CallState, ClientOptions, Command, GetStep, PutPlan,
    RemoteError, RemoteGetOutcome, RemoteHitTier,
};
use wombatkv::dispatch::{
    arena_response, encode_block_resp_or_err, err_response, ok_response, resume, start,
    start_background_put, Action, BlockFault, DispatchConfig, Event, HitTier, Stage, Step, StoreGet,
};
use wombatkv::large::{
    chunk_count, large_chunk_key, large_manifest, large_payload_id, parse_large_manifest,
    ChunkReply, LargeError, LargeManifest, LargeRead, LARGE_CHUNK_BYTES,
};
use wombatkv::message::{WireRequest, WireResponse};
use wombatkv::{op, status};
use wombatkv::wire::{decode_bytes_batch, decode_key_batch, FRAME_DATA_BYTES};

struct Daemon {
    config: DispatchConfig,
    store: BTreeMap<(String, String), Vec<u8>>,
    index: Vec<[u8; 32]>,
    arena: Option<(ArenaShared, Vec<u8>)>,
    broken: bool,
}

impl Daemon {
    fn new() -> Daemon {
        Daemon {
            config: DispatchConfig { arena_min_bytes: None, async_put: false },
            store: BTreeMap::new(),
            index: Vec::new(),
            arena: None,
            broken: false,
        }
    }

    fn with_arena(bytes: usize, min_bytes: usize) -> Daemon {
        let mut region = vec![0u8; bytes];
        let writer = ArenaWriter::create(&mut region);
        let mut daemon = Daemon::new();
        daemon.config.arena_min_bytes = Some(min_bytes);
        daemon.arena = Some((ArenaShared::new(writer, min_bytes), region));
        daemon
    }

    fn perform(&mut self, action: Action) -> Event {
        let broken = || "store is down".to_string();
        match action {
            Action::SpawnPut { namespace, key, payload } => {
                let mut step = start_background_put(namespace, key, payload);
                while let Step::Act { action, then } = step {
                    let event = self.perform(action);
                    step = resume(self.config, then, event);
                }
                Event::Spawned(true)
            }
            Action::PutKv { namespace, key, payload } => {
                if self.broken {
                    return Event::Stored(Err(broken()));
                }
                self.store.insert((namespace, key), payload.to_vec());
                Event::Stored(Ok(()))
            }
            Action::GetKv { namespace, key } => {
                if self.broken {
                    return Event::Got(Err(broken()));
                }
                match self.store.get(&(namespace, key)) {
                    Some(value) => Event::Got(Ok(StoreGet::Hit {
                        tier: HitTier::Foyer,
                        payload: Bytes::from(value.clone()),
                    })),
                    None => Event::Got(Ok(StoreGet::Miss)),
                }
            }
            Action::ExistsKv { namespace, key } => {
                Event::Found(Ok(self.store.contains_key(&(namespace, key))))
            }
            Action::ListKvKeys { namespace } => Event::Listed(Ok(self
                .store
                .keys()
                .filter(|(n, _)| *n == namespace)
                .map(|(_, k)| k.clone())
                .collect())),
            Action::Metrics => Event::Metrics("gets=1".to_string()),
            Action::ClearFoyer => {
                self.store.clear();
                Event::Done
            }
            Action::RestoreFromS3 { .. } => Event::Restored(Ok(self.store.len())),
            Action::LongestPrefix { hashes } => {
                Event::Matched(hashes.iter().take_while(|h| self.index.contains(h)).count())
            }
            Action::GetBlocks { namespace, keys } => Event::BlocksGot(
                keys.into_iter()
                    .map(|key| Ok(self.store.get(&(namespace.clone(), key)).cloned()))
                    .collect(),
            ),
            Action::PutBlocks { namespace, keys, payloads } => {
                let mut results = Vec::new();
                for (key, payload) in keys.into_iter().zip(payloads) {
                    if self.broken {
                        results.push(Err(BlockFault::Store(broken())));
                    } else {
                        self.store.insert((namespace.clone(), key), payload);
                        results.push(Ok(()));
                    }
                }
                Event::BlocksStored(results)
            }
            Action::IndexBlocks { hashes, .. } => {
                self.index.extend(hashes);
                Event::Done
            }
            Action::LookupSlab { namespace, key } => Event::SlabFound(
                self.arena.as_ref().and_then(|(a, _)| a.lookup_arena_slab(&namespace, &key)),
            ),
            Action::RememberSlab { namespace, key, bytes, tier } => {
                let (arena, region) = self.arena.as_mut().expect("an arena");
                Event::SlabWritten(
                    arena
                        .remember_arena_slab(region, &namespace, &key, &bytes, tier)
                        .map_err(|e| e.to_text()),
                )
            }
            Action::WriteSlab { bytes, tier } => {
                let (arena, region) = self.arena.as_mut().expect("an arena");
                Event::SlabWritten(
                    arena.write_arena_payload(region, &bytes, tier).map_err(|e| e.to_text()),
                )
            }
            Action::ClearSlabs => {
                self.arena.as_mut().expect("an arena").0.clear();
                Event::Done
            }
        }
    }

    fn serve(&mut self, request: WireRequest) -> WireResponse {
        let mut step = start(self.config, request);
        loop {
            match step {
                Step::Respond(response) => return response,
                Step::Act { action, then } => {
                    let event = self.perform(action);
                    step = resume(self.config, then, event);
                }
                Step::Overlong { .. } => panic!("overlong response"),
            }
        }
    }

    fn region(&self) -> Option<&[u8]> {
        self.arena.as_ref().map(|(_, region)| &region[..])
    }
}

struct Client {
    next_id: u64,
    daemon: Daemon,
}

impl Client {
    fn new(daemon: Daemon) -> Client {
        Client { next_id: 1, daemon }
    }

    // The archives really travel between the two sides.
    fn exchange(&mut self, command: Command) -> Result<WireResponse, RemoteError> {
        assert!(command.fits());
        let request = begin_command(&mut self.next_id, command)?;
        let id = request.id;
        assert!(request.fits());
        let arrived = WireRequest::decode(&request.encode().expect("encode")).expect("decode");
        let response = self.daemon.serve(arrived);
        assert!(response.fits());
        let answered = WireResponse::decode(&response.encode().expect("encode")).expect("decode");
        accept_response(id, answered)
    }

    fn put_kv(&mut self, namespace: &str, key: &str, payload: &[u8]) -> Result<(), RemoteError> {
        let plan = plan_put(namespace, key, payload);
        let mut i = 0;
        while let Some((step_key, bytes)) = put_step(&plan, key, payload, i) {
            let response = self.exchange(Command::Put {
                namespace: namespace.to_string(),
                key: step_key,
                payload: Bytes::from(bytes),
            })?;
            finish_unit(response)?;
            i += 1;
        }
        Ok(())
    }

    fn get_whole(&mut self, namespace: &str, key: &str) -> Result<RemoteGetOutcome, RemoteError> {
        let response = self
            .exchange(Command::Get { namespace: namespace.to_string(), key: key.to_string() })?;
        finish_get(response, self.daemon.region())
    }

    fn get_kv(&mut self, namespace: &str, key: &str) -> Result<RemoteGetOutcome, RemoteError> {
        match start_get(self.get_whole(namespace, key)?) {
            GetStep::Done(outcome) => Ok(outcome),
            GetStep::Chunks { tier, mut read } => {
                while let Some(chunk_key) = read.next_key() {
                    let reply = match self.get_whole(namespace, &chunk_key)? {
                        RemoteGetOutcome::Hit { payload, .. } => ChunkReply::Hit(payload.to_vec()),
                        RemoteGetOutcome::Miss => ChunkReply::Miss,
                    };
                    if let Err(error) = read.feed(reply) {
                        return Err(large_error(&error));
                    }
                }
                finish_large_get(tier, read)
            }
        }
    }

    fn has_kv(&mut self, namespace: &str, key: &str) -> Result<bool, RemoteError> {
        finish_exists(self.exchange(Command::Exists {
            namespace: namespace.to_string(),
            key: key.to_string(),
        })?)
    }

    fn ping(&mut self) -> Result<(), RemoteError> {
        finish_unit(self.exchange(Command::Ping)?)
    }
}

fn hit(outcome: RemoteGetOutcome) -> (RemoteHitTier, Bytes) {
    match outcome {
        RemoteGetOutcome::Hit { tier, payload } => (tier, payload),
        RemoteGetOutcome::Miss => panic!("expected hit"),
    }
}

#[test]
fn ping_round_trip() {
    let mut client = Client::new(Daemon::new());
    client.ping().expect("ping ok");
    assert_eq!(client.next_id, 2);
}

#[test]
fn put_then_get_round_trip() {
    let mut client = Client::new(Daemon::new());
    let payload = Bytes::from(vec![0xAB; 4096]);
    client.put_kv("client-test", "k1", &payload).expect("put");
    match client.get_kv("client-test", "k1").expect("get") {
        RemoteGetOutcome::Hit { payload: got, .. } => {
            assert_eq!(got.len(), payload.len());
            assert_eq!(&got[..16], &payload[..16]);
        }
        RemoteGetOutcome::Miss => panic!("expected hit"),
    }
    assert!(client.has_kv("client-test", "k1").expect("exists"));
    assert!(!client.has_kv("client-test", "missing").expect("exists"));
}

#[test]
fn large_manifest_round_trips() {
    let id = "abc123";
    let manifest = large_manifest(id, 12345, 7);
    let parsed = parse_large_manifest(manifest.as_bytes()).expect("manifest");
    assert_eq!(parsed.id, id);
    assert_eq!(parsed.total_len, 12345);
    assert_eq!(parsed.chunk_count, 7);
    assert!(parse_large_manifest(b"ordinary payload").is_none());
}

#[test]
fn two_engines_share_one_daemon_foyer() {
    // Both engines talk to one daemon.
    let mut daemon = Daemon::new();
    let namespace = "shared-test-ns";
    let key = "shared-prefix-block-001";
    let payload = Bytes::from(vec![0x42u8; 32 * 1024]); // 32 KiB
    let mut a = Client::new(daemon);
    a.put_kv(namespace, key, &payload).expect("A put_kv");
    daemon = a.daemon;
    let mut b = Client::new(daemon);
    assert!(b.has_kv(namespace, key).expect("B exists"));
    assert!(!b.has_kv(namespace, "missing-key").expect("B missing exists"));
    let (tier, got) = hit(b.get_kv(namespace, key).expect("B get_kv"));
    assert_eq!(got.len(), payload.len(), "payload size mismatch");
    assert_eq!(&got[..16], &payload[..16], "payload bytes mismatch");
    assert_eq!(tier, RemoteHitTier::Foyer);
    b.ping().expect("B ping after shared get");
}

#[test]
fn dead_daemon_yields_timeout_then_backend_unavailable() {
    let mut state = CallState::new();
    state.check_alive().expect("alive before daemon dies");
    assert!(state.settle(CallEvent::Answered(Ok(())), 500).is_ok());
    assert!(!state.is_dead(), "client should be alive before daemon dies");

    let err = state.settle::<()>(CallEvent::TimedOut, 500).expect_err("must fail");
    match &err {
        RemoteError::Timeout(millis) => assert_eq!(*millis, 500),
        other => panic!("expected Timeout, got {other:?}"),
    }
    assert!(state.is_dead(), "client should be dead after timeout");
    let err2 = state.check_alive().expect_err("second ping must fail");
    assert!(matches!(err2, RemoteError::BackendUnavailable));
    // An answer that comes late does not bring it back.
    assert!(state.settle(CallEvent::Answered(Ok(1)), 500).is_ok());
    assert!(state.is_dead());
}

#[test]
fn ping_with_timeout_uses_custom_deadline() {
    let mut state = CallState::new();
    match state.settle::<()>(CallEvent::TimedOut, 200) {
        Err(RemoteError::Timeout(millis)) => assert_eq!(millis, 200),
        other => panic!("expected Timeout, got {other:?}"),
    }
    assert!(state.is_dead());
    assert!(matches!(
        CallState::new().settle::<()>(CallEvent::Gone, 1),
        Err(RemoteError::WorkerGone)
    ));
    let options = ClientOptions::default();
    assert_eq!((options.call_timeout_millis, options.depth), (30_000, 16));
}

#[test]
fn remote_errors_in_words() {
    assert_eq!(RemoteError::Connect("c".to_string()).to_text(), "remote connect: c");
    assert_eq!(RemoteError::WorkerGone.to_text(), "remote worker thread gone");
    assert_eq!(RemoteError::Transport("t".to_string()).to_text(), "remote transport: t");
    assert_eq!(
        RemoteError::DaemonStatus { status: 3, message: "m".to_string() }.to_text(),
        "daemon status 3: m"
    );
    for millis in [0, 1, 10, 500, 999, 1_000, 1_001, 1_050, 1_500, 30_000, 61_230, u64::MAX] {
        assert_eq!(
            RemoteError::Timeout(millis).to_text(),
            format!(
                "remote call timed out after {:?}",
                std::time::Duration::from_millis(millis)
            )
        );
    }
    assert_eq!(
        RemoteError::BackendUnavailable.to_text(),
        "remote backend unavailable (client in dead state)"
    );
}

#[test]
fn a_large_value_goes_in_chunks() {
    let mut client = Client::new(Daemon::new());
    let payload: Vec<u8> = (0..FRAME_DATA_BYTES).map(|i| (i % 251) as u8).collect();
    client.put_kv("ns", "big", &payload).expect("put");
    // Two chunks and the manifest.
    assert_eq!(client.daemon.store.len(), 3);
    let (tier, got) = hit(client.get_kv("ns", "big").expect("get"));
    assert_eq!(tier, RemoteHitTier::Foyer);
    assert!(got[..] == payload[..]);

    // A lost chunk is a miss, and says which.
    let id = large_payload_id("ns", "big", &payload);
    client.daemon.store.remove(&("ns".to_string(), large_chunk_key(&id, 1)));
    match client.get_kv("ns", "big") {
        Err(RemoteError::DaemonStatus { status, message }) => {
            assert_eq!(status, status::MISS);
            assert_eq!(message, format!("missing large-payload chunk 1 for {id}"));
        }
        other => panic!("expected a miss, got {other:?}"),
    }
}

#[test]
fn large_values_and_their_ids() {
    let payload = b"payload".to_vec();
    let mut input = b"wombatkv-shm-large-v1\0ns\0key\0".to_vec();
    input.extend_from_slice(&(payload.len() as u64).to_le_bytes());
    input.extend_from_slice(&payload);
    assert_eq!(large_payload_id("ns", "key", &payload), blake3::hash(&input).to_hex().to_string());
    assert_eq!(large_chunk_key("x", 12), "__wmbt_kv_shm_large/x/00000012");
    assert_eq!(LARGE_CHUNK_BYTES, FRAME_DATA_BYTES - 4096);
    assert_eq!(chunk_count(0), 0);
    assert_eq!(chunk_count(1), 1);
    assert_eq!(chunk_count(LARGE_CHUNK_BYTES), 1);
    assert_eq!(chunk_count(LARGE_CHUNK_BYTES + 1), 2);
    assert!(matches!(plan_put("n", "k", &[0; 16]), PutPlan::Whole));
    assert_eq!(
        large_manifest("id", 5, 1),
        "WMBT_KV_SHM_LARGE_V1\nid\n5\n1\n"
    );
    assert!(parse_large_manifest(b"WMBT_KV_SHM_LARGE_V1\nid\n5\n").is_none());
    assert!(parse_large_manifest(b"WMBT_KV_SHM_LARGE_V1\nid\nx\n1\n").is_none());
    assert!(parse_large_manifest(&[0xFF]).is_none());
}

#[test]
fn a_large_value_of_the_wrong_length() {
    let manifest = LargeManifest { id: "i".to_string(), total_len: 3, chunk_count: 1 };
    let mut read = LargeRead::new(manifest);
    read.feed(ChunkReply::Hit(vec![1, 2])).expect("a chunk");
    assert!(read.next_key().is_none());
    let error = read.finish().expect_err("too short");
    assert_eq!(error.to_text(), "large-payload length mismatch: expected 3 got 2");
    assert!(matches!(large_error(&error), RemoteError::Transport(_)));
    assert!(matches!(
        large_error(&LargeError::MissingChunk { idx: 0, id: "i".to_string() }),
        RemoteError::DaemonStatus { .. }
    ));
}

#[test]
fn values_go_through_the_arena() {
    let mut client = Client::new(Daemon::with_arena(64 * 1024, 1024));
    client.put_kv("ns", "small", &[7; 10]).expect("put");
    client.put_kv("ns", "slab", &[9; 4096]).expect("put");
    let small = client
        .exchange(Command::Get { namespace: "ns".to_string(), key: "small".to_string() })
        .expect("get");
    assert_eq!(small.message, "tier:1");
    assert_eq!(small.payload, vec![7; 10]);
    let slab = client
        .exchange(Command::Get { namespace: "ns".to_string(), key: "slab".to_string() })
        .expect("get");
    assert!(slab.payload.is_empty());
    let (offset, len) = parse_arena_ref(&slab.message).expect("a slab reference");
    assert_eq!(len, 4096);
    assert!(offset >= 64);
    assert_eq!(parse_tier(&slab.message), RemoteHitTier::Foyer);
    let (_, got) = hit(client.get_kv("ns", "slab").expect("get"));
    assert_eq!(&got[..], &[9; 4096][..]);

    // Without the arena mapped the client cannot follow the reference.
    match finish_get(slab.clone(), None) {
        Err(RemoteError::Transport(text)) => assert_eq!(
            text,
            "daemon returned arena ref but WMBT_KV_DAEMON_SHM_ARENA_PATH is unset"
        ),
        other => panic!("expected a transport error, got {other:?}"),
    }
    match finish_get(slab, Some(&[0; 64])) {
        Err(RemoteError::Transport(text)) => {
            assert!(text.contains("arena read out of bounds"))
        }
        other => panic!("expected a transport error, got {other:?}"),
    }
    finish_unit(client.exchange(Command::Clear).expect("clear")).expect("clear");
    assert!(matches!(client.get_kv("ns", "slab"), Ok(RemoteGetOutcome::Miss)));
}

#[test]
fn acknowledged_before_stored() {
    let mut daemon = Daemon::new();
    daemon.config.async_put = true;
    let mut client = Client::new(daemon);
    client.put_kv("ns", "k", b"v").expect("put");
    assert_eq!(&hit(client.get_kv("ns", "k").expect("get")).1[..], b"v");
}

#[test]
fn batched_gets() {
    let mut client = Client::new(Daemon::new());
    client.put_kv("ns", "a", b"1").expect("put");
    client.put_kv("ns", "b", b"22").expect("put");
    let keys = vec!["b".to_string(), "a".to_string()];
    let many = Command::GetMany { namespace: "ns".to_string(), keys };
    let batch = finish_get_many(client.exchange(many).expect("get many"), None)
        .expect("get many")
        .expect("all there");
    let items = decode_bytes_batch(batch.clone()).expect("decode");
    assert_eq!(items, vec![Bytes::from_static(b"22"), Bytes::from_static(b"1")]);
    let missing = Command::GetMany { namespace: "ns".to_string(), keys: vec!["x".to_string()] };
    assert!(finish_get_many(client.exchange(missing).expect("get many"), None)
        .expect("get many")
        .is_none());

    let serial = serial_batch(vec![
        client.get_kv("ns", "b").expect("get"),
        client.get_kv("ns", "a").expect("get"),
    ]);
    assert_eq!(serial, Some(batch));
    assert!(serial_batch(vec![RemoteGetOutcome::Miss]).is_none());
    assert!(falls_back_to_serial(&Err(RemoteError::DaemonStatus {
        status: status::TOO_LARGE,
        message: String::new()
    })));
    assert!(!falls_back_to_serial(&Ok(None)));
}

#[test]
fn the_smaller_operations() {
    let mut client = Client::new(Daemon::new());
    client.put_kv("ns", "a", b"1").expect("put");
    client.put_kv("ns", "b", b"2").expect("put");
    let listed = client.exchange(Command::List { namespace: "ns".to_string() }).expect("list");
    assert_eq!(listed.message, "2");
    let batch = finish_list(listed).expect("list");
    assert_eq!(decode_key_batch(&batch).expect("keys"), vec!["a", "b"]);
    let stats = client.exchange(Command::Stats).expect("stats");
    assert_eq!(finish_stats(stats).expect("stats"), "gets=1");
    let restored =
        client.exchange(Command::Restore { namespace: "ns".to_string() }).expect("restore");
    assert_eq!(finish_restore(restored).expect("restore"), 2);
    match finish_restore(WireResponse {
        id: 1,
        status: status::OK,
        op: op::RESTORE,
        payload: vec![],
        message: "many".to_string(),
    }) {
        Err(RemoteError::Transport(text)) => {
            let cause = "many".parse::<usize>().unwrap_err();
            assert_eq!(text, format!("restore count parse: {cause} (msg=\"many\")"));
        }
        other => panic!("expected a transport error, got {other:?}"),
    }
    finish_unit(client.exchange(Command::Shutdown).expect("close")).expect("close");

    client.daemon.broken = true;
    match client.put_kv("ns", "a", b"1") {
        Err(RemoteError::DaemonStatus { status, message }) => {
            assert_eq!(status, status::ERROR);
            assert!(message.contains("store is down"));
        }
        other => panic!("expected an error, got {other:?}"),
    }
    assert!(client.get_kv("ns", "a").is_err());
}

#[test]
fn blocks_are_stored_and_found() {
    let mut client = Client::new(Daemon::new());
    let hashes = vec!["aa".repeat(32), "bb".repeat(32)];
    let put = Command::PutKvBlocksBatch {
        namespace: "ns".to_string(),
        block_hashes_hex: hashes.clone(),
        payloads: vec![vec![1; 10], vec![2; 20]],
    };
    let stored = finish_put_kv_blocks_batch(client.exchange(put).expect("put")).expect("put");
    assert_eq!(stored, 30);
    let mut longer = hashes.clone();
    longer.push("cc".repeat(32));
    let lookup = Command::LookupBlockPrefix {
        namespace: "ns".to_string(),
        block_hashes_hex: longer.clone(),
    };
    let matched = finish_lookup_block_prefix(client.exchange(lookup).expect("lookup"));
    assert_eq!(matched.expect("lookup"), 2);
    let get = |hashes: Vec<String>| Command::GetKvBlocksBatch {
        namespace: "ns".to_string(),
        block_hashes_hex: hashes,
    };
    let found = finish_get_kv_blocks_batch(client.exchange(get(hashes.clone())).expect("get"))
        .expect("get")
        .expect("all there");
    assert_eq!(found, vec![Bytes::from(vec![1; 10]), Bytes::from(vec![2; 20])]);
    assert!(finish_get_kv_blocks_batch(client.exchange(get(longer)).expect("get"))
        .expect("get")
        .is_none());
    let bad = finish_get_kv_blocks_batch(
        client.exchange(get(vec!["not hex".to_string()])).expect("get"),
    );
    assert!(matches!(bad, Err(RemoteError::DaemonStatus { status: 3, .. })));

    let uneven = Command::PutKvBlocksBatch {
        namespace: "ns".to_string(),
        block_hashes_hex: hashes,
        payloads: vec![],
    };
    assert!(uneven.fits());
    assert!(client.exchange(uneven).is_err());
    check_block_counts(2, 2).expect("equal");
    match check_block_counts(2, 0) {
        Err(RemoteError::Transport(text)) => {
            assert_eq!(text, "put_kv_blocks_batch length mismatch: 2 hashes vs 0 payloads")
        }
        other => panic!("expected a transport error, got {other:?}"),
    }
}

#[test]
fn failed_blocks_are_named_and_not_indexed() {
    let mut client = Client::new(Daemon::new());
    client.daemon.broken = true;
    let put = Command::PutKvBlocksBatch {
        namespace: "ns".to_string(),
        block_hashes_hex: vec!["aa".repeat(32)],
        payloads: vec![vec![1]],
    };
    match finish_put_kv_blocks_batch(client.exchange(put).expect("put")) {
        Err(RemoteError::DaemonStatus { status: code, message }) => {
            assert_eq!(code, status::ERROR);
            let key = format!("wombatkv/v1/block/b3={}", "aa".repeat(32));
            assert_eq!(message, format!("put_kv {key}: store is down"));
        }
        other => panic!("expected a status, got {other:?}"),
    }
    assert!(client.daemon.index.is_empty());

    let config = client.daemon.config;
    let getting =
        |keys: &[&str]| Stage::GettingBlocks { id: 7, keys: keys.iter().map(|k| k.to_string()).collect() };
    let results = vec![Ok(Some(vec![1])), Err(BlockFault::Store("timeout".to_string()))];
    match resume(config, getting(&["a", "b"]), Event::BlocksGot(results)) {
        Step::Respond(response) => {
            assert_eq!((response.id, response.status), (7, status::ERROR));
            assert_eq!(response.message, "get_kv b: timeout");
        }
        other => panic!("expected a response, got {other:?}"),
    }
    match resume(config, getting(&["a"]), Event::BlocksGot(vec![Err(BlockFault::Panicked)])) {
        Step::Respond(response) => {
            assert_eq!(response.message, "get_kv_blocks_batch thread panic");
        }
        other => panic!("expected a response, got {other:?}"),
    }
}

#[test]
fn answers_are_held_against_their_requests() {
    let mut next = u64::MAX;
    assert_eq!(take_id(&mut next), u64::MAX);
    assert_eq!(next, 0);
    match accept_response(5, ok_response(6, op::PING)) {
        Err(RemoteError::Transport(text)) => {
            assert_eq!(text, "response id mismatch: req=5 resp=6")
        }
        other => panic!("expected a mismatch, got {other:?}"),
    }
}

#[test]
fn unknown_operations_and_bad_batches() {
    let mut daemon = Daemon::new();
    let request = |code: u8, payload: Vec<u8>| WireRequest {
        id: 9,
        op: code,
        namespace: String::new(),
        key: String::new(),
        payload,
    };
    let unknown = daemon.serve(request(99, vec![]));
    assert_eq!((unknown.id, unknown.op, unknown.status), (9, 99, status::ERROR));
    assert_eq!(unknown.message, "unknown op 99");
    let bad = daemon.serve(request(op::GET_MANY, b"junk".to_vec()));
    assert_eq!(bad.status, status::ERROR);
    assert!(bad.message.starts_with("key_batch: bad magic"));
    let bad = daemon.serve(request(op::LOOKUP_BLOCK_PREFIX, b"junk".to_vec()));
    assert!(bad.message.starts_with("decode lookup_block_prefix req: "));
}

#[test]
fn building_responses() {
    let ok = ok_response(1, op::PUT);
    assert_eq!((ok.id, ok.op, ok.status), (1, op::PUT, status::OK));
    let err = err_response(2, op::GET, "why".to_string());
    assert_eq!((err.status, err.message.as_str()), (status::ERROR, "why"));
    let slab = wombatkv::arena::ArenaSlab { offset: 64, len: 10, tier: 2 };
    let by_ref = arena_response(3, op::GET, slab);
    assert_eq!(by_ref.message, "tier:2;arena:64:10");
    assert_eq!(parse_arena_ref(&by_ref.message), Some((64, 10)));
    assert_eq!(parse_tier(&by_ref.message), RemoteHitTier::ObjectStore);
    assert_eq!(parse_arena_ref("tier:1;arena:x:1"), None);
    assert_eq!(parse_arena_ref("tier:1"), None);
    let framed =
        encode_block_resp_or_err(4, op::GET_KV_BLOCKS_BATCH, status::OK, String::new(), Ok(vec![1]));
    assert_eq!((framed.status, framed.payload), (status::OK, vec![1]));
    let failed = encode_block_resp_or_err(
        4,
        op::GET_KV_BLOCKS_BATCH,
        status::OK,
        String::new(),
        Err(wombatkv::wire::WireCodecError::LengthOverflow { what: "x" }),
    );
    assert_eq!(failed.message, "block-payload encode: x: length overflow");
}
