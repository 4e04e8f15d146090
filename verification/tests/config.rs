use wombatkv::config::{
    address_list, arena_settings, async_put_enabled, daemon_hostname_or_default,
    default_daemon_puffer_dir, effective_attach_timeout, effective_shutdown_drain_timeout,
    env_parse, env_truthy, env_u64_or, env_usize_or, join_path, max_open_retries, node_id,
    puffer_dir_candidate, wait_strategy_from_env, DaemonConfig, DaemonEnv, WaitStrategy,
    ATTACH_TIMEOUT,
};
use wombatkv::constants::{
    HEARTBEAT_POLL_INTERVAL, HTTP_ACCEPT_RETRY_BACKOFF, SHM_INNER_LOOP_BACKOFF,
    SHM_THREAD_STACK_BYTES, SHUTDOWN_DRAIN_TIMEOUT, SHUTDOWN_POLL_INTERVAL,
    TCP_ACCEPT_RETRY_BACKOFF,
};
use wombatkv::serve::{
    attach_again, attach_failed, closes, drain_step, parse_args, remote_only, settle_prefixes,
    CliChoice, DrainStep, PrefixServer, ServeAction, ServeEvent, ServeStage,
};
use wombatkv::wire::{DEFAULT_RING_DEPTH, FRAME_DATA_BYTES};

fn some(text: &str) -> Option<String> {
    Some(text.to_string())
}

fn unset() -> DaemonEnv {
    DaemonEnv {
        shm_prefix: None,
        tcp: None,
        http: None,
        shm_depth: None,
        wait_strategy: None,
        tcp_tpc_threads: None,
        tcp_dispatch_workers: None,
        http_tpc_threads: None,
        http_dispatch_workers: None,
        puffer_dir: None,
        puffer_ram_bytes: None,
        puffer_disk_bytes: None,
        puffer_block_size_bytes: None,
        s3_prefix: None,
        slatedb_path: None,
        namespace: None,
        namespace_max_bytes: None,
        eviction_interval_secs: None,
        quiet_banner: None,
        trace_daemon: None,
        prefetch_dry_run: None,
    }
}

#[test]
fn defaults_are_sensible() {
    let cfg = DaemonConfig::with_puffer_dir("/var/puffer".to_string());
    assert_eq!(cfg.shm_depth, DEFAULT_RING_DEPTH);
    assert_eq!(cfg.tcp_tpc_threads, 2);
    assert_eq!(cfg.http_tpc_threads, 2);
    assert_eq!(cfg.tcp_dispatch_workers, 8);
    assert_eq!(cfg.http_dispatch_workers, 8);
    assert!(matches!(cfg.wait_strategy, WaitStrategy::Block));
    assert!(!cfg.quiet_banner);
    assert!(!cfg.trace_daemon);
    assert!(!cfg.prefetch_dry_run);
    assert_eq!(cfg.namespace, "default");
    assert_eq!(cfg.s3_prefix, "kv/puffer-shm");
    assert_eq!(cfg.eviction_interval, 30);
}

#[test]
fn env_parse_returns_none_for_garbage() {
    assert!(env_parse(&None).is_none());
    assert!(env_parse(&some("garbage")).is_none());
    assert!(env_parse(&some("")).is_none());
    assert!(env_parse(&some("-1")).is_none());
    assert!(env_parse(&some(" 1")).is_none());
    assert!(env_parse(&some("18446744073709551616")).is_none());
    assert_eq!(env_parse(&some("18446744073709551615")), Some(u64::MAX));
    assert_eq!(env_parse(&some("+7")), Some(7));
    assert_eq!(env_parse(&some("007")), Some(7));
}

#[test]
fn env_truthy_matches_canonical_set() {
    for tv in ["1", "true", "True", "TRUE", "yes", "on", "ON"] {
        assert!(env_truthy(&some(tv)));
    }
    for fv in ["0", "false", "no", "off", ""] {
        assert!(!env_truthy(&some(fv)));
    }
    assert!(!env_truthy(&None));
}

#[test]
fn durations_are_in_sane_ranges() {
    // Documenting expected ranges as a guard against accidental
    // micro/milli/sec confusion in a future edit.
    assert!(SHUTDOWN_DRAIN_TIMEOUT / 1000 >= 5);
    assert!(SHUTDOWN_DRAIN_TIMEOUT / 1000 <= 60);
    assert!(SHUTDOWN_POLL_INTERVAL >= 50);
    assert!(SHUTDOWN_POLL_INTERVAL <= 1000);
    assert!(SHM_INNER_LOOP_BACKOFF >= 10);
    assert!(SHM_INNER_LOOP_BACKOFF <= 10_000);
    assert!(TCP_ACCEPT_RETRY_BACKOFF >= 1);
    assert!(TCP_ACCEPT_RETRY_BACKOFF <= 1000);
}

#[test]
fn timings() {
    assert_eq!(SHUTDOWN_DRAIN_TIMEOUT, 10_000);
    assert_eq!(SHUTDOWN_POLL_INTERVAL, 250);
    assert_eq!(HEARTBEAT_POLL_INTERVAL, 250);
    assert_eq!(SHM_INNER_LOOP_BACKOFF, 100);
    assert_eq!(TCP_ACCEPT_RETRY_BACKOFF, 50);
    assert_eq!(HTTP_ACCEPT_RETRY_BACKOFF, 20);
    assert!(SHM_THREAD_STACK_BYTES >= 32 * FRAME_DATA_BYTES);
}

#[test]
fn numbers_with_defaults() {
    assert_eq!(env_usize_or(&some("12"), 3), 12);
    assert_eq!(env_usize_or(&some("x"), 3), 3);
    assert_eq!(env_u64_or(&None, 9), 9);
    assert_eq!(env_u64_or(&some("0"), 9), 0);
}

#[test]
fn wait_strategies() {
    assert_eq!(wait_strategy_from_env(&None), (WaitStrategy::Block, false));
    assert_eq!(wait_strategy_from_env(&some("")), (WaitStrategy::Block, false));
    assert_eq!(wait_strategy_from_env(&some(" spin\n")), (WaitStrategy::BusySpin, false));
    assert_eq!(wait_strategy_from_env(&some("BusySpin")), (WaitStrategy::BusySpin, false));
    assert_eq!(wait_strategy_from_env(&some("park")), (WaitStrategy::Block, false));
    assert_eq!(wait_strategy_from_env(&some("BUSYSPIN")), (WaitStrategy::Block, true));
}

#[test]
fn address_lists() {
    assert_eq!(address_list(&some(" a:1 ,, b:2,")), vec!["a:1", "b:2"]);
    assert!(address_list(&some(" , ")).is_empty());
    assert!(address_list(&None).is_empty());
}

#[test]
fn paths() {
    assert_eq!(join_path("/a", "b"), "/a/b");
    assert_eq!(join_path("/a/", "b"), "/a/b");
    assert_eq!(join_path("", "b"), "b");
    assert_eq!(puffer_dir_candidate(&some("/home/x")), some("/home/x/.wombatkv/puffer"));
    assert_eq!(puffer_dir_candidate(&some("")), None);
    assert_eq!(puffer_dir_candidate(&None), None);
    assert_eq!(default_daemon_puffer_dir(some("/d"), true), "/d");
    assert_eq!(default_daemon_puffer_dir(some("/d"), false), "/tmp/wombatkv-puffer-shm-foyer");
    assert_eq!(default_daemon_puffer_dir(None, true), "/tmp/wombatkv-puffer-shm-foyer");
}

#[test]
fn settings_from_variables() {
    let mut env = unset();
    let cfg = DaemonConfig::from_env(&env, "/p".to_string());
    assert!(cfg.shm_prefixes.is_empty());
    assert_eq!(cfg.puffer_dir, "/p");
    assert_eq!(cfg.slatedb_path, "/p/slatedb");
    assert!(!cfg.eviction_enabled());

    env.shm_prefix = some("pre");
    env.tcp = some("0.0.0.0:7878, 127.0.0.1:1");
    env.http = some("h:2");
    env.shm_depth = some("64");
    env.wait_strategy = some("busyspin");
    env.tcp_tpc_threads = some("0");
    env.tcp_dispatch_workers = some("3");
    env.http_tpc_threads = some("bad");
    env.http_dispatch_workers = some("0");
    env.puffer_dir = some("/q");
    env.puffer_ram_bytes = some("1024");
    env.puffer_disk_bytes = some("nope");
    env.puffer_block_size_bytes = some("16");
    env.s3_prefix = some("s3");
    env.namespace = some("ns");
    env.namespace_max_bytes = some("5");
    env.eviction_interval_secs = some("60");
    env.quiet_banner = some("yes");
    env.trace_daemon = some("");
    env.prefetch_dry_run = some("no");
    let cfg = DaemonConfig::from_env(&env, "/p".to_string());
    assert_eq!(cfg.shm_prefixes, vec!["pre"]);
    assert_eq!(cfg.tcp_addrs, vec!["0.0.0.0:7878", "127.0.0.1:1"]);
    assert_eq!(cfg.http_addrs, vec!["h:2"]);
    assert_eq!(cfg.shm_depth, 64);
    assert_eq!(cfg.wait_strategy, WaitStrategy::BusySpin);
    assert_eq!(cfg.tcp_tpc_threads, 1);
    assert_eq!(cfg.tcp_dispatch_workers, 3);
    assert_eq!(cfg.http_tpc_threads, 2);
    assert_eq!(cfg.http_dispatch_workers, 1);
    assert_eq!(cfg.puffer_dir, "/q");
    assert_eq!(cfg.slatedb_path, "/q/slatedb");
    assert_eq!(cfg.puffer_ram_bytes, Some(1024));
    assert_eq!(cfg.puffer_disk_bytes, None);
    assert_eq!(cfg.puffer_block_size_bytes, Some(16));
    assert_eq!(cfg.s3_prefix, "s3");
    assert_eq!(cfg.namespace, "ns");
    assert_eq!(cfg.namespace_max_bytes, Some(5));
    assert_eq!(cfg.eviction_interval, 60);
    assert!(cfg.quiet_banner);
    assert!(cfg.trace_daemon);
    assert!(!cfg.prefetch_dry_run);
    assert!(cfg.eviction_enabled());

    env.slatedb_path = some("/own");
    env.namespace = some("");
    env.namespace_max_bytes = some("0");
    let cfg = DaemonConfig::from_env(&env, "/p".to_string());
    assert_eq!(cfg.slatedb_path, "/own");
    assert_eq!(cfg.namespace, "default");
    assert!(!cfg.eviction_enabled());
}

#[test]
fn settings_read_where_they_are_used() {
    assert_eq!(effective_attach_timeout(&None), ATTACH_TIMEOUT);
    assert_eq!(effective_attach_timeout(&some("0")), 30);
    assert_eq!(effective_attach_timeout(&some("5")), 5);
    assert_eq!(effective_shutdown_drain_timeout(&some("2")), 2_000);
    assert_eq!(effective_shutdown_drain_timeout(&some("0")), 10_000);
    assert_eq!(max_open_retries(&None), 20);
    assert_eq!(max_open_retries(&some("2")), 2);
    assert_eq!(max_open_retries(&some("4294967296")), 20);
    assert!(async_put_enabled(&some("on")));
    assert!(!async_put_enabled(&some("ON")));
    assert!(arena_settings(&None, &None, &None).is_none());
    assert!(arena_settings(&some(""), &None, &None).is_none());
    let arena = arena_settings(&some("/a"), &some("4096"), &None).expect("a path is set");
    assert_eq!((arena.path.as_str(), arena.size, arena.min_bytes), ("/a", 4096, 1_048_576));
    assert_eq!(daemon_hostname_or_default(&some("h"), &some("c")), "h");
    assert_eq!(daemon_hostname_or_default(&None, &some("c")), "c");
    assert_eq!(daemon_hostname_or_default(&some(""), &some("c")), "default-node");
    assert_eq!(node_id(&some("n"), &some("h"), &None), "n");
    assert_eq!(node_id(&some(""), &some("h"), &None), "h");
}

fn args(list: &[&str]) -> Vec<String> {
    list.iter().map(|a| a.to_string()).collect()
}

#[test]
fn command_lines() {
    let base = || {
        let mut cfg = DaemonConfig::with_puffer_dir("/p".to_string());
        cfg.shm_prefixes.push("env".to_string());
        cfg
    };
    let line = args(&["--prefix", "a", "--tcp", "x:1", "--tpc", "--http", "y:2", "--prefix", "b"]);
    match parse_args(base(), &line) {
        CliChoice::Run { config, tpc } => {
            assert_eq!(config.shm_prefixes, vec!["env", "a", "b"]);
            assert_eq!(config.tcp_addrs, vec!["x:1"]);
            assert_eq!(config.http_addrs, vec!["y:2"]);
            assert!(tpc);
        }
        other => panic!("expected a run, got {other:?}"),
    }
    assert!(matches!(parse_args(base(), &args(&["--help", "--bad"])), CliChoice::Help));
    assert!(matches!(parse_args(base(), &args(&["-h"])), CliChoice::Help));
    let refusals = [
        ("--prefix", "--prefix requires a value"),
        ("--tcp", "--tcp requires an address (e.g. 0.0.0.0:7878)"),
        ("--http", "--http requires an address (e.g. 0.0.0.0:7879)"),
        ("--bad", "unknown arg: --bad"),
    ];
    for (arg, text) in refusals {
        match parse_args(base(), &args(&[arg])) {
            CliChoice::Refused(said) => assert_eq!(said, text),
            other => panic!("expected a refusal of {arg}, got {other:?}"),
        }
    }
}

#[test]
fn served_prefixes() {
    let cfg = DaemonConfig::with_puffer_dir("/p".to_string());
    let cfg = settle_prefixes(cfg).expect("the default prefix is short");
    assert_eq!(cfg.shm_prefixes, vec!["default"]);
    assert!(!remote_only(&cfg));

    let mut cfg = DaemonConfig::with_puffer_dir("/p".to_string());
    cfg.tcp_addrs.push("x:1".to_string());
    let cfg = settle_prefixes(cfg).expect("no prefix");
    assert!(cfg.shm_prefixes.is_empty());
    assert!(remote_only(&cfg));

    let mut cfg = DaemonConfig::with_puffer_dir("/p".to_string());
    cfg.shm_prefixes = vec!["ok".to_string(), "a".repeat(15)];
    let err = settle_prefixes(cfg).expect_err("a prefix is too long");
    assert!(err.to_text().contains("exceeds the macOS"));
}

#[test]
fn attaching() {
    assert!(attach_again(29_999, 30));
    assert!(!attach_again(30_000, 30));
    assert_eq!(attach_failed("wkpr", "gone", 3), "attach wkpr: gone (after 3 retries)");
}

#[test]
fn tpc_tcp_only_emits_open_retry_within_10s() {
    let mut server = PrefixServer::new(20);
    assert!(matches!(
        server.advance("p", ServeEvent::Started { stopping: false }),
        ServeAction::Open
    ));
    match server.advance("p", ServeEvent::Opened(Err("Shared segment not found".to_string()))) {
        ServeAction::Start { pause_millis } => assert_eq!(pause_millis, 250),
        other => panic!("expected a retry, got {other:?}"),
    }
    assert_eq!(server.open_retries, 1);
}

#[test]
fn tpc_tcp_only_emits_shard_error_within_90s() {
    let mut server = PrefixServer::new(max_open_retries(&some("2")));
    for attempt in 0..2 {
        server.advance("p", ServeEvent::Started { stopping: false });
        let action =
            server.advance("p", ServeEvent::Opened(Err("Shared segment not found".to_string())));
        if attempt == 0 {
            assert!(matches!(action, ServeAction::Start { .. }));
        } else {
            match action {
                ServeAction::Fail(text) => {
                    assert!(text.contains("failed 2 times"));
                    let hint_markers =
                        ["Shared segment not found", "open_daemon for prefix", "RFC 0011 P10"];
                    let hint_hit = hint_markers.iter().filter(|m| text.contains(*m)).count();
                    assert!(hint_hit >= 2);
                }
                other => panic!("expected a failure, got {other:?}"),
            }
        }
    }
    assert_eq!(server.stage, ServeStage::Done);
}

#[test]
fn a_prefix_is_served() {
    let mut server = PrefixServer::new(3);
    server.advance("p", ServeEvent::Started { stopping: false });
    match server.advance("p", ServeEvent::Opened(Ok(()))) {
        ServeAction::Discover { timeout_secs } => assert_eq!(timeout_secs, 30),
        other => panic!("unexpected {other:?}"),
    }
    assert!(matches!(server.advance("p", ServeEvent::Discovered(true)), ServeAction::Attach));
    match server.advance(
        "p",
        ServeEvent::Processed { delivered: 2, closing: false, stopping: false },
    ) {
        ServeAction::Process { pause_micros } => assert_eq!(pause_micros, 0),
        other => panic!("unexpected {other:?}"),
    }
    assert!(matches!(
        server.advance(
            "p",
            ServeEvent::Processed { delivered: 0, closing: false, stopping: false }
        ),
        ServeAction::Poll
    ));
    match server.advance("p", ServeEvent::Polled(None)) {
        ServeAction::Process { pause_micros } => assert_eq!(pause_micros, 100),
        other => panic!("unexpected {other:?}"),
    }
    match server.advance(
        "p",
        ServeEvent::Processed { delivered: 1, closing: true, stopping: false },
    ) {
        ServeAction::Restart { cleanup } => assert!(cleanup),
        other => panic!("unexpected {other:?}"),
    }
    assert!(matches!(
        server.advance("p", ServeEvent::Started { stopping: true }),
        ServeAction::Finish
    ));
    assert_eq!(server.stage, ServeStage::Done);
    assert!(closes(wombatkv::op::CLOSE));
    assert!(!closes(wombatkv::op::PING));
}

#[test]
fn waiting_for_background_puts() {
    assert_eq!(drain_step(0, 99, 10), DrainStep::Drained);
    assert_eq!(drain_step(1, 10, 10), DrainStep::TimedOut);
    assert_eq!(drain_step(1, 9, 10), DrainStep::Wait { pause_millis: 25 });
}
