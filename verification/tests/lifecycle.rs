use wombatkv::lifecycle::{
    heartbeat_enabled, heartbeat_path, heartbeat_tmp_path, pid_maybe_alive, plan_takeover,
    read_record, record_is_stale, resolve_heartbeat_dir, sanitize_prefix, ClientHeartbeat,
    HeartbeatMonitor, HeartbeatRecord, HeartbeatSettings, ReopenReason, Takeover,
};

fn some(text: &str) -> Option<String> {
    Some(text.to_string())
}

fn settings() -> HeartbeatSettings {
    HeartbeatSettings::from_env(&None, &None, &None, &None)
}

#[test]
fn a_record_is_read_back() {
    let record = HeartbeatRecord { id: "7-8-9".to_string(), pid: 7, updated_ms: 1_234 };
    let text = record.to_text();
    assert_eq!(text, "id=7-8-9\npid=7\nupdated_ms=1234\n");
    let read = read_record(&Some(text)).expect("all fields are there");
    assert_eq!((read.id.as_str(), read.pid, read.updated_ms), ("7-8-9", 7, 1_234));
}

#[test]
fn files_that_hold_no_record() {
    assert!(read_record(&None).is_none());
    assert!(read_record(&some("")).is_none());
    assert!(read_record(&some("id=x\npid=1\n")).is_none());
    assert!(read_record(&some("id=x\npid=4294967296\nupdated_ms=1\n")).is_none());
    let read = read_record(&some("junk\r\nid=a\r\nid=b\r\npid=1\r\nupdated_ms=2")).unwrap();
    assert_eq!((read.id.as_str(), read.pid, read.updated_ms), ("b", 1, 2));
}

#[test]
fn stale_records() {
    let record = HeartbeatRecord { id: "x".to_string(), pid: 1, updated_ms: 1_000 };
    assert!(!record_is_stale(&record, 4_000, 3_000));
    assert!(record_is_stale(&record, 4_001, 3_000));
    assert!(!record_is_stale(&record, 0, 0));
    assert!(!pid_maybe_alive(0, true));
    assert!(pid_maybe_alive(1, true));
    assert!(!pid_maybe_alive(1, false));
}

#[test]
fn heartbeat_settings() {
    let s = settings();
    assert!(s.enabled);
    assert!(heartbeat_enabled(&None));
    assert_eq!((s.interval_ms, s.stale_after_ms, s.check_interval_ms), (500, 3_000, 250));
    for off in ["1", "true", "on", "yes", "y", "enable", "enabled", "TRUE", "2", "anything"] {
        assert!(!heartbeat_enabled(&some(off)));
    }
    for on in ["0", "false", "off", "no", ""] {
        assert!(heartbeat_enabled(&some(on)));
    }
}

#[test]
fn heartbeat_paths() {
    assert_eq!(sanitize_prefix("a/b c-1_é"), "a_b_c-1__");
    assert_eq!(resolve_heartbeat_dir(&some("/hb"), "/tmp"), "/hb");
    assert_eq!(resolve_heartbeat_dir(&None, "/tmp"), "/tmp/wombatkv-puffer-shm");
    assert_eq!(heartbeat_path("/hb", "a/b"), "/hb/a_b.heartbeat");
    assert_eq!(heartbeat_tmp_path("/hb", "a/b", 12), "/hb/a_b.tmp.12");
}

#[test]
fn taking_a_prefix() {
    let record = || Some(HeartbeatRecord { id: "7-1-0".to_string(), pid: 7, updated_ms: 1_000 });
    assert_eq!(
        plan_takeover("p\"", &record(), true, true, 2_000, 3_000),
        Err("active SHM client for prefix \"p\\\"\": pid=7 id=7-1-0".to_string())
    );
    let all = Takeover { cleanup_segments: true, remove_record: true };
    assert_eq!(plan_takeover("p", &record(), false, false, 2_000, 3_000), Ok(all));
    assert_eq!(plan_takeover("p", &record(), true, false, 9_000, 3_000), Ok(all));
    assert_eq!(
        plan_takeover("p", &None, false, true, 0, 0),
        Ok(Takeover { cleanup_segments: true, remove_record: false })
    );
    assert_eq!(
        plan_takeover("p", &None, false, false, 0, 0),
        Ok(Takeover { cleanup_segments: false, remove_record: false })
    );
}

#[test]
fn a_client_beats() {
    let mut off = settings();
    off.enabled = false;
    assert!(ClientHeartbeat::acquire("/hb", "p", off, 7, 100, 3).is_none());

    let mut client = ClientHeartbeat::acquire("/hb", "p", settings(), 7, 100, 3).unwrap();
    assert_eq!(client.id, "7-100-3");
    assert_eq!(client.interval(), 500);
    let write = client.beat(0, &None, 7, 100).unwrap().expect("the first is due");
    assert_eq!(write.path, "/hb/p.heartbeat");
    assert_eq!(write.tmp_path, "/hb/p.tmp.7");
    assert_eq!(write.body, "id=7-100-3\npid=7\nupdated_ms=100\n");
    client.written(0);
    assert!(client.beat(499, &None, 7, 599).unwrap().is_none());
    assert!(client.due(500));
    assert!(client.beat(500, &Some(write.body.clone()), 7, 600).unwrap().is_some());
    assert_eq!(
        client.beat(500, &some("id=other\npid=8\nupdated_ms=1\n"), 7, 600).unwrap_err(),
        "heartbeat /hb/p.heartbeat replaced by another client id=other"
    );
    assert!(client.remove(&Some(write.body)));
    assert!(!client.remove(&some("id=other\npid=8\nupdated_ms=1\n")));
    assert!(!client.remove(&None));
}

#[test]
fn a_daemon_watches() {
    let file = some("id=c\npid=7\nupdated_ms=1000\n");
    assert!(HeartbeatMonitor::attach("/hb/p".to_string(), &None, settings()).is_none());
    let mut monitor = HeartbeatMonitor::attach("/hb/p".to_string(), &file, settings()).unwrap();
    assert!(monitor.poll_reopen_reason(0, &file, 4_000).is_none());
    // Between looks nothing happens.
    assert!(monitor.poll_reopen_reason(249, &None, 4_000).is_none());
    match monitor.poll_reopen_reason(250, &None, 4_000) {
        Some(reason) => {
            assert!(matches!(reason, ReopenReason::Missing));
            assert!(reason.requires_segment_cleanup());
            assert_eq!(reason.message(), "heartbeat missing");
        }
        None => panic!("the heartbeat is missing"),
    }
    let reason = monitor.poll_reopen_reason(500, &file, 4_001).expect("stale");
    assert!(reason.requires_segment_cleanup());
    assert_eq!(reason.message(), "heartbeat stale for 3001 ms");
    let other = some("id=d\npid=8\nupdated_ms=1000\n");
    let reason = monitor.poll_reopen_reason(750, &other, 1_000).expect("replaced");
    assert!(!reason.requires_segment_cleanup());
    assert_eq!(reason.message(), "heartbeat generation changed: c -> d");
}
