use wombatkv::dst_assertions::{
    assert_always, assert_reachable, assert_sometimes, assert_unreachable,
    reset_global_assertions, snapshot_global_assertions, AssertionKind, AssertionLog,
};
use wombatkv::dst_buggify::{buggify, reset, roll, BuggifyConfig, BuggifyEnv, Counters, ScopedBuggify};
use wombatkv::dst_plan::{
    advance_op, clear, current_op, fire_for_current_op, is_put_suppressed, set_plan, PlanState,
};
use wombatkv::dst_rng::XorShift64;
use wombatkv::fault::{
    schedule_for_class, FaultPlan, FaultTrigger, S3ErrorKind, ScheduledFault, WireEnvelopeBadKind,
    WombatKvFailureClass, WombatKvFaultEvent,
};
use wombatkv::oracle::{OracleGetOutcome, Verdict, WombatKvOracle};

#[test]
fn sometimes_assertions_stick_once_satisfied() {
    let mut log = AssertionLog::default();
    log.assert_sometimes(false, "ring wraps".to_string(), "first pass".to_string());
    assert!(!log.sometimes_satisfied("ring wraps"));
    log.assert_sometimes(true, "ring wraps".to_string(), "second pass".to_string());
    assert!(log.sometimes_satisfied("ring wraps"));
}

#[test]
fn global_assertions_are_resettable() {
    let mut global = AssertionLog::default();
    reset_global_assertions(&mut global);
    assert_sometimes(
        &mut global,
        true,
        "zero-copy access used".to_string(),
        "leased read path".to_string(),
    );
    let snapshot = snapshot_global_assertions(&global);
    assert!(snapshot.sometimes_satisfied("zero-copy access used"));
    reset_global_assertions(&mut global);
    let snapshot = snapshot_global_assertions(&global);
    assert!(!snapshot.sometimes_satisfied("zero-copy access used"));
}

#[test]
fn violations_are_logged_in_order() {
    let mut log = AssertionLog::default();
    assert_always(&mut log, true, "held".to_string(), "x".to_string());
    assert_always(&mut log, false, "broken".to_string(), "first".to_string());
    assert_always(&mut log, false, "broken".to_string(), "second".to_string());
    assert_unreachable(&mut log, "got here".to_string(), "why".to_string());
    assert_reachable(&mut log, "seen".to_string());
    assert_reachable(&mut log, "seen".to_string());
    assert_eq!(log.always_violations.len(), 2);
    assert_eq!(log.always_violations[0].details, "first");
    assert_eq!(log.always_violations[1].details, "second");
    assert_eq!(log.always_violations[0].kind, AssertionKind::Always);
    assert_eq!(log.unreachable_violations.len(), 1);
    assert_eq!(log.unreachable_violations[0].kind, AssertionKind::Unreachable);
    assert_eq!(log.unreachable_violations[0].message, "got here");
    assert_eq!(log.reachable.len(), 1);
    assert!(!log.sometimes_satisfied("never asked"));
    let snapshot = snapshot_global_assertions(&log);
    assert_eq!(snapshot, log);
}

#[test]
fn a_satisfied_assertion_stays_satisfied() {
    let mut log = AssertionLog::default();
    log.assert_sometimes(true, "m".to_string(), String::new());
    log.assert_sometimes(false, "m".to_string(), String::new());
    assert!(log.sometimes_satisfied("m"));
}

fn chaos_off() -> BuggifyEnv {
    BuggifyEnv { enabled: None, seed: None, activation_percent: None, fire_percent: None }
}

#[test]
fn disabled_without_env() {
    let env = chaos_off();
    let mut counters = Counters { sites: Vec::new() };
    reset(&mut counters);
    assert!(!buggify(&env, &mut counters, "dst.rs", 93));
}

#[test]
fn dst_buggify_deterministic_with_seed() {
    let env = BuggifyEnv {
        enabled: Some("1".to_string()),
        seed: Some("42".to_string()),
        activation_percent: Some("100".to_string()),
        fire_percent: Some("50".to_string()),
    };
    let mut counters = Counters { sites: Vec::new() };

    reset(&mut counters);
    let first = (0..8).map(|_| buggify(&env, &mut counters, "a.rs", 10)).collect::<Vec<_>>();
    reset(&mut counters);
    let second = (0..8).map(|_| buggify(&env, &mut counters, "a.rs", 10)).collect::<Vec<_>>();
    assert_eq!(first, second);
}

#[test]
fn chaos_settings() {
    let mut env = chaos_off();
    assert_eq!(BuggifyConfig::from_env(&env), None);
    env.enabled = Some("1".to_string());
    let config = BuggifyConfig::from_env(&env).expect("enabled");
    assert_eq!(config, BuggifyConfig { seed: config.seed, activation_percent: 25, fire_percent: 25 });
    env.seed = Some("7".to_string());
    env.activation_percent = Some("100".to_string());
    env.fire_percent = Some("0".to_string());
    assert_eq!(
        BuggifyConfig::from_env(&env),
        Some(BuggifyConfig { seed: 7, activation_percent: 100, fire_percent: 0 })
    );
}

#[test]
fn certain_and_impossible_chaos() {
    let mut counters = Counters { sites: Vec::new() };
    let always = BuggifyConfig { seed: 3, activation_percent: 100, fire_percent: 100 };
    let never = BuggifyConfig { seed: 3, activation_percent: 100, fire_percent: 0 };
    for line in 0..20 {
        assert!(roll(always, &mut counters, "site.rs", line));
        assert!(!roll(never, &mut counters, "site.rs", line));
    }
}

#[test]
fn a_scope_turns_chaos_on_and_restores() {
    let previous = BuggifyEnv {
        enabled: None,
        seed: Some("9".to_string()),
        activation_percent: None,
        fire_percent: None,
    };
    let mut counters = Counters { sites: Vec::new() };
    let always = BuggifyConfig { seed: 1, activation_percent: 100, fire_percent: 100 };
    assert!(roll(always, &mut counters, "here.rs", 1));
    assert_eq!(counters.sites.len(), 1);
    let (scope, inside) = ScopedBuggify::new(previous, 77, &mut counters);
    assert!(counters.sites.is_empty());
    let config = BuggifyConfig::from_env(&inside).expect("on inside the scope");
    assert_eq!(config.seed, 77);
    assert!(roll(always, &mut counters, "here.rs", 2));
    let after = scope.restore(&mut counters);
    assert!(counters.sites.is_empty());
    assert_eq!(after.enabled, None);
    assert_eq!(after.seed, Some("9".to_string()));
}

#[test]
fn no_plan_means_no_fire() {
    let mut state = PlanState::new();
    clear(&mut state);
    assert!(fire_for_current_op(&state).is_none());
    assert!(!is_put_suppressed(&state));
}

#[test]
fn plan_with_op_trigger_fires_at_right_op() {
    // Use a class whose schedule emits AfterKvOp triggers.
    let plan = schedule_for_class(42, WombatKvFailureClass::ConcurrentSameKeySave);
    // Capture the op-numbers where events fire (1-based per schedule
    // generator convention).
    let trigger_ops: Vec<u32> = plan
        .events
        .iter()
        .filter_map(|s| if let FaultTrigger::AfterKvOp { n } = s.trigger { Some(n) } else { None })
        .collect();
    assert!(!trigger_ops.is_empty(), "expected at least one AfterKvOp trigger");

    let mut state = PlanState::new();
    set_plan(&mut state, plan);

    // Walk through ops; at each op N, check if an event fires.
    // We expect fires at op (n-1) for each trigger n (0-based op
    // counter, 1-based schedule n).
    let mut fires: Vec<u32> = Vec::new();
    for _op_n in 0..20u32 {
        if fire_for_current_op(&state).is_some() {
            fires.push(current_op(&state));
        }
        advance_op(&mut state);
    }
    // Expected fires = trigger_ops shifted by -1 (1-based → 0-based)
    // AND sorted ascending (we collect `fires` in op-counter order).
    let mut expected: Vec<u32> = trigger_ops.iter().map(|n| n - 1).collect();
    expected.sort_unstable();
    assert_eq!(fires, expected, "plan fires at wrong ops");

    clear(&mut state);
}

#[test]
fn is_put_suppressed_matches_put_class_events() {
    // ConcurrentSameKeySave uses S3PutLatency, put-suppressing.
    let plan = schedule_for_class(7, WombatKvFailureClass::ConcurrentSameKeySave);
    let mut state = PlanState::new();
    set_plan(&mut state, plan);
    let mut suppress_count = 0;
    for _ in 0..20u32 {
        if is_put_suppressed(&state) {
            suppress_count += 1;
        }
        advance_op(&mut state);
    }
    assert!(suppress_count >= 1, "expected put-suppressing fires");
    clear(&mut state);
}

#[test]
fn setting_a_plan_restarts_the_count() {
    let mut state = PlanState::new();
    advance_op(&mut state);
    assert_eq!(current_op(&state), 1);
    set_plan(&mut state, FaultPlan::default());
    assert_eq!(current_op(&state), 0);
    assert!(fire_for_current_op(&state).is_none());
    advance_op(&mut state);
    clear(&mut state);
    assert_eq!(current_op(&state), 0);
    assert!(state.plan.is_none());
}

#[test]
fn the_first_striking_event_fires() {
    let plan = FaultPlan {
        seed: 1,
        class: None,
        events: vec![
            ScheduledFault {
                trigger: FaultTrigger::AfterKvOp { n: 2 },
                event: WombatKvFaultEvent::S3GetLatency { ms: 5 },
            },
            ScheduledFault {
                trigger: FaultTrigger::AfterKvOp { n: 2 },
                event: WombatKvFaultEvent::S3PutLatency { ms: 6 },
            },
        ],
    };
    let mut state = PlanState::new();
    set_plan(&mut state, plan);
    assert!(fire_for_current_op(&state).is_none());
    advance_op(&mut state);
    match fire_for_current_op(&state) {
        Some(WombatKvFaultEvent::S3GetLatency { ms }) => assert_eq!(ms, 5),
        other => panic!("expected the first event, got {other:?}"),
    }
    assert!(is_put_suppressed(&state));
    advance_op(&mut state);
    assert!(!is_put_suppressed(&state));
}

#[test]
fn dst_rng_deterministic_with_seed() {
    let mut a = XorShift64::new(42);
    let mut b = XorShift64::new(42);
    for _ in 0..1000 {
        assert_eq!(a.next_u64(), b.next_u64());
    }
}

#[test]
fn dst_rng_different_seeds_diverge() {
    let mut a = XorShift64::new(42);
    let mut b = XorShift64::new(43);
    let mut diff = 0;
    for _ in 0..100 {
        if a.next_u64() != b.next_u64() {
            diff += 1;
        }
    }
    assert!(diff > 90, "expected >90% divergence, got {diff}");
}

#[test]
fn phase_streams_are_independent() {
    let mut a = XorShift64::phase(42, 0);
    let mut b = XorShift64::phase(42, 1);
    let mut diff = 0;
    for _ in 0..100 {
        if a.next_u64() != b.next_u64() {
            diff += 1;
        }
    }
    assert!(diff > 90, "phase streams should diverge: got {diff}");
}

#[test]
fn between_is_in_range() {
    let mut rng = XorShift64::new(7);
    for _ in 0..1000 {
        let v = rng.between(10, 20);
        assert!((10..20).contains(&v));
    }
}

#[test]
fn seed_zero_is_replaced() {
    // XorShift64 with seed 0 would emit all zeros; check we hot-fix it.
    let mut rng = XorShift64::new(0);
    let v = rng.next_u64();
    assert_ne!(v, 0);
}

#[test]
fn the_first_draws_of_seed_one() {
    // x ^= x << 13; x ^= x >> 7; x ^= x << 17
    let mut rng = XorShift64::new(1);
    assert_eq!(rng.next_u64(), 1082269761);
    assert_eq!(rng.next_u64(), 1152992998833853505);
}

#[test]
fn a_bounded_draw_stays_below_its_bound() {
    let mut rng = XorShift64::new(99);
    for bound in 1..50u32 {
        assert!(rng.next_u32(bound) < bound);
    }
    assert_eq!(rng.next_u32(0), 0);
}

#[test]
fn retryability_split_is_correct() {
    assert!(!S3ErrorKind::NotFound.is_retryable());
    assert!(S3ErrorKind::InternalError.is_retryable());
    assert!(S3ErrorKind::ServiceUnavail.is_retryable());
    assert!(S3ErrorKind::Throttling.is_retryable());
    assert!(S3ErrorKind::NetworkTimeout.is_retryable());
}

#[test]
fn schedule_is_deterministic_per_seed() {
    for class in WombatKvFailureClass::all() {
        let a = schedule_for_class(42, class);
        let b = schedule_for_class(42, class);
        assert_eq!(format!("{a:?}"), format!("{b:?}"), "non-deterministic plan for {class:?}");
    }
}

#[test]
fn fault_different_seeds_diverge() {
    // Pick a class with > 1 event triggered for clearer divergence.
    let a = schedule_for_class(7, WombatKvFailureClass::ConcurrentSameKeySave);
    let b = schedule_for_class(8, WombatKvFailureClass::ConcurrentSameKeySave);
    assert_ne!(format!("{:?}", a.events), format!("{:?}", b.events));
}

#[test]
fn every_class_produces_at_least_one_event() {
    for class in WombatKvFailureClass::all() {
        let plan = schedule_for_class(123, class);
        assert!(!plan.events.is_empty(), "{class:?} produced no events");
        assert_eq!(plan.class, Some(class));
        assert_eq!(plan.seed, 123);
    }
}

#[test]
fn every_way_to_break_an_envelope_is_scheduled() {
    let kinds = [
        WireEnvelopeBadKind::BadMagic,
        WireEnvelopeBadKind::BadVersion,
        WireEnvelopeBadKind::BadCRC,
        WireEnvelopeBadKind::OversizedLen,
        WireEnvelopeBadKind::TruncatedBody,
    ];
    for kind in kinds {
        let seen = (0..100).any(|seed| {
            let plan = schedule_for_class(seed, WombatKvFailureClass::WireEnvelopeCorruption);
            plan.events.iter().any(|scheduled| match &scheduled.event {
                WombatKvFaultEvent::WireBadEnvelope { kind: drawn } => *drawn == kind,
                _ => false,
            })
        });
        assert!(seen, "{kind:?} is never scheduled");
    }
}

#[test]
fn every_scheduled_operation_comes() {
    for class in WombatKvFailureClass::all() {
        for seed in 0..50 {
            let plan = schedule_for_class(seed, class);
            for scheduled in &plan.events {
                if let FaultTrigger::AfterKvOp { n } = scheduled.trigger {
                    assert!(n >= 1, "{class:?} is due before the first operation");
                    let mut state = PlanState::new();
                    set_plan(&mut state, plan.clone());
                    for _ in 1..n {
                        advance_op(&mut state);
                    }
                    assert!(fire_for_current_op(&state).is_some());
                }
            }
        }
    }
}

#[test]
fn event_and_class_names_match_their_debug_form() {
    for class in WombatKvFailureClass::all() {
        assert_eq!(class.name(), format!("{class:?}"));
        for scheduled in schedule_for_class(5, class).events {
            assert_eq!(scheduled.event.to_debug(), format!("{:?}", scheduled.event));
            let copy = scheduled.event.duplicate();
            assert_eq!(format!("{copy:?}"), format!("{:?}", scheduled.event));
        }
    }
}

#[test]
fn put_then_get_yields_hit() {
    let mut oracle = WombatKvOracle::new();
    oracle.put_kv("ns", "k1", b"hello");
    assert_eq!(oracle.get_kv("ns", "k1"), OracleGetOutcome::Hit { payload: b"hello".to_vec() });
}

#[test]
fn missing_key_is_miss() {
    let oracle = WombatKvOracle::new();
    assert_eq!(oracle.get_kv("ns", "absent"), OracleGetOutcome::Miss);
}

#[test]
fn namespace_isolation() {
    let mut oracle = WombatKvOracle::new();
    oracle.put_kv("ns_a", "k", b"value-a");
    oracle.put_kv("ns_b", "k", b"value-b");
    assert_eq!(oracle.get_kv("ns_a", "k"), OracleGetOutcome::Hit { payload: b"value-a".to_vec() });
    assert_eq!(oracle.get_kv("ns_b", "k"), OracleGetOutcome::Hit { payload: b"value-b".to_vec() });
}

#[test]
fn failed_put_does_not_commit() {
    let mut oracle = WombatKvOracle::new();
    oracle.put_kv_failed("ns", "k1");
    assert_eq!(oracle.get_kv("ns", "k1"), OracleGetOutcome::Miss);
    assert_eq!(oracle.ops_observed, 1);
}

#[test]
fn failed_put_preserves_prior_value() {
    let mut oracle = WombatKvOracle::new();
    oracle.put_kv("ns", "k1", b"first");
    oracle.put_kv_failed("ns", "k1");
    assert_eq!(oracle.get_kv("ns", "k1"), OracleGetOutcome::Hit { payload: b"first".to_vec() });
}

#[test]
fn verdict_match_when_observation_matches() {
    let mut oracle = WombatKvOracle::new();
    oracle.put_kv("ns", "k", b"x");
    let v =
        Verdict::check_get(&oracle, "ns", "k", OracleGetOutcome::Hit { payload: b"x".to_vec() });
    assert!(matches!(v, Verdict::Match));
}

#[test]
fn verdict_divergence_when_observation_differs() {
    let mut oracle = WombatKvOracle::new();
    oracle.put_kv("ns", "k", b"expected");
    let v = Verdict::check_get(
        &oracle,
        "ns",
        "k",
        OracleGetOutcome::Hit { payload: b"WRONG".to_vec() },
    );
    match v {
        Verdict::Divergence { namespace, key, expected, observed } => {
            assert_eq!(namespace, "ns");
            assert_eq!(key, "k");
            assert!(matches!(expected, OracleGetOutcome::Hit { .. }));
            assert!(matches!(observed, OracleGetOutcome::Hit { .. }));
            if let (
                OracleGetOutcome::Hit { payload: exp },
                OracleGetOutcome::Hit { payload: obs },
            ) = (expected, observed)
            {
                assert_eq!(exp, b"expected");
                assert_eq!(obs, b"WRONG");
            }
        }
        Verdict::Match => panic!("expected divergence"),
    }
}

#[test]
fn verdict_divergence_on_unexpected_miss() {
    let oracle = WombatKvOracle::new();
    let v = Verdict::check_get(
        &oracle,
        "ns",
        "k",
        OracleGetOutcome::Hit { payload: b"phantom".to_vec() },
    );
    assert!(matches!(v, Verdict::Divergence { .. }));
}

#[test]
fn ops_observed_counts_both_success_and_failure() {
    let mut oracle = WombatKvOracle::new();
    oracle.put_kv("ns", "k1", b"x");
    oracle.put_kv_failed("ns", "k2");
    oracle.put_kv("ns", "k3", b"y");
    assert_eq!(oracle.ops_observed, 3);
    assert_eq!(oracle.len(), 2);
}

fn drive(seed: u64) -> WombatKvOracle {
    let mut rng = XorShift64::phase(seed, 0);
    let mut oracle = WombatKvOracle::new();
    for op in 0..30u64 {
        let key_idx = rng.between(0, 6); // mod 7
        let key = format!("k{key_idx}");
        let payload = format!("op{op}=k{key_idx}").into_bytes();
        if op % 3 == 2 && op > 0 {
            let _ = oracle.get_kv("ns", &key);
        } else {
            oracle.put_kv("ns", &key, &payload);
        }
    }
    oracle
}

#[test]
fn oracle_drive_is_deterministic_across_runs() {
    // Run the SAME seed twice, bit-identical final state expected.
    let a = drive(42);
    let b = drive(42);
    assert_eq!(a, b, "same seed produced different oracle states");

    // Run a DIFFERENT seed, final state should diverge (otherwise
    // seed isn't actually influencing the sequence).
    let c = drive(43);
    assert_ne!(a, c, "different seeds produced identical oracle states");

    // Identical renderings catch drift in the order of the keys on top of
    // value drift.
    assert_eq!(
        format!("{a:?}"),
        format!("{b:?}"),
        "same seed produced different renderings"
    );
}

#[test]
fn a_default_oracle_has_seen_nothing() {
    assert_eq!(WombatKvOracle::default(), WombatKvOracle::new());
    assert_eq!(WombatKvOracle::default().ops_observed, 0);
    assert!(WombatKvOracle::default().is_empty());
}

#[test]
fn oracle_keys_come_in_order() {
    let mut oracle = WombatKvOracle::new();
    assert!(oracle.is_empty());
    oracle.put_kv("b", "2", b"x");
    oracle.put_kv("a", "9", b"y");
    oracle.put_kv("b", "1", b"z");
    oracle.put_kv("b", "1", b"again");
    let keys = oracle.keys();
    let expected = vec![
        ("a".to_string(), "9".to_string()),
        ("b".to_string(), "1".to_string()),
        ("b".to_string(), "2".to_string()),
    ];
    assert_eq!(keys, expected);
    assert_eq!(oracle.len(), 3);
    assert!(!oracle.is_empty());
    oracle.put_kv_failed("c", "3");
    assert_eq!(oracle.keys(), expected);
    for (namespace, key) in &expected {
        assert_ne!(oracle.get_kv(namespace, key), OracleGetOutcome::Miss);
    }
    assert_eq!(oracle.get_kv("c", "3"), OracleGetOutcome::Miss);
}
