use wombatkv::fault::{schedule_for_class, FaultPlan, WombatKvFailureClass};
use wombatkv::oracle::WombatKvOracle;
use wombatkv::simulation::{
    child_op_count, divergence, execute_synthetic_run, oracle_values, run, ClassArg, SYNTHETIC_OPS,
};
use wombatkv::sorted::{stands_before, TextMap};
use wombatkv::text::{
    chars_of, dec_text, lower_chars, parse_uint, push_byte_list, push_dec_padded, push_hex_padded,
    same_text, split_at_char, split_lines, split_words, text_of, trim, white,
};

#[test]
fn class_names() {
    let classes = ClassArg::all();
    assert_eq!(classes.len(), WombatKvFailureClass::all().len());
    for arg in classes {
        assert_eq!(ClassArg::from_name(arg.name()), Some(arg));
    }
    let named: Vec<WombatKvFailureClass> = ClassArg::all().iter().map(|a| a.class()).collect();
    for class in WombatKvFailureClass::all() {
        assert_eq!(named.iter().filter(|c| **c == class).count(), 1, "{class:?}");
    }
    assert_eq!(
        ClassArg::from_name("transient_s3").expect("known").class(),
        WombatKvFailureClass::TransientS3Failure
    );
    assert_eq!(
        ClassArg::from_name("concurrent_save").expect("known").class(),
        WombatKvFailureClass::ConcurrentSameKeySave
    );
    assert_eq!(ClassArg::from_name("no_such_class"), None);
}

#[test]
fn a_run_without_faults_writes_every_key() {
    let done = execute_synthetic_run(&FaultPlan::default()).expect("a run ends well");
    assert_eq!(done.ops, SYNTHETIC_OPS);
    assert!(done.fired.is_empty());
    assert_eq!(done.suppressed_writes, 0);
    let again = execute_synthetic_run(&FaultPlan::default()).expect("a run ends well");
    assert_eq!(format!("{done:?}"), format!("{again:?}"));
}

#[test]
fn every_class_runs() {
    for class in WombatKvFailureClass::all() {
        let plan = schedule_for_class(11, class);
        let done = execute_synthetic_run(&plan).expect("a run ends well");
        assert_eq!(done.ops, SYNTHETIC_OPS);
        let report = run(schedule_for_class(11, class), 20);
        assert_eq!(report.plan_seed, 11);
        assert_eq!(report.plan_event_count, plan.events.len());
        assert_eq!(report.ops_total, 20);
        assert_eq!(report.verdict, "pass");
        assert!(report.divergent_keys.is_empty());
        assert_eq!(report.oracle_key_count, report.store_key_count);
        assert!(report.error.is_none());
    }
}

#[test]
fn operation_counts() {
    assert_eq!(child_op_count(&None), 30);
    assert_eq!(child_op_count(&Some("7".to_string())), 7);
    assert_eq!(child_op_count(&Some("x".to_string())), 30);
}

#[test]
fn stores_are_compared() {
    let mut oracle = WombatKvOracle::new();
    oracle.put_kv("dst", "a", b"1");
    oracle.put_kv("dst", "b", b"2");
    oracle.put_kv("other", "c", b"3");
    let values = oracle_values(&oracle, "dst");
    assert_eq!(values.len(), 2);
    assert_eq!(values.get("a"), Some(&b"1".to_vec()));
    let mut store: TextMap<Vec<u8>> = TextMap::new();
    store.insert("a".to_string(), b"1".to_vec());
    store.insert("b".to_string(), b"2".to_vec());
    assert!(divergence(&values, &store).is_empty());
    store.insert("b".to_string(), b"other".to_vec());
    store.insert("x".to_string(), b"extra".to_vec());
    assert_eq!(divergence(&values, &store).len(), 2);
    assert_eq!(divergence(&values, &TextMap::new()).len(), 2);
}

#[test]
fn texts_are_kept_in_order() {
    let words = ["", "a", "ab", "b", "é", "z", "\u{10FFFF}"];
    for x in words {
        for y in words {
            assert_eq!(stands_before(x, y), x < y, "{x:?} {y:?}");
        }
    }
    let mut map: TextMap<u32> = TextMap::new();
    for (i, w) in words.iter().rev().enumerate() {
        map.insert(w.to_string(), i as u32);
    }
    let keys: Vec<&str> = map.entries.iter().map(|(k, _)| k.as_str()).collect();
    let mut sorted = words.to_vec();
    sorted.sort();
    assert_eq!(keys, sorted);
    assert_eq!(map.get("b"), Some(&3));
    assert_eq!(map.get("c"), None);
    assert_eq!(map.position("a"), Some(1));
}

fn shown(words: Vec<Vec<char>>) -> Vec<String> {
    words.iter().map(|w| text_of(w)).collect()
}

#[test]
fn whitespace_is_that_of_unicode() {
    for code in 0..=0x10_FFFFu32 {
        if let Some(c) = char::from_u32(code) {
            assert_eq!(white(c), c.is_whitespace(), "{code:#x}");
        }
    }
}

#[test]
fn texts_are_cut_as_strings_are() {
    let samples = [
        "",
        " ",
        "a",
        "  a b\t c \n",
        "x\r\ny\rz\n\nw",
        "\u{2003}wide\u{a0}",
        "a,b,,c,",
        "\r",
        "line\r",
    ];
    for s in samples {
        let chars = chars_of(s);
        assert_eq!(text_of(&trim(&chars)), s.trim());
        assert_eq!(shown(split_words(&chars)), s.split_whitespace().collect::<Vec<_>>());
        assert_eq!(shown(split_at_char(&chars, ',')), s.split(',').collect::<Vec<_>>());
        assert_eq!(shown(split_lines(&chars)), s.lines().collect::<Vec<_>>());
        assert_eq!(text_of(&lower_chars(&chars)), s.to_ascii_lowercase());
    }
    assert!(same_text("é", "é"));
    assert!(!same_text("e", "é"));
}

#[test]
fn numbers_are_read_as_rust_reads_them() {
    for s in ["0", "+5", "007", "65535", "65536", "", "+", "-1", " 1", "1_0", "x", "٣"] {
        let ours = parse_uint(&chars_of(s), u16::MAX as u128).map(|n| n as u16);
        assert_eq!(ours, s.parse::<u16>().ok(), "{s:?}");
    }
}

#[test]
fn numbers_are_written_as_rust_writes_them() {
    for n in [0u128, 9, 10, 12_345, u64::MAX as u128, u128::MAX] {
        assert_eq!(dec_text(n), n.to_string());
    }
    let mut text = String::new();
    push_dec_padded(&mut text, 42, 8);
    text.push(' ');
    push_hex_padded(&mut text, 0xbeef, 8);
    text.push(' ');
    push_byte_list(&mut text, &[1, 20, 255]);
    assert_eq!(text, format!("{:08} {:08x} {:?}", 42, 0xbeef, [1, 20, 255]));
}
