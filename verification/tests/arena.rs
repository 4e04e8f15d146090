use wombatkv::arena::{
    arena_key, arena_path, ArenaError, ArenaReader, ArenaShared, ArenaWriter, ARENA_HEADER_BYTES,
    DEFAULT_ARENA_BYTES,
};

#[test]
fn write_then_read_round_trip() {
    let size = 1024 * 1024;
    let mut region = vec![0u8; size];
    {
        let w = ArenaWriter::create(&mut region);
        let payload = vec![0xABu8; 4096];
        let (off, len) = w.write_payload(&mut region, &payload).unwrap();
        assert_eq!(len as usize, payload.len());
        assert!(off >= ARENA_HEADER_BYTES as u64);
    }

    let r = ArenaReader::open(&region);
    let view = r.read_payload(&region, ARENA_HEADER_BYTES as u64, 4096).unwrap();
    assert_eq!(view.len(), 4096);
    assert!(view.iter().all(|&b| b == 0xAB));
}

#[test]
fn bump_allocator_advances_offset() {
    let mut region = vec![0u8; 64 * 1024];
    let w = ArenaWriter::create(&mut region);

    let p1 = vec![0x11; 1000];
    let p2 = vec![0x22; 2000];
    let p3 = vec![0x33; 3000];

    let (o1, l1) = w.write_payload(&mut region, &p1).unwrap();
    let (o2, l2) = w.write_payload(&mut region, &p2).unwrap();
    let (o3, _l3) = w.write_payload(&mut region, &p3).unwrap();

    assert_eq!(o1, ARENA_HEADER_BYTES as u64);
    assert_eq!(o2, o1 + u64::from(l1));
    assert_eq!(o3, o2 + u64::from(l2));
}

#[test]
fn bump_wraps_when_full() {
    // Tiny arena: header + 1 KiB usable.
    let mut region = vec![0u8; ARENA_HEADER_BYTES + 1024];
    let w = ArenaWriter::create(&mut region);

    let p = vec![0x55; 600];
    let (o1, _l1) = w.write_payload(&mut region, &p).unwrap();
    let (o2, _l2) = w.write_payload(&mut region, &p).unwrap();

    assert_eq!(o1, ARENA_HEADER_BYTES as u64);
    assert_eq!(o2, ARENA_HEADER_BYTES as u64); // wrapped
    assert_eq!(w.wrap_epoch(&region), 1);
}

#[test]
fn payload_too_large_errors() {
    let mut region = vec![0u8; ARENA_HEADER_BYTES + 1024];
    let w = ArenaWriter::create(&mut region);

    let p = vec![0; 2048];
    match w.write_payload(&mut region, &p) {
        Err(ArenaError::PayloadTooLarge { .. }) => {}
        other => panic!("expected PayloadTooLarge, got {other:?}"),
    }
}

#[test]
fn out_of_bounds_read_errors() {
    let mut region = vec![0u8; 64 * 1024];
    let w = ArenaWriter::create(&mut region);
    let _ = w.write_payload(&mut region, &[0; 100]).unwrap();

    let r = ArenaReader::open(&region);
    // offset under header
    assert!(matches!(r.read_payload(&region, 0, 64), Err(ArenaError::OutOfBounds { .. })));
    // offset past file
    assert!(matches!(
        r.read_payload(&region, 64 * 1024 - 32, 64),
        Err(ArenaError::OutOfBounds { .. })
    ));
}

#[test]
fn a_fresh_header_holds_the_first_offset() {
    let mut region = vec![0xEEu8; 128];
    let w = ArenaWriter::create(&mut region);
    assert_eq!(&region[..8], &64u64.to_le_bytes());
    assert!(region[8..64].iter().all(|&b| b == 0));
    assert!(region[64..].iter().all(|&b| b == 0xEE));
    assert_eq!(w.size(), 128);
    assert_eq!(w.next_offset(&region), 64);
    assert_eq!(w.wrap_epoch(&region), 0);
    assert_eq!(DEFAULT_ARENA_BYTES, 1 << 30);
}

#[test]
fn a_full_epoch_only_stops_a_wrap() {
    let mut region = vec![0u8; ARENA_HEADER_BYTES + 16];
    let w = ArenaWriter::create(&mut region);
    region[8..16].copy_from_slice(&u64::MAX.to_le_bytes());
    assert!(matches!(w.write_payload(&mut region, &[9; 16]), Ok((64, 16))));
    assert!(matches!(
        w.write_payload(&mut region, &[9; 17]),
        Err(ArenaError::PayloadTooLarge { payload: 17, max_slab: 16 })
    ));
    assert_eq!(w.wrap_epoch(&region), u64::MAX);
}

#[test]
fn a_slab_of_the_whole_arena_fits() {
    let mut region = vec![0u8; ARENA_HEADER_BYTES + 16];
    let w = ArenaWriter::create(&mut region);
    assert!(matches!(w.write_payload(&mut region, &[9; 16]), Ok((64, 16))));
    assert_eq!(w.next_offset(&region), 80);
    let r = ArenaReader::open(&region);
    assert_eq!(r.size(), 80);
    assert_eq!(r.wrap_epoch(&region), 0);
    assert_eq!(r.read_payload(&region, 64, 16).unwrap(), &[9; 16]);
    assert!(r.read_payload(&region, 64, 17).is_err());
    assert!(r.read_payload(&region, u64::MAX, 1).is_err());
}

#[test]
fn arena_errors_in_words() {
    assert_eq!(ArenaError::Io("no space".to_string()).to_text(), "arena io: no space");
    assert_eq!(
        ArenaError::PayloadTooLarge { payload: 2048, max_slab: 1024 }.to_text(),
        "arena payload 2048 > max_slab 1024"
    );
    assert_eq!(
        ArenaError::OutOfBounds { offset: 1, len: 2, arena: 3 }.to_text(),
        "arena read out of bounds: offset=1 len=2 arena_size=3"
    );
}

#[test]
fn arena_names() {
    assert_eq!(arena_path("smoke"), "/tmp/wombatkv-arena-smoke.bin");
    assert_eq!(arena_key("ns", "k"), "ns\0k");
}

#[test]
fn slabs_are_remembered_until_a_wrap() {
    let mut region = vec![0u8; ARENA_HEADER_BYTES + 1024];
    let writer = ArenaWriter::create(&mut region);
    let mut shared = ArenaShared::new(writer, 100);

    assert!(shared.remember_arena_slab(&mut region, "ns", "small", &[1; 99], 0).unwrap().is_none());
    assert!(shared.lookup_arena_slab("ns", "small").is_none());

    let first = shared.remember_arena_slab(&mut region, "ns", "a", &[1; 400], 2).unwrap().unwrap();
    assert_eq!((first.offset, first.len, first.tier), (64, 400, 2));
    let found = shared.lookup_arena_slab("ns", "a").unwrap();
    assert_eq!((found.offset, found.len, found.tier), (64, 400, 2));
    assert!(shared.lookup_arena_slab("other", "a").is_none());

    let again = shared.remember_arena_slab(&mut region, "ns", "a", &[2; 200], 1).unwrap().unwrap();
    assert_eq!(again.offset, 464);
    assert_eq!(shared.lookup_arena_slab("ns", "a").unwrap().offset, 464);

    // The next slab wraps, and what was remembered is gone.
    let wrapped = shared.remember_arena_slab(&mut region, "ns", "b", &[3; 500], 0).unwrap().unwrap();
    assert_eq!(wrapped.offset, 64);
    assert!(shared.lookup_arena_slab("ns", "a").is_none());
    assert_eq!(shared.lookup_arena_slab("ns", "b").unwrap().offset, 64);

    assert!(shared.remember_arena_slab(&mut region, "ns", "c", &[0; 1025], 0).is_err());
    assert!(shared.write_arena_payload(&mut region, &[0; 10], 0).unwrap().is_none());

    shared.clear();
    assert!(shared.lookup_arena_slab("ns", "b").is_none());
}
