use wombatkv::format::{
    checksum32, crate_id, decode_segment_footer, decode_segment_index, decode_wal_record,
    encode_segment_footer, encode_segment_v1, encode_wal_record, FormatError, SegmentFooter,
    WalRecord, SEGMENT_FOOTER_MAGIC, SEGMENT_FOOTER_SIZE, SEGMENT_HEADER_SIZE, SEGMENT_MAGIC,
    WAL_HEADER_SIZE, WAL_MAGIC,
};

#[test]
fn crate_id_is_stable() {
    assert_eq!(crate_id(), "wombatkv-format");
}

#[test]
fn wal_record_round_trip_is_lossless() {
    let record = WalRecord {
        key: b"k/tenant/f/hash".to_vec(),
        meta: b"{\"epoch\":1700}".to_vec(),
        payload: vec![1, 2, 3, 4, 5, 6],
    };
    let encoded = encode_wal_record(&record).expect("encode");
    let decoded = decode_wal_record(&encoded).expect("decode");
    assert_eq!(decoded, record);
}

#[test]
fn wal_checksum_mismatch_is_rejected() {
    let record = WalRecord {
        key: b"key".to_vec(),
        meta: b"meta".to_vec(),
        payload: b"payload".to_vec(),
    };
    let mut encoded = encode_wal_record(&record).expect("encode");
    let last = encoded.len() - 1;
    encoded[last] ^= 0xFF;
    assert_eq!(decode_wal_record(&encoded), Err(FormatError::ChecksumMismatch));
}

#[test]
fn every_changed_byte_is_noticed() {
    let record = WalRecord {
        key: b"key".to_vec(),
        meta: b"meta".to_vec(),
        payload: b"payload".to_vec(),
    };
    let encoded = encode_wal_record(&record).expect("encode");
    let body = &encoded[24..];
    let blocks = vec![(b"k1".to_vec(), b"v1".to_vec()), (b"k2".to_vec(), b"value 2".to_vec())];
    let segment = encode_segment_v1(&blocks).expect("encode");
    let footer_start = segment.len() - 20;
    let footer = &segment[footer_start..];
    let index_len = u32::from_le_bytes(footer[12..16].try_into().unwrap());
    for bit in 0..8 {
        for i in 0..body.len() {
            let mut changed = body.to_vec();
            changed[i] ^= 1 << bit;
            assert_ne!(checksum32(&changed), checksum32(body));
            let mut damaged = encoded.clone();
            damaged[24 + i] ^= 1 << bit;
            assert_eq!(decode_wal_record(&damaged), Err(FormatError::ChecksumMismatch));
        }
        for i in footer_start - index_len as usize..footer_start {
            let mut damaged = segment.clone();
            damaged[i] ^= 1 << bit;
            assert_eq!(decode_segment_index(&damaged), Err(FormatError::ChecksumMismatch));
        }
    }
}

#[test]
fn wal_golden_vector_v1_stable() {
    let record = WalRecord {
        key: vec![0x6B],                 // "k"
        meta: vec![0x6D],                // "m"
        payload: vec![0x70, 0x71, 0x72], // "pqr"
    };
    let encoded = encode_wal_record(&record).expect("encode");
    let mut expected = b"WMBT_KV_WAL1".to_vec();
    expected.extend_from_slice(&[1, 0]);
    expected.extend_from_slice(&[1, 0]);
    expected.extend_from_slice(&[3, 0, 0, 0]);
    expected.extend_from_slice(&0xc54f_3098u32.to_le_bytes());
    expected.extend_from_slice(b"kmpqr");
    assert_eq!(encoded, expected);
}

#[test]
fn segment_footer_round_trip_with_checksum_validation() {
    let index_bytes = b"index-v1".to_vec();
    let index_len = u32::try_from(index_bytes.len()).expect("small test index");
    let footer = SegmentFooter { index_len, index_checksum: checksum32(&index_bytes) };
    let encoded = encode_segment_footer(footer);
    let decoded = decode_segment_footer(&encoded, &index_bytes).expect("decode footer");
    assert_eq!(decoded, footer);
}

#[test]
fn segment_footer_rejects_corrupt_index_checksum() {
    let index_bytes = b"index-v1".to_vec();
    let index_len = u32::try_from(index_bytes.len()).expect("small test index");
    let footer = SegmentFooter { index_len, index_checksum: checksum32(&index_bytes) };
    let encoded = encode_segment_footer(footer);
    let mut corrupted_index = index_bytes.clone();
    corrupted_index[0] ^= 0xFF;
    assert_eq!(
        decode_segment_footer(&encoded, &corrupted_index),
        Err(FormatError::ChecksumMismatch)
    );
}

#[test]
fn segment_footer_rejects_unknown_magic_for_backward_compat() {
    let index_bytes = b"index-v1".to_vec();
    let index_len = u32::try_from(index_bytes.len()).expect("small test index");
    let mut encoded = encode_segment_footer(SegmentFooter {
        index_len,
        index_checksum: checksum32(&index_bytes),
    });
    encoded[0] = b'X';
    assert_eq!(decode_segment_footer(&encoded, &index_bytes), Err(FormatError::InvalidMagic));
}

#[test]
fn segment_v1_encode_decode_index_round_trip() {
    let segment = encode_segment_v1(&[
        (b"a".to_vec(), b"payload-a".to_vec()),
        (b"b".to_vec(), b"payload-b".to_vec()),
        (b"c".to_vec(), b"payload-c".to_vec()),
    ])
    .expect("encode segment");
    let index = decode_segment_index(&segment).expect("decode index");
    assert_eq!(index.len(), 3);
    assert_eq!(index[0].key, b"a".to_vec());
    assert_eq!(index[1].key, b"b".to_vec());
    assert_eq!(index[2].key, b"c".to_vec());
}

#[test]
fn checksum_has_the_fnv_test_vectors() {
    assert_eq!(checksum32(b""), 0x811c_9dc5);
    assert_eq!(checksum32(b"a"), 0xe40c_292c);
    assert_eq!(checksum32(b"foobar"), 0xbf9c_f968);
}

#[test]
fn magics_and_sizes_are_stable() {
    assert_eq!(&WAL_MAGIC, b"WMBT_KV_WAL1");
    assert_eq!(&SEGMENT_MAGIC, b"WMBT_KV_SGV1");
    assert_eq!(&SEGMENT_FOOTER_MAGIC, b"WMBT_KV_SEG1");
    assert_eq!(WAL_HEADER_SIZE, 24);
    assert_eq!(SEGMENT_FOOTER_SIZE, 20);
    assert_eq!(SEGMENT_HEADER_SIZE, 16);
}

#[test]
fn wal_record_ignores_what_follows_it() {
    let record = WalRecord { key: vec![1], meta: vec![], payload: vec![2, 3] };
    let mut encoded = encode_wal_record(&record).expect("encode");
    encoded.extend_from_slice(b"trailing");
    assert_eq!(decode_wal_record(&encoded), Ok(record));
}

#[test]
fn wal_errors_by_input() {
    assert_eq!(decode_wal_record(&[0; 23]), Err(FormatError::UnexpectedEof));
    assert_eq!(decode_wal_record(&[0; 24]), Err(FormatError::InvalidMagic));
    let record = WalRecord { key: vec![1, 2], meta: vec![3], payload: vec![4, 5] };
    let encoded = encode_wal_record(&record).expect("encode");
    assert_eq!(
        decode_wal_record(&encoded[..encoded.len() - 1]),
        Err(FormatError::UnexpectedEof)
    );
    let long_key = WalRecord { key: vec![0; 65_536], meta: vec![], payload: vec![] };
    assert_eq!(encode_wal_record(&long_key), Err(FormatError::FieldTooLarge));
    let long_meta = WalRecord { key: vec![], meta: vec![0; 65_536], payload: vec![] };
    assert_eq!(encode_wal_record(&long_meta), Err(FormatError::FieldTooLarge));
    let edge = WalRecord { key: vec![7; 65_535], meta: vec![8; 65_535], payload: vec![] };
    let edge_bytes = encode_wal_record(&edge).expect("the widest key and meta fit");
    assert_eq!(decode_wal_record(&edge_bytes), Ok(edge));
}

#[test]
fn footer_errors_by_input() {
    let index = b"idx".to_vec();
    let footer = SegmentFooter { index_len: 3, index_checksum: checksum32(&index) };
    let bytes = encode_segment_footer(footer);
    assert_eq!(
        decode_segment_footer(&bytes[..19], &index),
        Err(FormatError::UnexpectedEof)
    );
    assert_eq!(
        decode_segment_footer(&bytes, b"longer index"),
        Err(FormatError::UnexpectedEof)
    );
}

#[test]
fn segment_entries_locate_their_payloads() {
    let blocks = vec![
        (b"first".to_vec(), b"one".to_vec()),
        (b"".to_vec(), b"".to_vec()),
        (b"third".to_vec(), b"three".to_vec()),
    ];
    let segment = encode_segment_v1(&blocks).expect("encode");
    let index = decode_segment_index(&segment).expect("decode");
    assert_eq!(index.len(), blocks.len());
    for (entry, block) in index.iter().zip(blocks.iter()) {
        let start = entry.payload_offset as usize;
        let end = start + entry.payload_len as usize;
        assert_eq!(&segment[start..end], &block.1[..]);
        assert_eq!(entry.key, block.0);
    }
}

#[test]
fn segment_errors_by_input() {
    assert_eq!(decode_segment_index(&[0; 15]), Err(FormatError::UnexpectedEof));
    assert_eq!(decode_segment_index(&[0; 36]), Err(FormatError::InvalidMagic));
    let segment = encode_segment_v1(&[(b"k".to_vec(), b"payload".to_vec())]).expect("encode");
    let mut bad_index = segment.clone();
    let key_at = segment.len() - SEGMENT_FOOTER_SIZE - 9;
    bad_index[key_at] ^= 0xFF;
    assert_eq!(decode_segment_index(&bad_index), Err(FormatError::ChecksumMismatch));
    assert_eq!(
        encode_segment_v1(&[(vec![0; 65_536], vec![])]),
        Err(FormatError::FieldTooLarge)
    );
}
