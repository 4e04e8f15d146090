use bytes::Bytes;
use wombatkv::blocks::{
    decode_get_kv_blocks_batch_req, decode_get_kv_blocks_batch_resp,
    decode_lookup_block_prefix_req, decode_lookup_block_prefix_resp,
    decode_put_kv_blocks_batch_req, decode_put_kv_blocks_batch_resp,
    encode_get_kv_blocks_batch_req, encode_get_kv_blocks_batch_resp,
    encode_lookup_block_prefix_req, encode_lookup_block_prefix_resp,
    encode_put_kv_blocks_batch_req, encode_put_kv_blocks_batch_resp, GetKvBlocksBatchReq,
    GetKvBlocksBatchResp, LookupBlockPrefixReq, LookupBlockPrefixResp, PutKvBlocksBatchReq,
    PutKvBlocksBatchResp,
};
use wombatkv::hashes::{
    block_key_from_hex, block_keys, decode_hex_nibble, parse_block_hash_hex, parse_block_hash_list,
};
use wombatkv::message::{CodecError, WireRequest, WireResponse};
use wombatkv::{op, status};
use wombatkv::segment::{cleanup_prefix_segments, segment_names, validate_segment_name_budget};
use wombatkv::wire::{
    decode_bytes_batch, decode_key_batch, encode_bytes_batch, encode_key_batch, fits_one_frame,
    WireCodecError, BYTES_BATCH_MAGIC, DEFAULT_RING_DEPTH, FRAME_DATA_BYTES,
    GET_KV_BLOCKS_BATCH_REQ_MAGIC, GET_KV_BLOCKS_BATCH_RESP_MAGIC, KEY_BATCH_MAGIC,
    LOOKUP_BLOCK_PREFIX_REQ_MAGIC, LOOKUP_BLOCK_PREFIX_RESP_MAGIC, PUT_KV_BLOCKS_BATCH_REQ_MAGIC,
    PUT_KV_BLOCKS_BATCH_RESP_MAGIC,
};

#[test]
fn ping_request_round_trips() {
    let req = WireRequest {
        id: 42,
        op: op::PING,
        namespace: String::new(),
        key: String::new(),
        payload: Vec::new(),
    };
    let encoded = req.encode().expect("encode");
    let decoded = WireRequest::decode(encoded.as_ref()).expect("decode");
    assert_eq!(decoded.id, 42);
    assert_eq!(decoded.op, op::PING);
}

#[test]
fn put_response_round_trips_with_payload() {
    let resp = WireResponse {
        id: 7,
        status: status::OK,
        op: op::PUT,
        payload: vec![0xAB; 4096],
        message: String::new(),
    };
    let encoded = resp.encode().expect("encode");
    let decoded = WireResponse::decode(encoded.as_ref()).expect("decode");
    assert_eq!(decoded.id, 7);
    assert_eq!(decoded.status, status::OK);
    assert_eq!(decoded.payload.len(), 4096);
    assert_eq!(decoded.payload[0], 0xAB);
}

#[test]
fn frame_capacity_check() {
    assert!(fits_one_frame(0));
    assert!(fits_one_frame(FRAME_DATA_BYTES - 256));
    assert!(!fits_one_frame(FRAME_DATA_BYTES));
    assert!(!fits_one_frame(FRAME_DATA_BYTES * 2));
}

#[test]
fn key_batch_round_trips() {
    let keys = vec!["a".to_string(), "nested/key".to_string()];
    let encoded = encode_key_batch(&keys);
    assert_eq!(decode_key_batch(&encoded).expect("decode keys"), keys);
}

#[test]
fn bytes_batch_round_trips_without_copying_items() {
    let items = vec![Bytes::from_static(b"alpha"), Bytes::new(), Bytes::from_static(b"gamma")];
    let encoded = Bytes::from(encode_bytes_batch(&items));
    let decoded = decode_bytes_batch(encoded).expect("decode bytes");
    assert_eq!(decoded, items);
}

#[test]
fn segment_names_are_unique_per_prefix() {
    let (req, resp) = segment_names("smoke");
    assert_eq!(req, "wksmoker");
    assert_eq!(resp, "wksmokes");
    assert_ne!(req, resp);
}

#[test]
fn validate_segment_name_budget_accepts_short_prefix() {
    validate_segment_name_budget("drts999").expect("dst-sweep prefix");
    validate_segment_name_budget("drts42").expect("dst-sweep prefix");
    validate_segment_name_budget("dmcoreds").expect("typical");
}

#[test]
fn validate_segment_name_budget_rejects_too_long_prefix() {
    // Max user prefix on macOS: 30 − len("wk") − 1 (role) − 13
    // (_producer_seq) = 14. 15 chars must fail.
    let too_long = "a".repeat(15);
    let err = validate_segment_name_budget(&too_long)
        .expect_err("15-char prefix must exceed macOS budget");
    assert!(err.to_text().contains("exceeds the macOS"));
    // 14-char prefix is the hard edge, must accept.
    validate_segment_name_budget(&"a".repeat(14)).expect("14 chars at the edge");
}

#[test]
fn block_opcodes_are_distinct_and_contiguous() {
    assert_eq!(op::LOOKUP_BLOCK_PREFIX, 11);
    assert_eq!(op::GET_KV_BLOCKS_BATCH, 12);
    assert_eq!(op::PUT_KV_BLOCKS_BATCH, 13);
    assert_eq!(op::name(op::LOOKUP_BLOCK_PREFIX), "lookup_block_prefix");
    assert_eq!(op::name(op::GET_KV_BLOCKS_BATCH), "get_kv_blocks_batch");
    assert_eq!(op::name(op::PUT_KV_BLOCKS_BATCH), "put_kv_blocks_batch");
}

#[test]
fn lookup_block_prefix_req_resp_round_trip() {
    let req = LookupBlockPrefixReq {
        namespace: "ns/alpha".to_string(),
        block_hashes_hex: vec!["aa".repeat(32), "bb".repeat(32)],
    };
    let bytes = encode_lookup_block_prefix_req(&req).expect("encode req");
    let decoded = decode_lookup_block_prefix_req(&bytes).expect("decode req");
    assert_eq!(decoded.namespace, req.namespace);
    assert_eq!(decoded.block_hashes_hex, req.block_hashes_hex);

    let resp_ok = LookupBlockPrefixResp { matched_count: 7, error: None };
    let bytes_ok = encode_lookup_block_prefix_resp(&resp_ok).expect("encode resp ok");
    let decoded_ok = decode_lookup_block_prefix_resp(&bytes_ok).expect("decode resp ok");
    assert_eq!(decoded_ok.matched_count, 7);
    assert!(decoded_ok.error.is_none());

    let resp_err =
        LookupBlockPrefixResp { matched_count: 0, error: Some("bad hex at pos 3".to_string()) };
    let bytes_err = encode_lookup_block_prefix_resp(&resp_err).expect("encode resp err");
    let decoded_err = decode_lookup_block_prefix_resp(&bytes_err).expect("decode resp err");
    assert_eq!(decoded_err.matched_count, 0);
    assert_eq!(decoded_err.error.as_deref(), Some("bad hex at pos 3"));
}

#[test]
fn get_kv_blocks_batch_req_resp_round_trip() {
    let req = GetKvBlocksBatchReq {
        namespace: "ns/beta".to_string(),
        block_hashes_hex: vec!["11".repeat(32), "22".repeat(32), "33".repeat(32)],
    };
    let bytes = encode_get_kv_blocks_batch_req(&req).expect("encode req");
    let decoded = decode_get_kv_blocks_batch_req(&bytes).expect("decode req");
    assert_eq!(decoded.namespace, req.namespace);
    assert_eq!(decoded.block_hashes_hex, req.block_hashes_hex);

    let payloads = vec![vec![0xAAu8; 4096], vec![0xBBu8; 1024], vec![0xCCu8; 2048]];
    let resp_hit = GetKvBlocksBatchResp { payloads: Some(payloads.clone()), error: None };
    let bytes_hit = encode_get_kv_blocks_batch_resp(&resp_hit).expect("encode resp hit");
    let decoded_hit = decode_get_kv_blocks_batch_resp(&bytes_hit).expect("decode resp hit");
    assert!(decoded_hit.error.is_none());
    let got = decoded_hit.payloads.expect("payloads present");
    assert_eq!(got.len(), 3);
    assert_eq!(got[0].len(), 4096);
    assert_eq!(got[1].len(), 1024);
    assert_eq!(got[2].len(), 2048);
    assert_eq!(got[0][0], 0xAA);

    let resp_miss = GetKvBlocksBatchResp { payloads: None, error: None };
    let bytes_miss = encode_get_kv_blocks_batch_resp(&resp_miss).expect("encode resp miss");
    let decoded_miss = decode_get_kv_blocks_batch_resp(&bytes_miss).expect("decode resp miss");
    assert!(decoded_miss.payloads.is_none());
}

#[test]
fn put_kv_blocks_batch_req_resp_round_trip() {
    let req = PutKvBlocksBatchReq {
        namespace: "ns/gamma".to_string(),
        block_hashes_hex: vec!["77".repeat(32), "88".repeat(32)],
        payloads: vec![vec![0x77u8; 512], vec![0x88u8; 1024]],
    };
    let bytes = encode_put_kv_blocks_batch_req(&req).expect("encode req");
    let decoded = decode_put_kv_blocks_batch_req(&bytes).expect("decode req");
    assert_eq!(decoded.namespace, req.namespace);
    assert_eq!(decoded.block_hashes_hex, req.block_hashes_hex);
    assert_eq!(decoded.payloads.len(), 2);
    assert_eq!(decoded.payloads[0], req.payloads[0]);
    assert_eq!(decoded.payloads[1].len(), 1024);

    let resp_ok = PutKvBlocksBatchResp { total_bytes: 1536, error: None };
    let bytes_ok = encode_put_kv_blocks_batch_resp(&resp_ok).expect("encode resp ok");
    let decoded_ok = decode_put_kv_blocks_batch_resp(&bytes_ok).expect("decode resp ok");
    assert_eq!(decoded_ok.total_bytes, 1536);
    assert!(decoded_ok.error.is_none());

    let resp_err =
        PutKvBlocksBatchResp { total_bytes: 0, error: Some("backend put failure".to_string()) };
    let bytes_err = encode_put_kv_blocks_batch_resp(&resp_err).expect("encode resp err");
    let decoded_err = decode_put_kv_blocks_batch_resp(&bytes_err).expect("decode resp err");
    assert_eq!(decoded_err.total_bytes, 0);
    assert_eq!(decoded_err.error.as_deref(), Some("backend put failure"));
}

#[test]
fn block_payload_magic_headers_are_stable() {
    assert_eq!(&LOOKUP_BLOCK_PREFIX_REQ_MAGIC, b"WMBT_LBP_REQ\0\0\0\0");
    assert_eq!(&LOOKUP_BLOCK_PREFIX_RESP_MAGIC, b"WMBT_LBP_RES\0\0\0\0");
    assert_eq!(&GET_KV_BLOCKS_BATCH_REQ_MAGIC, b"WMBT_GBB_REQ\0\0\0\0");
    assert_eq!(&GET_KV_BLOCKS_BATCH_RESP_MAGIC, b"WMBT_GBB_RES\0\0\0\0");
    assert_eq!(&PUT_KV_BLOCKS_BATCH_REQ_MAGIC, b"WMBT_PBB_REQ\0\0\0\0");
    assert_eq!(&PUT_KV_BLOCKS_BATCH_RESP_MAGIC, b"WMBT_PBB_RES\0\0\0\0");

    // Every encode_* produces a payload that starts with its magic.
    let lbp_req = encode_lookup_block_prefix_req(&LookupBlockPrefixReq {
        namespace: "ns".to_string(),
        block_hashes_hex: vec!["aa".repeat(32)],
    })
    .expect("encode");
    assert!(lbp_req.starts_with(&LOOKUP_BLOCK_PREFIX_REQ_MAGIC));

    let gbb_resp = encode_get_kv_blocks_batch_resp(&GetKvBlocksBatchResp {
        payloads: Some(vec![vec![0u8; 4]]),
        error: None,
    })
    .expect("encode");
    assert!(gbb_resp.starts_with(&GET_KV_BLOCKS_BATCH_RESP_MAGIC));

    let pbb_resp =
        encode_put_kv_blocks_batch_resp(&PutKvBlocksBatchResp { total_bytes: 42, error: None })
            .expect("encode");
    assert!(pbb_resp.starts_with(&PUT_KV_BLOCKS_BATCH_RESP_MAGIC));
}

#[test]
fn block_payload_codec_rejects_corruption() {
    // Magic mismatch should fail loudly with a recognizable error
    // that identifies the op, not panic, not silently succeed.
    let mut bad_magic = encode_lookup_block_prefix_req(&LookupBlockPrefixReq {
        namespace: "ns".to_string(),
        block_hashes_hex: vec!["aa".repeat(32)],
    })
    .expect("encode");
    bad_magic[0] = b'X';
    let err = decode_lookup_block_prefix_req(&bad_magic).expect_err("must fail");
    assert!(err.to_text().contains("lookup_block_prefix_req"));
    assert!(err.to_text().contains("bad magic"));

    // Truncated payload (chop off the last few archived bytes)
    // should fail at rkyv bytecheck, not panic.
    let full = encode_put_kv_blocks_batch_req(&PutKvBlocksBatchReq {
        namespace: "ns".to_string(),
        block_hashes_hex: vec!["aa".repeat(32), "bb".repeat(32)],
        payloads: vec![vec![1u8; 8], vec![2u8; 8]],
    })
    .expect("encode");
    let truncated = &full[..full.len() - 8];
    let err = decode_put_kv_blocks_batch_req(truncated).expect_err("must fail");
    assert!(
        err.to_text().contains("put_kv_blocks_batch_req"),
        "unexpected error message: {}",
        err.to_text()
    );

    // Corrupting a byte in the middle of the archived body must not panic;
    // the decode returns an error or a well-formed value.
    let mut tampered = encode_get_kv_blocks_batch_resp(&GetKvBlocksBatchResp {
        payloads: Some(vec![vec![0xAAu8; 8]]),
        error: None,
    })
    .expect("encode");
    let mid = usize::midpoint(GET_KV_BLOCKS_BATCH_RESP_MAGIC.len(), tampered.len());
    tampered[mid] ^= 0xFF;
    let result = decode_get_kv_blocks_batch_resp(&tampered);
    if let Ok(decoded) = result {
        let _ = decoded;
    }
}

#[test]
fn block_payload_encodes_large_blocks_without_overflow() {
    // 1 MiB blocks × 4, exercises the u32 length prefix path and
    // ensures the capacity-estimator + writer agree on the total.
    let big_block = vec![0xCDu8; 1024 * 1024];
    let req = PutKvBlocksBatchReq {
        namespace: "ns".to_string(),
        block_hashes_hex: (0..4).map(|i| format!("{i:02x}").repeat(32)).collect(),
        payloads: vec![big_block.clone(); 4],
    };
    let bytes = encode_put_kv_blocks_batch_req(&req).expect("encode");
    let decoded = decode_put_kv_blocks_batch_req(&bytes).expect("decode");
    assert_eq!(decoded.payloads.len(), 4);
    for p in &decoded.payloads {
        assert_eq!(p.len(), big_block.len());
        assert_eq!(p[0], 0xCD);
    }
}

#[test]
fn a_request_keeps_every_field() {
    let req = WireRequest {
        id: u64::MAX,
        op: op::GET,
        namespace: "räume".to_string(),
        key: "a key longer than an inline string".to_string(),
        payload: vec![1, 2, 3],
    };
    let encoded = req.encode().expect("encode");
    // The archive is read at any alignment.
    let mut shifted = vec![0u8];
    shifted.extend_from_slice(&encoded);
    let decoded = WireRequest::decode(&shifted[1..]).expect("decode");
    assert_eq!(decoded.id, u64::MAX);
    assert_eq!(decoded.op, op::GET);
    assert_eq!(decoded.namespace, "räume");
    assert_eq!(decoded.key, "a key longer than an inline string");
    assert_eq!(decoded.payload, vec![1, 2, 3]);
}

#[test]
fn a_response_keeps_every_field() {
    let resp = WireResponse {
        id: 3,
        status: status::ERROR,
        op: op::LIST,
        payload: vec![9],
        message: "what went wrong, in words".to_string(),
    };
    let decoded = WireResponse::decode(&resp.encode().expect("encode")).expect("decode");
    assert_eq!(decoded.id, 3);
    assert_eq!(decoded.status, status::ERROR);
    assert_eq!(decoded.op, op::LIST);
    assert_eq!(decoded.payload, vec![9]);
    assert_eq!(decoded.message, "what went wrong, in words");
}

#[test]
fn garbage_is_no_message() {
    match WireRequest::decode(b"short") {
        Err(CodecError::Decode(source)) => assert!(!source.is_empty()),
        _ => panic!("expected a decode error"),
    }
    assert!(WireResponse::decode(&[]).is_err());
    assert_eq!(CodecError::Encode("e".to_string()).to_text(), "codec encode: e");
    assert_eq!(CodecError::Decode("d".to_string()).to_text(), "codec decode: d");
}

#[test]
fn opcode_names() {
    let names: Vec<&str> = (1..=13).map(op::name).collect();
    assert_eq!(
        names,
        vec![
            "ping",
            "put",
            "get",
            "exists",
            "stats",
            "clear",
            "restore",
            "close",
            "get_many",
            "list",
            "lookup_block_prefix",
            "get_kv_blocks_batch",
            "put_kv_blocks_batch",
        ]
    );
    assert_eq!(op::name(0), "unknown");
    assert_eq!(op::name(14), "unknown");
    assert_eq!((status::OK, status::MISS, status::TOO_LARGE, status::ERROR), (0, 1, 2, 3));
    assert_eq!(DEFAULT_RING_DEPTH, 16);
    assert_eq!(FRAME_DATA_BYTES, 4 * 1024 * 1024 - 16);
}

#[test]
fn key_batch_layout() {
    let encoded = encode_key_batch(&["ab".to_string()]);
    let mut expected = KEY_BATCH_MAGIC.to_vec();
    expected.extend_from_slice(&[1, 0, 0, 0, 2, 0, 0, 0, b'a', b'b']);
    assert_eq!(encoded, expected);
}

#[test]
fn key_batch_errors_by_input() {
    match decode_key_batch(b"nope") {
        Err(WireCodecError::BadMagic { op, expected, got_len, got }) => {
            assert_eq!(op, "key_batch");
            assert_eq!(expected, KEY_BATCH_MAGIC.to_vec());
            assert_eq!(got_len, 4);
            assert_eq!(got, b"nope");
        }
        other => panic!("expected BadMagic, got {other:?}"),
    }
    let good = encode_key_batch(&["key".to_string()]);
    match decode_key_batch(&good[..good.len() - 1]) {
        Err(WireCodecError::Truncated { what, needed, at, got }) => {
            assert_eq!((what, needed, at, got), ("key_batch", 3, 24, 26));
        }
        other => panic!("expected Truncated, got {other:?}"),
    }
    match decode_key_batch(&good[..18]) {
        Err(WireCodecError::Truncated { what, needed, at, got }) => {
            assert_eq!((what, needed, at, got), ("u32", 4, 16, 18));
        }
        other => panic!("expected Truncated, got {other:?}"),
    }
    let mut longer = good.clone();
    longer.push(0);
    match decode_key_batch(&longer) {
        Err(WireCodecError::TrailingBytes { what, extra }) => {
            assert_eq!((what, extra), ("key_batch", 1));
        }
        other => panic!("expected TrailingBytes, got {other:?}"),
    }
    let mut invalid = good;
    let last = invalid.len() - 1;
    invalid[last] = 0xFF;
    match decode_key_batch(&invalid) {
        Err(WireCodecError::Utf8 { what, source }) => {
            assert_eq!(what, "key_batch");
            assert_eq!(
                source,
                std::str::from_utf8(&[b'k', b'e', 0xFF]).unwrap_err().to_string()
            );
        }
        other => panic!("expected Utf8, got {other:?}"),
    }
}

#[test]
fn bytes_batch_errors_by_input() {
    match decode_bytes_batch(Bytes::from_static(b"")) {
        Err(WireCodecError::BadMagic { op, got_len, .. }) => {
            assert_eq!((op, got_len), ("bytes_batch", 0));
        }
        other => panic!("expected BadMagic, got {other:?}"),
    }
    let good = encode_bytes_batch(&[Bytes::from_static(b"abc")]);
    assert!(good.starts_with(&BYTES_BATCH_MAGIC));
    match decode_bytes_batch(Bytes::from(good[..good.len() - 1].to_vec())) {
        Err(WireCodecError::BodyLengthMismatch { what, claimed, actual }) => {
            assert_eq!((what, claimed, actual), ("bytes_batch", 28, 27));
        }
        other => panic!("expected BodyLengthMismatch, got {other:?}"),
    }
    match decode_bytes_batch(Bytes::from(good[..22].to_vec())) {
        Err(WireCodecError::Truncated { .. }) => {}
        other => panic!("expected Truncated, got {other:?}"),
    }
}

#[test]
fn a_batch_is_accepted_only_as_it_is_written() {
    let keys = vec!["a".to_string(), "bc".to_string()];
    let encoded = encode_key_batch(&keys);
    for at in 0..encoded.len() {
        let mut other = encoded.clone();
        other[at] ^= 1;
        match decode_key_batch(&other) {
            Ok(read) => assert_ne!(read, keys),
            Err(_) => {}
        }
    }
    let items = vec![Bytes::from_static(b"x"), Bytes::from_static(b"yz")];
    let encoded = encode_bytes_batch(&items);
    for at in 0..encoded.len() {
        let mut other = encoded.clone();
        other[at] ^= 1;
        match decode_bytes_batch(Bytes::from(other)) {
            Ok(read) => assert_ne!(read, items),
            Err(_) => {}
        }
    }
}

#[test]
fn what_an_archive_holds() {
    let request = |namespace: usize, payload: usize| WireRequest {
        id: 1,
        op: op::PUT,
        namespace: "n".repeat(namespace),
        key: "12345678".to_string(),
        payload: vec![0; payload],
    };
    assert!(request(8, 1024).fits());
    let message = request(9, 1024);
    let read = WireRequest::decode(&message.encode().expect("encode")).expect("decode");
    assert_eq!((read.namespace, read.key), ("n".repeat(9), "12345678".to_string()));
    let many = GetKvBlocksBatchReq {
        namespace: "ns".to_string(),
        block_hashes_hex: vec!["ab".repeat(32); 1000],
    };
    assert!(many.fits());
    let bytes = encode_get_kv_blocks_batch_req(&many).expect("encode");
    // The magic, each hash with its entry, and the message itself.
    assert_eq!(bytes.len(), 16 + 1000 * (64 + 8) + 16);
}

/// The offset at a position of an archive.
fn offset_at(archive: &[u8], at: usize) -> i32 {
    i32::from_le_bytes(archive[at..at + 4].try_into().unwrap())
}

#[test]
fn where_an_archive_keeps_its_parts() {
    let request = WireRequest {
        id: 1,
        op: op::PUT,
        namespace: "n".repeat(9),
        key: "k".repeat(10),
        payload: vec![7; 3],
    };
    let bytes = request.encode().expect("encode");
    assert_eq!(bytes.len(), 24 + 40);
    assert_eq!(offset_at(&bytes, 24 + 12 + 4), -36);
    assert_eq!(offset_at(&bytes, 24 + 20 + 4), 9 - 44);
    assert_eq!(offset_at(&bytes, 24 + 28), 19 - 52);
    let response = WireResponse {
        id: 1,
        status: status::OK,
        op: op::GET,
        payload: vec![7; 5],
        message: "m".repeat(9),
    };
    let bytes = response.encode().expect("encode");
    assert_eq!(bytes.len(), 16 + 32);
    assert_eq!(offset_at(&bytes, 16 + 12), -28);
    assert_eq!(offset_at(&bytes, 16 + 20 + 4), 5 - 36);

    let list = GetKvBlocksBatchReq {
        namespace: "n".repeat(9),
        block_hashes_hex: vec!["ab".repeat(32), "short".to_string(), "c".repeat(9)],
    };
    let bytes = encode_get_kv_blocks_batch_req(&list).expect("encode").split_off(16);
    assert_eq!(bytes.len(), 108 + 16);
    assert_eq!(offset_at(&bytes, 84 + 4), 9 - 84);
    assert_eq!(offset_at(&bytes, 84 + 16 + 4), 73 - 100);
    assert_eq!(offset_at(&bytes, 108 + 4), -108);
    assert_eq!(offset_at(&bytes, 108 + 8), 84 - 116);

    let put = PutKvBlocksBatchReq {
        namespace: "n".repeat(9),
        block_hashes_hex: vec!["ab".repeat(32), "ab".to_string()],
        payloads: vec![vec![7; 3], vec![]],
    };
    let bytes = encode_put_kv_blocks_batch_req(&put).expect("encode").split_off(16);
    assert_eq!(bytes.len(), 112 + 24);
    assert_eq!(offset_at(&bytes, 96), 92 - 96);
    assert_eq!(offset_at(&bytes, 96 + 8), 95 - 104);
    assert_eq!(offset_at(&bytes, 112 + 8), 76 - 120);
    assert_eq!(offset_at(&bytes, 112 + 16), 96 - 128);

    let answer =
        GetKvBlocksBatchResp { payloads: Some(vec![vec![7; 3]]), error: Some("e".repeat(9)) };
    let bytes = encode_get_kv_blocks_batch_resp(&answer).expect("encode").split_off(16);
    assert_eq!(bytes.len(), 24 + 24);
    assert_eq!(offset_at(&bytes, 4), -4);
    assert_eq!(offset_at(&bytes, 24 + 4), 4 - 28);
    assert_eq!(offset_at(&bytes, 24 + 16 + 4), 12 - 40);
}

#[test]
fn how_far_an_archive_reaches() {
    const REACH: usize = 1 << 31;
    let response = |payload: usize, message: usize| WireResponse {
        id: 1,
        status: status::OK,
        op: op::GET,
        payload: vec![0; payload],
        message: "m".repeat(message),
    };
    assert!(response(REACH - 16, 8).fits());
    assert!(!response(REACH - 15, 8).fits());
    assert!(response(REACH - 16 - 9, 9).fits());
    assert!(!response(REACH - 15 - 9, 9).fits());
    let request = |namespace: usize, key: usize, payload: usize| WireRequest {
        id: 1,
        op: op::PUT,
        namespace: "n".repeat(namespace),
        key: "k".repeat(key),
        payload: vec![0; payload],
    };
    assert!(request(8, 8, REACH - 32).fits());
    assert!(!request(8, 8, REACH - 31).fits());
    assert!(request(8, 9, REACH - 24 - 9).fits());
    assert!(!request(8, 9, REACH - 23 - 9).fits());
    assert!(request(12, 0, REACH - 16 - 12).fits());
    assert!(!request(12, 0, REACH - 15 - 12).fits());
    assert!(request(11, 0, REACH - 24 - 11).fits());
    assert!(!request(11, 0, REACH - 23 - 11).fits());
    let answer = |payloads: Vec<usize>| GetKvBlocksBatchResp {
        payloads: Some(payloads.into_iter().map(|len| vec![0; len]).collect()),
        error: None,
    };
    assert!(answer(vec![REACH]).fits());
    assert!(!answer(vec![REACH + 1]).fits());
    assert!(answer(vec![8, REACH - 8]).fits());
    assert!(!answer(vec![8, REACH - 7]).fits());
    // The second entry stands eight bytes behind the first.
    assert!(answer(vec![0, REACH - 8]).fits());
    assert!(!answer(vec![0, REACH - 7]).fits());
    let put = |hash: usize, payload: usize| PutKvBlocksBatchReq {
        namespace: "ns".to_string(),
        block_hashes_hex: vec!["a".repeat(hash)],
        payloads: vec![vec![0; payload]],
    };
    assert!(put(64, REACH - 24).fits());
    assert!(!put(64, REACH - 23).fits());
}

#[test]
fn a_text_that_is_too_long_is_refused_at_any_size() {
    let long = || String::from_utf8(vec![0; 1 << 30]).unwrap();
    let large = WireResponse {
        id: 1,
        status: status::OK,
        op: op::GET,
        payload: vec![0; 1 << 30],
        message: long(),
    };
    assert!(large.fits());
    drop(large);
    let small = LookupBlockPrefixResp { matched_count: 1, error: Some(long()) };
    assert!(small.fits());
    assert!(matches!(
        encode_lookup_block_prefix_resp(&small),
        Err(WireCodecError::Rkyv { op: "lookup_block_prefix_resp", .. })
    ));
}

#[test]
fn wire_errors_in_words() {
    assert_eq!(
        WireCodecError::Truncated { what: "x", needed: 4, at: 2, got: 3 }.to_text(),
        "x truncated: need 4 bytes at offset 2, payload is 3"
    );
    assert_eq!(
        WireCodecError::BadMagic { op: "o", expected: vec![1], got_len: 2, got: vec![2, 3] }
            .to_text(),
        "o: bad magic; expected [1] got first 2 bytes [2, 3]"
    );
    assert_eq!(WireCodecError::LengthOverflow { what: "x" }.to_text(), "x: length overflow");
    assert_eq!(
        WireCodecError::TrailingBytes { what: "x", extra: 5 }.to_text(),
        "x: trailing bytes (5 unread)"
    );
    assert_eq!(
        WireCodecError::BodyLengthMismatch { what: "x", claimed: 1, actual: 2 }.to_text(),
        "x: body length mismatch (claimed=1, actual=2)"
    );
    assert_eq!(
        WireCodecError::Utf8 { what: "x", source: "bad".to_string() }.to_text(),
        "x: utf8: bad"
    );
    assert_eq!(
        WireCodecError::Rkyv { op: "o", source: "bad".to_string() }.to_text(),
        "o: rkyv: bad"
    );
    assert_eq!(WireCodecError::SegmentNameBudget("long".to_string()).to_text(), "long");
}

#[test]
fn the_name_budget_counts_bytes() {
    // Seven two-byte characters and one more byte.
    let err = validate_segment_name_budget("éééééééa").unwrap_err();
    assert!(err.to_text().contains("'wkéééééééar_producer_seq' (31 chars)"));
    assert!(err.to_text().contains("(15 chars) to at most 14 chars"));
    assert!(err.to_text().ends_with("recommends total name ≤ 14 chars."));
    validate_segment_name_budget("ééééééé").expect("fourteen bytes");
}

#[test]
fn segments_of_a_prefix() {
    assert_eq!(
        cleanup_prefix_segments("p"),
        vec![
            "wkpr",
            "wkpr_cr",
            "wkpr_ci",
            "wkpr_producer_seq",
            "wkpr_dn_seq",
            "wkps",
            "wkps_cr",
            "wkps_ci",
            "wkps_producer_seq",
            "wkps_cn_seq",
        ]
    );
}

#[test]
fn block_hashes() {
    assert_eq!(decode_hex_nibble(b'0'), Some(0));
    assert_eq!(decode_hex_nibble(b'f'), Some(15));
    assert_eq!(decode_hex_nibble(b'F'), None);
    assert_eq!(decode_hex_nibble(b'g'), None);
    let hex = "0f".repeat(31) + "a0";
    let hash = parse_block_hash_hex(&hex).expect("valid");
    assert_eq!(hash[0], 0x0f);
    assert_eq!(hash[31], 0xa0);
    assert!(parse_block_hash_hex("0f").is_err());
    assert!(parse_block_hash_hex(&"zz".repeat(32)).is_err());
    assert_eq!(
        parse_block_hash_list(&["AA".repeat(32)]),
        Err(format!("hash[0]: bad hex char at pos 0 in {:?}", "AA".repeat(32)))
    );
    let list = vec![hex.clone(), "11".repeat(32)];
    assert_eq!(parse_block_hash_list(&list).expect("valid")[1], [0x11; 32]);
    assert!(parse_block_hash_list(&[hex, "short".to_string()]).is_err());
    let keys = block_keys(&list);
    assert_eq!(keys.len(), 2);
    assert_eq!(keys[0], block_key_from_hex(&list[0]));
    assert!(keys[0].contains(&list[0]));
}
