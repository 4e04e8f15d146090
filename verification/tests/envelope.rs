use wombatkv::envelope::{
    decode_envelope, decode_envelope_header, encode_envelope, verify_envelope_crc, EnvelopeError,
    EnvelopeHeader, WIRE_ENVELOPE_BYTES, WIRE_ENVELOPE_MAGIC, WIRE_ENVELOPE_VERSION,
};

#[test]
fn roundtrip_small() {
    let body = b"hello world";
    let wire = encode_envelope(body);
    assert_eq!(wire.len(), WIRE_ENVELOPE_BYTES + body.len());
    let decoded = decode_envelope(&wire).unwrap();
    assert_eq!(decoded, body);
}

#[test]
fn roundtrip_empty() {
    let body: &[u8] = &[];
    let wire = encode_envelope(body);
    assert_eq!(wire.len(), WIRE_ENVELOPE_BYTES);
    let decoded = decode_envelope(&wire).unwrap();
    assert_eq!(decoded, body);
}

#[test]
fn roundtrip_large() {
    let body = vec![0xa5u8; 1 << 20]; // 1 MB
    let wire = encode_envelope(&body);
    assert_eq!(wire.len(), WIRE_ENVELOPE_BYTES + body.len());
    let decoded = decode_envelope(&wire).unwrap();
    assert_eq!(decoded, body.as_slice());
}

#[test]
#[allow(non_snake_case)]
fn pinned_layout_v1_DO_NOT_UPDATE() {
    let body = b"x";
    let wire = encode_envelope(body);
    assert_eq!(wire.len(), 17);
    assert_eq!(&wire[0..4], b"WMBT", "magic");
    assert_eq!(&wire[4..8], &1u32.to_le_bytes(), "version=1 LE");
    // The CRC is the Castagnoli one (polynomial 0x82F63B78).
    let crc_x = crc32c::crc32c(b"x");
    assert_eq!(&wire[8..12], &crc_x.to_le_bytes(), "crc32c('x') LE");
    assert_eq!(&wire[12..16], &1u32.to_le_bytes(), "body_len=1 LE");
    assert_eq!(wire[16], b'x', "body byte 0");
}

#[test]
fn header_decode_rejects_oversized_len_without_body_alloc() {
    let mut header = [0u8; WIRE_ENVELOPE_BYTES];
    header[0..4].copy_from_slice(&WIRE_ENVELOPE_MAGIC);
    header[4..8].copy_from_slice(&WIRE_ENVELOPE_VERSION.to_le_bytes());
    header[8..12].copy_from_slice(&0xDEADBEEFu32.to_le_bytes()); // crc, irrelevant here
    header[12..16].copy_from_slice(&u32::MAX.to_le_bytes()); // oversized len claim
    let h = decode_envelope_header(&header).expect("header itself parses");
    assert_eq!(h.len, u32::MAX);
}

#[test]
fn rejects_bad_magic() {
    let mut wire = encode_envelope(b"hi");
    wire[0] = b'X';
    assert!(matches!(decode_envelope(&wire), Err(EnvelopeError::BadMagic { .. })));
}

#[test]
fn rejects_bad_version() {
    let mut wire = encode_envelope(b"hi");
    wire[4] = 99;
    assert!(matches!(decode_envelope(&wire), Err(EnvelopeError::BadVersion { .. })));
}

#[test]
fn rejects_bad_crc() {
    let mut wire = encode_envelope(b"hi");
    wire[16] = b'X'; // tamper body
    assert!(matches!(decode_envelope(&wire), Err(EnvelopeError::BadCrc { .. })));
}

#[test]
fn rejects_truncated_body() {
    let wire = encode_envelope(b"hello");
    let truncated = &wire[..wire.len() - 1];
    assert!(matches!(decode_envelope(truncated), Err(EnvelopeError::BadLength { .. })));
}

#[test]
fn rejects_extra_bytes() {
    let mut wire = encode_envelope(b"hi");
    wire.push(0);
    assert!(matches!(decode_envelope(&wire), Err(EnvelopeError::BadLength { .. })));
}

#[test]
fn header_only_decode() {
    let body = b"streaming reader needs len";
    let wire = encode_envelope(body);
    let header_bytes: [u8; WIRE_ENVELOPE_BYTES] = wire[..WIRE_ENVELOPE_BYTES].try_into().unwrap();
    let header = decode_envelope_header(&header_bytes).unwrap();
    assert_eq!(header.len as usize, body.len());
    verify_envelope_crc(&header, body).unwrap();
}

#[test]
fn rejects_a_short_header() {
    match decode_envelope(&[0; 15]) {
        Err(EnvelopeError::TooShort { got, need }) => assert_eq!((got, need), (15, 16)),
        other => panic!("expected TooShort, got {other:?}"),
    }
}

#[test]
fn the_checksum_is_castagnoli() {
    // The check value of CRC-32C is that of "123456789".
    let wire = encode_envelope(b"123456789");
    assert_eq!(&wire[8..12], &0xE306_9283u32.to_le_bytes());
}

#[test]
fn a_body_is_held_against_its_header() {
    let header = EnvelopeHeader { crc: 0xE306_9283, len: 9 };
    verify_envelope_crc(&header, b"123456789").unwrap();
    match verify_envelope_crc(&header, b"12345678") {
        Err(EnvelopeError::BadLength { header_len, actual_body_bytes }) => {
            assert_eq!((header_len, actual_body_bytes), (9, 8))
        }
        other => panic!("expected BadLength, got {other:?}"),
    }
    match verify_envelope_crc(&header, b"123456780") {
        Err(EnvelopeError::BadCrc { header_crc, computed_crc }) => {
            assert_eq!(header_crc, 0xE306_9283);
            assert_eq!(computed_crc, crc32c::crc32c(b"123456780"));
        }
        other => panic!("expected BadCrc, got {other:?}"),
    }
}

#[test]
fn envelope_errors_in_words() {
    assert_eq!(
        EnvelopeError::TooShort { got: 3, need: 16 }.to_text(),
        "envelope too short: got 3 bytes, need at least 16"
    );
    assert_eq!(
        EnvelopeError::BadMagic { got: [1, 2, 3, 4] }.to_text(),
        "envelope bad magic: got [1, 2, 3, 4], expected [87, 77, 66, 84]"
    );
    assert_eq!(
        EnvelopeError::BadVersion { got: 9, want: 1 }.to_text(),
        "envelope unsupported version 9 (want 1); pre-launch breaking-window applies, daemons \
         and clients must upgrade together"
    );
    assert_eq!(
        EnvelopeError::BadLength { header_len: 5, actual_body_bytes: 4 }.to_text(),
        "envelope length mismatch: header says 5 body bytes, actually got 4"
    );
    assert_eq!(
        EnvelopeError::BadCrc { header_crc: 0xAB, computed_crc: 0xDEAD_BEEF }.to_text(),
        "envelope CRC32C mismatch: header=000000ab computed=deadbeef"
    );
}
