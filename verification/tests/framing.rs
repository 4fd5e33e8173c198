use errornowatcher::error::Error;
use errornowatcher::framing::{decode_stream, encode, Frame, FIELD_MAX, HEADER_LEN};

#[test]
fn encode_one_byte_identifier_and_body() {
    let framed = encode(0, &[0x01], &[0xAA]).unwrap();
    assert_eq!(framed, vec![0, 0, 0, 0, 0, 0, 0, 2, 0x01, 0xAA]);
}

#[test]
fn encode_writes_both_fields_big_endian() {
    let body = vec![7u8; 0x0102];
    let framed = encode(0x0A0B_0C0D, &[0x2C], &body).unwrap();
    assert_eq!(&framed[..4], &[0x0A, 0x0B, 0x0C, 0x0D]);
    assert_eq!(&framed[4..8], &[0x00, 0x00, 0x01, 0x03]);
    assert_eq!(framed[8], 0x2C);
    assert_eq!(&framed[9..], &body[..]);
    assert_eq!(framed.len(), HEADER_LEN + 0x0103);
}

#[test]
fn encode_empty_payload() {
    let framed = encode(5, &[], &[]).unwrap();
    assert_eq!(framed, vec![0, 0, 0, 5, 0, 0, 0, 0]);
}

#[test]
fn encode_largest_elapsed_time() {
    let framed = encode(FIELD_MAX as u128, &[0x00], &[]).unwrap();
    assert_eq!(framed, vec![0xFF, 0xFF, 0xFF, 0xFF, 0, 0, 0, 1, 0x00]);
}

#[test]
fn encode_rejects_elapsed_time_over_32_bits() {
    assert_eq!(encode(FIELD_MAX as u128 + 1, &[0x01], &[0xAA]), Err(Error::SizeOverflow));
    assert_eq!(encode(u128::MAX, &[], &[]), Err(Error::SizeOverflow));
}

#[test]
fn encode_does_not_truncate_elapsed_time() {
    // 2^32 + 1 would read as 1 if it were cut to 32 bits.
    assert_eq!(encode((1u128 << 32) + 1, &[0x01], &[]), Err(Error::SizeOverflow));
}

#[test]
fn decode_empty_stream() {
    assert_eq!(decode_stream(&[]), Some(vec![]));
}

#[test]
fn decode_one_frame() {
    let decoded = decode_stream(&[0, 0, 0, 0, 0, 0, 0, 2, 0x01, 0xAA]).unwrap();
    assert_eq!(decoded, vec![Frame { elapsed_ms: 0, payload: vec![0x01, 0xAA] }]);
}

#[test]
fn decode_reads_big_endian() {
    let mut stream = vec![0x01, 0x02, 0x03, 0x04, 0x00, 0x00, 0x01, 0x00];
    stream.extend(std::iter::repeat(9u8).take(256));
    let decoded = decode_stream(&stream).unwrap();
    assert_eq!(decoded.len(), 1);
    assert_eq!(decoded[0].elapsed_ms, 0x0102_0304);
    assert_eq!(decoded[0].payload, vec![9u8; 256]);
}

#[test]
fn decode_rejects_short_header() {
    assert_eq!(decode_stream(&[0, 0, 0, 0, 0, 0, 0]), None);
    assert_eq!(decode_stream(&[0]), None);
}

#[test]
fn decode_rejects_short_payload() {
    assert_eq!(decode_stream(&[0, 0, 0, 0, 0, 0, 0, 3, 1, 2]), None);
}

#[test]
fn decode_rejects_trailing_bytes() {
    assert_eq!(decode_stream(&[0, 0, 0, 0, 0, 0, 0, 1, 7, 0xEE]), None);
}

#[test]
fn decode_rejects_length_beyond_the_end() {
    assert_eq!(decode_stream(&[0, 0, 0, 0, 0xFF, 0xFF, 0xFF, 0xFF, 1, 2, 3]), None);
}

#[test]
fn frames_round_trip() {
    let packets: Vec<(u128, Vec<u8>, Vec<u8>)> = vec![
        (0, vec![0x00], vec![]),
        (3, vec![0x02], vec![1, 2, 3, 4]),
        (3, vec![0x80, 0x01], vec![0xFF; 300]),
        (70_000, vec![], vec![]),
        (FIELD_MAX as u128, vec![0x7F], vec![0]),
    ];
    let mut stream = Vec::new();
    let mut expected = Vec::new();
    for (elapsed_ms, identifier, body) in &packets {
        stream.extend(encode(*elapsed_ms, identifier, body).unwrap());
        let mut payload = identifier.clone();
        payload.extend(body);
        expected.push(Frame { elapsed_ms: *elapsed_ms as u32, payload });
    }
    assert_eq!(decode_stream(&stream), Some(expected));
}

#[test]
fn frames_round_trip_keeps_order_of_equal_frames() {
    let mut stream = Vec::new();
    for body in [[1u8], [2u8], [1u8]] {
        stream.extend(encode(9, &[0x10], &body).unwrap());
    }
    let decoded = decode_stream(&stream).unwrap();
    let bodies: Vec<u8> = decoded.iter().map(|frame| frame.payload[1]).collect();
    assert_eq!(bodies, vec![1, 2, 1]);
}
