use synapse_core::devices::blackshark_v2_hs::protocol::{
    decode_request, decode_response, encode_request, encode_response, eq_from_payload, eq_to_wire, format_firmware,
    format_serial, reg, sequence_byte, DecodeError, Request, DOMAIN_HEADSET_RF, DOMAIN_LOCAL, REPORT_ID,
};

#[test]
fn battery_query_layout() {
    let frame = encode_request(0x65, DOMAIN_HEADSET_RF, reg::BATTERY, &[]).unwrap();
    let mut expected = [0u8; 64];
    expected[0] = 0x02;
    expected[2] = 0x65;
    expected[6] = 0x04;
    expected[9] = 0x80;
    expected[10] = 0x21;
    expected[62] = 0x02 ^ 0x65 ^ 0x04 ^ 0x80 ^ 0x21;
    assert_eq!(frame, expected);
}

#[test]
fn set_with_parameter_layout() {
    let frame = encode_request(0x61, DOMAIN_LOCAL, reg::set(reg::DONGLE_LED), &[2]).unwrap();
    assert_eq!(frame[6], 0x05);
    assert_eq!(frame[9], 0x00);
    assert_eq!(frame[10], 0xE6);
    assert_eq!(frame[12], 1);
    assert_eq!(frame[13], 2);
    assert_eq!(frame[62], frame[..62].iter().fold(0, |a, b| a ^ b));
    assert_eq!(frame[63], 0);
}

/// The 63 bytes behind the report ID are checksummed as `0x02 ^ p[0..61]`.
#[test]
fn checksum_matches_reference_formula() {
    let frame = encode_request(
        0x7F,
        DOMAIN_HEADSET_RF,
        reg::set(reg::EQ_BANDS),
        &[8, 7, 6, 5, 5, 5, 6, 7, 8, 7],
    )
    .unwrap();
    let payload = &frame[1..];
    let reference = payload[..61].iter().fold(0x02u8, |a, b| a ^ b);
    assert_eq!(payload[61], reference);
    assert_eq!(payload[5], 0x0E); // length for 10 parameter bytes
}

#[test]
fn request_roundtrip() {
    let frame = encode_request(0x6A, DOMAIN_HEADSET_RF, 0x99, &[12]).unwrap();
    let req = decode_request(&frame).unwrap();
    assert_eq!(
        req,
        Request {
            seq: 0x6A,
            domain: 0x80,
            cmd: 0x99,
            params: vec![12]
        }
    );
    let mut broken = frame;
    broken[13] ^= 1;
    assert!(matches!(decode_request(&broken), Err(DecodeError::Checksum { .. })));
}

#[test]
fn response_roundtrip_and_both_checksum_variants() {
    let frame = encode_response(0x65, DOMAIN_HEADSET_RF, reg::BATTERY, 0x01, &[85]);
    let resp = decode_response(&frame).unwrap();
    assert_eq!(resp.payload, vec![85]);
    assert_eq!(resp.status, 0x01);
    assert!(resp.answers(0x65, reg::BATTERY));
    assert!(resp.answers(0x05, reg::BATTERY)); // mask bits are not compared
    assert!(!resp.answers(0x66, reg::BATTERY));
    assert!(!resp.answers(0x65, reg::CHARGING));

    // Same frame checksummed including the report ID is accepted too.
    let mut alt = frame;
    alt[62] ^= REPORT_ID;
    assert!(decode_response(&alt).is_ok());

    let mut broken = frame;
    broken[62] ^= 0x10;
    assert!(matches!(decode_response(&broken), Err(DecodeError::Checksum { .. })));
}

#[test]
fn rejects_foreign_and_malformed_reports() {
    assert_eq!(decode_response(&[0x0C, 0x01]), Err(DecodeError::OtherReport(0x0C)));
    assert_eq!(decode_response(&[]), Err(DecodeError::TooShort(0)));
    assert_eq!(decode_response(&[0x02; 10]), Err(DecodeError::TooShort(10)));
    let mut frame = encode_response(0x60, 0, 0x21, 1, &[]);
    frame[12] = 60; // count runs over the checksum
    frame[62] = frame[1..62].iter().fold(0, |a, b| a ^ b);
    assert_eq!(decode_response(&frame), Err(DecodeError::BadCount(60)));
}

#[test]
fn too_many_params_is_an_error() {
    assert!(encode_request(0x60, 0, 0x95, &[0; 49]).is_err());
    assert!(encode_request(0x60, 0, 0x95, &[0; 48]).is_ok());
    assert_eq!(
        encode_request(0x60, 0, 0x95, &[0; 49]).unwrap_err(),
        "too many parameters (49 > 48)"
    );
}

#[test]
fn eq_wire_conversion() {
    assert_eq!(
        eq_to_wire(&[3, 2, 1, 0, 0, 0, 1, 2, 3, 2]),
        [8, 7, 6, 5, 5, 5, 6, 7, 8, 7]
    );
    // -9 dB goes out as -4 (0xFC); out of range values are clamped first.
    assert_eq!(
        eq_to_wire(&[-9, 6, -12, 10, 0, 0, 0, 0, 0, 0])[..4],
        [0xFC, 11, 0xFC, 11]
    );
    assert_eq!(
        eq_from_payload(&[0xF7, 6, 0, 0xFF, 1, 2, 3, 4, 5, 250]),
        Some([-9, 6, 0, -1, 1, 2, 3, 4, 5, -6])
    );
    assert_eq!(eq_from_payload(&[1, 2, 3]), None);
}

/// Bytes seen on the wire of a real headset.
#[test]
fn curve_bytes_of_a_real_headset() {
    let curve = [1, 2, 3, 4, 5, 6, -1, -2, -3, -9];
    assert_eq!(
        eq_to_wire(&curve),
        [0x06, 0x07, 0x08, 0x09, 0x0a, 0x0b, 0x04, 0x03, 0x02, 0xfc]
    );
    assert_eq!(
        eq_from_payload(&[0x01, 0x02, 0x03, 0x04, 0x05, 0x06, 0xff, 0xfe, 0xfd, 0xf7]),
        Some(curve)
    );
}

#[test]
fn formats_identity_fields() {
    assert_eq!(format_firmware(&[1, 2, 3, 4]).as_deref(), Some("1.02.3.4"));
    assert_eq!(format_firmware(&[1]), None);
    assert_eq!(
        format_serial(b"PM2345H01234567\0\0").as_deref(),
        Some("PM2345H01234567")
    );
    assert_eq!(format_serial(&[0, 0, 0]), None);
}

#[test]
fn register_helpers() {
    assert_eq!(reg::set(reg::SIDETONE), 0x98);
    assert_eq!(reg::set(reg::EQ_BANDS), 0x95);
    assert_eq!(reg::set(reg::SLEEP_TIMER), 0xAC);
    assert!(reg::is_set(0xE6));
    assert_eq!(reg::get_of(0xE6), reg::DONGLE_LED);
    assert_eq!(sequence_byte(0x25), 0x65);
}

#[test]
fn every_corrupted_byte_is_noticed() {
    let frame = encode_request(0x6A, DOMAIN_HEADSET_RF, 0x95, &[1, 2, 3]).unwrap();
    for i in 1..63 {
        let mut broken = frame;
        broken[i] ^= 0x40;
        assert!(matches!(decode_request(&broken), Err(DecodeError::Checksum { .. })), "{i}");
    }
    let mut other = frame;
    other[0] = 0x07;
    assert_eq!(decode_request(&other), Err(DecodeError::OtherReport(0x07)));
}

#[test]
fn long_payloads_are_capped() {
    let frame = encode_response(0x60, 0, 0x21, 1, &[7; 60]);
    assert_eq!(decode_response(&frame).unwrap().payload, vec![7; 48]);
}

#[test]
fn firmware_and_serial_edge_cases() {
    assert_eq!(format_firmware(&[1, 12, 3]).as_deref(), Some("1.12"));
    assert_eq!(format_serial(b"  A\x01B \0C").as_deref(), Some("AB"));
}

#[test]
fn decode_errors_in_words() {
    assert_eq!(
        DecodeError::OtherReport(0x0C).message(),
        "report 0x0C is not a control frame"
    );
    assert_eq!(DecodeError::TooShort(10).message(), "frame too short (10 bytes)");
    assert_eq!(
        DecodeError::Checksum {
            expected: 0xAB,
            found: 1
        }
        .message(),
        "checksum mismatch (expected 0xAB, found 0x01)"
    );
    assert_eq!(DecodeError::BadCount(60).message(), "invalid parameter count 60");
}

#[test]
fn replies_are_marked() {
    let request = encode_request(0x65, DOMAIN_HEADSET_RF, reg::BATTERY, &[]).unwrap();
    assert_eq!(request[1], 0x00);
    let reply = encode_response(0x65, DOMAIN_HEADSET_RF, reg::BATTERY, 1, &[76]);
    let mut expected = [0u8; 64];
    expected[0] = 0x02;
    expected[1] = 0x02;
    expected[2] = 0x65;
    expected[6] = 0x05;
    expected[8] = 0x80;
    expected[9] = 0x80;
    expected[10] = 0x21;
    expected[11] = 0x01;
    expected[12] = 0x01;
    expected[13] = 76;
    expected[62] = 0x02 ^ 0x65 ^ 0x05 ^ 0x80 ^ 0x80 ^ 0x21 ^ 0x01 ^ 0x01 ^ 76;
    assert_eq!(reply, expected);
}
