use aprs_decode::Callsign;

#[test]
fn textual_no_ssid() {
    let c = Callsign::decode_textual(b"W1AW").unwrap();
    assert_eq!(c.as_str(), "W1AW");
    assert_eq!(c.ssid(), None);
}

#[test]
fn textual_with_ssid() {
    let c = Callsign::decode_textual(b"W1AW-9").unwrap();
    assert_eq!(c.as_str(), "W1AW");
    assert_eq!(c.ssid(), Some("9"));
    assert_eq!(c.ssid_numeric(), Some(9));
}

#[test]
fn textual_ssid_15() {
    let c = Callsign::decode_textual(b"N0CALL-15").unwrap();
    assert_eq!(c.ssid(), Some("15"));
    assert_eq!(c.ssid_numeric(), Some(15));
}

#[test]
fn textual_ssid_16_invalid() {
    assert!(Callsign::decode_textual(b"N0CALL-16").is_err());
}

#[test]
fn textual_ssid_0_normalized_to_none() {
    let c = Callsign::decode_textual(b"W1AW-0").unwrap();
    assert_eq!(c.ssid(), None);
    assert_eq!(c.to_string(), "W1AW");
}

#[test]
fn textual_alphanumeric_ssid_dstar() {
    let c = Callsign::decode_textual(b"K0HRV-S").unwrap();
    assert_eq!(c.as_str(), "K0HRV");
    assert_eq!(c.ssid(), Some("S"));
    assert_eq!(c.ssid_numeric(), None);
    assert_eq!(c.to_string(), "K0HRV-S");
}

#[test]
fn textual_lowercase_normalized() {
    let c = Callsign::decode_textual(b"w1aw").unwrap();
    assert_eq!(c.as_str(), "W1AW");
}

#[test]
fn textual_empty_invalid() {
    assert!(Callsign::decode_textual(b"").is_err());
}

#[test]
fn display_no_ssid() {
    let c = Callsign::decode_textual(b"W1AW").unwrap();
    assert_eq!(c.to_string(), "W1AW");
}

#[test]
fn display_with_ssid() {
    let c = Callsign::decode_textual(b"W1AW-9").unwrap();
    assert_eq!(c.to_string(), "W1AW-9");
}

#[test]
fn ax25_round_trip() {
    let original = Callsign::decode_textual(b"W1AW-9").unwrap();
    let mut encoded = Vec::new();
    original.encode_ax25(&mut encoded, true);
    assert_eq!(encoded.len(), 7);
    let (decoded, eoa) = Callsign::decode_ax25(&encoded).unwrap();
    assert_eq!(decoded, original);
    assert!(eoa);
}

#[test]
fn callsign_encode_textual_round_trip() {
    let original = Callsign::decode_textual(b"KD9ABC-3").unwrap();
    let mut out = Vec::new();
    original.encode_textual(&mut out);
    let decoded = Callsign::decode_textual(&out).unwrap();
    assert_eq!(decoded, original);
}

#[test]
fn ssid_leading_zero_canonicalised() {
    let c = Callsign::decode_textual(b"W1AW-09").unwrap();
    assert_eq!(c.ssid(), Some("9"));
    assert_eq!(c.to_string(), "W1AW-9");
}

#[test]
fn call_too_long_invalid() {
    assert!(Callsign::decode_textual(b"ABCDEFGHIJ").is_err());
    assert!(Callsign::decode_textual(b"ABCDEFGHI").is_ok());
}

#[test]
fn ssid_with_punctuation_invalid() {
    assert!(Callsign::decode_textual(b"W1AW-*").is_err());
    assert!(Callsign::decode_textual(b"W1AW-").is_err());
}

#[test]
fn ax25_odd_byte_rejected() {
    let bytes = [0x81u8, 0x40, 0x40, 0x40, 0x40, 0x40, 0x60];
    assert!(Callsign::decode_ax25(&bytes).is_err());
}

#[test]
fn ax25_short_input_rejected() {
    assert!(matches!(
        Callsign::decode_ax25(&[0x40u8; 5]),
        Err(aprs_decode::AprsError::TruncatedPacket { expected: 7, got: 5 })
    ));
}

#[test]
fn ax25_encoding_exact_bytes() {
    let c = Callsign::decode_textual(b"W1AW-9").unwrap();
    let mut out = Vec::new();
    c.encode_ax25(&mut out, false);
    assert_eq!(out, vec![b'W' << 1, b'1' << 1, b'A' << 1, b'W' << 1, 0x40, 0x40, 0x60 | (9 << 1)]);
}

#[test]
fn ax25_alphanumeric_ssid_written_as_zero() {
    let c = Callsign::decode_textual(b"K0HRV-S").unwrap();
    let mut out = Vec::new();
    c.encode_ax25(&mut out, true);
    assert_eq!(out[6], 0x61);
}
