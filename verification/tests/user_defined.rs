use aprs_decode::AprsUserDefined;

#[test]
fn user_defined_round_trip() {
    let raw = b"{Qhello world";
    let ud = AprsUserDefined::parse(raw);
    assert_eq!(ud.user_id, b'Q');
    assert_eq!(ud.packet_type, b'h');
    assert_eq!(ud.data, b"ello world");
    assert_eq!(ud.encode().as_slice(), raw.as_slice());
}

#[test]
fn minimal() {
    let ud = AprsUserDefined::parse(b"{AB");
    assert_eq!(ud.user_id, b'A');
    assert_eq!(ud.packet_type, b'B');
    assert!(ud.data.is_empty());
}

#[test]
fn user_defined_missing_bytes_read_as_zero() {
    let ud = AprsUserDefined::parse(b"{");
    assert_eq!(ud.user_id, 0);
    assert_eq!(ud.packet_type, 0);
    assert!(ud.data.is_empty());
}
