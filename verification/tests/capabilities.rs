use aprs_decode::AprsCapabilities;

#[test]
fn capabilities_round_trip() {
    let raw = b"<IGATE,MSG_CNT=10,LOC_CNT=20";
    let cap = AprsCapabilities::parse(raw);
    assert_eq!(cap.raw, b"IGATE,MSG_CNT=10,LOC_CNT=20");
    assert_eq!(cap.encode().as_slice(), raw.as_slice());
}

#[test]
fn empty_capabilities() {
    let cap = AprsCapabilities::parse(b"<");
    assert!(cap.raw.is_empty());
}
