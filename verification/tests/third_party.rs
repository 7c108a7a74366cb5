use aprs_decode::{AprsData, AprsThirdParty};

#[test]
fn decode_third_party_position() {
    let tp = AprsThirdParty::parse(b"}WB0VGI-7>APOT30,W0RO-11*,WIDE2-1:!4228.35N/09101.45Wk").unwrap();
    assert_eq!(tp.inner.from.to_string(), "WB0VGI-7");
    assert!(matches!(tp.inner.data, AprsData::Position(_)));
}

#[test]
fn decode_third_party_message() {
    let tp = AprsThirdParty::parse(b"}W1ABC>APRS,WIDE1-1::DEST     :Hello from third party{123").unwrap();
    assert_eq!(tp.inner.from.to_string(), "W1ABC");
    assert!(matches!(tp.inner.data, AprsData::Message(_)));
}

#[test]
fn third_party_encode_round_trip() {
    let inner = b"}W1ABC>APRS::DEST     :Hello{001";
    let tp = AprsThirdParty::parse(inner).unwrap();
    let encoded = tp.encode().unwrap();
    assert_eq!(encoded.as_slice(), inner.as_slice());
}

#[test]
fn third_party_errors() {
    assert!(matches!(AprsThirdParty::parse(b"}"), Err(aprs_decode::AprsError::EmptyPacket)));
    assert!(AprsThirdParty::parse(b"}garbage").is_err());
}
