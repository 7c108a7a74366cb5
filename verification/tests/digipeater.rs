use aprs_decode::digipeater::parse_via;
use aprs_decode::{Digipeater, QConstruct};

#[test]
fn callsign_no_heard() {
    let d = Digipeater::decode_textual(b"WIDE2-2").unwrap();
    assert!(matches!(d, Digipeater::Callsign(_, false)));
}

#[test]
fn callsign_heard() {
    let d = Digipeater::decode_textual(b"RELAY*").unwrap();
    assert!(matches!(d, Digipeater::Callsign(_, true)));
}

#[test]
fn via_list_simple() {
    let via = parse_via(b"WIDE1-1,WIDE2-2").unwrap();
    assert_eq!(via.len(), 2);
}

#[test]
fn via_list_with_q_construct() {
    let via = parse_via(b"RELAY*,qAR,KD9ABC").unwrap();
    assert_eq!(via.len(), 2);
    assert!(matches!(&via[1], Digipeater::QConstruct(QConstruct::Ar, _)));
}

#[test]
fn via_list_empty() {
    let via = parse_via(b"").unwrap();
    assert!(via.is_empty());
}

#[test]
fn digipeater_encode_round_trip() {
    let via = parse_via(b"WIDE1-1,RELAY*").unwrap();
    let mut out = Vec::new();
    for (i, d) in via.iter().enumerate() {
        if i > 0 {
            out.push(b',');
        }
        d.encode_textual(&mut out);
    }
    assert_eq!(out, b"WIDE1-1,RELAY*");
}

#[test]
fn q_construct_gateway_paired() {
    let via = parse_via(b"qAC,T2TEXAS").unwrap();
    assert_eq!(via.len(), 1);
    match &via[0] {
        Digipeater::QConstruct(q, gw) => {
            assert_eq!(*q, QConstruct::Ac);
            assert_eq!(gw.to_string(), "T2TEXAS");
        }
        _ => panic!("expected a Q-construct"),
    }
    let mut out = Vec::new();
    via[0].encode_textual(&mut out);
    assert_eq!(out, b"qAC,T2TEXAS");
}

#[test]
fn q_construct_without_gateway_uses_placeholder() {
    let via = parse_via(b"qAR").unwrap();
    match &via[0] {
        Digipeater::QConstruct(QConstruct::Ar, gw) => assert_eq!(gw.to_string(), "UNKNOWN"),
        _ => panic!("expected a Q-construct"),
    }
}

#[test]
fn unknown_q_construct_kept_as_text() {
    let d = Digipeater::decode_textual(b"qAQ").unwrap();
    match d {
        Digipeater::QConstruct(QConstruct::Unknown(s), _) => assert_eq!(s, "qAQ"),
        _ => panic!("expected an unknown Q-construct"),
    }
    assert_eq!(QConstruct::Unknown("qAQ".to_string()).to_string(), "qAQ");
    assert_eq!(QConstruct::Ar.to_string(), "qAR");
}

#[test]
fn invalid_via_element_reported() {
    assert!(matches!(
        parse_via(b"WIDE1-1,BAD-99"),
        Err(aprs_decode::AprsError::InvalidVia { raw }) if raw == b"BAD-99"
    ));
    assert!(matches!(
        parse_via(b"qAR,BAD-99"),
        Err(aprs_decode::AprsError::InvalidVia { raw }) if raw == b"BAD-99"
    ));
}

#[test]
fn digipeater_to_string() {
    let d = Digipeater::decode_textual(b"RELAY*").unwrap();
    assert_eq!(d.to_string(), "RELAY*");
}

#[test]
fn unknown_q_construct_with_invalid_utf8_is_replaced() {
    match QConstruct::from_bytes(b"qA\xff") {
        QConstruct::Unknown(s) => assert_eq!(s, "qA\u{FFFD}"),
        other => panic!("unexpected {other:?}"),
    }
}
