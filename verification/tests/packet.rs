use aprs_decode::{AprsData, AprsError, AprsPacket};

const POSITION_PACKET: &[u8] = b"W1AW-9>APRS,WIDE1-1,WIDE2-2:!4903.50N/07201.75W-Test";

const MSG_PACKET: &[u8] = b"KD9ABC>APDR15,qAR,KD9XYZ::W1AW-9   :Hello world{001";

#[test]
fn decode_position_full() {
    let pkt = AprsPacket::decode_textual(POSITION_PACKET).unwrap();
    assert_eq!(pkt.from.to_string(), "W1AW-9");
    assert_eq!(pkt.to.to_string(), "APRS");
    assert_eq!(pkt.via.len(), 2);
    assert!(matches!(pkt.data, AprsData::Position(_)));
}

#[test]
fn decode_message_header() {
    let pkt = AprsPacket::decode_textual(MSG_PACKET).unwrap();
    assert_eq!(pkt.from.to_string(), "KD9ABC");
    assert_eq!(pkt.to.to_string(), "APDR15");
    assert_eq!(pkt.via.len(), 1);
    assert!(matches!(pkt.data, AprsData::Message(_)));
}

#[test]
fn empty_input_error() {
    assert!(AprsPacket::decode_textual(b"").is_err());
}

#[test]
fn missing_arrow_error() {
    assert!(AprsPacket::decode_textual(b"W1AW:!hello").is_err());
}

#[test]
fn missing_colon_error() {
    assert!(AprsPacket::decode_textual(b"W1AW>APRS,WIDE1").is_err());
}

#[test]
fn no_via_path() {
    let pkt = AprsPacket::decode_textual(b"W1AW>APRS:>Status text").unwrap();
    assert!(pkt.via.is_empty());
}

#[test]
fn packet_unknown_dti_preserved() {
    let pkt = AprsPacket::decode_textual(b"W1AW>APRS:~custom data").unwrap();
    #[allow(unreachable_patterns)]
    match &pkt.data {
        AprsData::Unknown { dti, data } => {
            assert_eq!(*dti, b'~');
            assert_eq!(data.as_slice(), b"~custom data");
        }
        _ => panic!("expected Unknown"),
    }
}

#[test]
fn packet_encode_textual_round_trip() {
    let pkt = AprsPacket::decode_textual(POSITION_PACKET).unwrap();
    let encoded = pkt.encode_textual().unwrap();
    assert_eq!(encoded, POSITION_PACKET);
}

#[test]
fn encode_ax25_round_trip() {
    let pkt = AprsPacket::decode_textual(POSITION_PACKET).unwrap();
    let ax25 = pkt.encode_ax25().unwrap();
    let decoded = AprsPacket::decode_ax25(&ax25).unwrap();
    assert_eq!(decoded.from.to_string(), "W1AW-9");
    assert_eq!(decoded.to.to_string(), "APRS");
}

// Further cases of the packet framing.

#[test]
fn empty_input_is_empty_error() {
    assert!(matches!(
        AprsPacket::decode_textual(b""),
        Err(AprsError::EmptyPacket)
    ));
}

#[test]
fn message_packet_encodes_back() {
    let pkt = AprsPacket::decode_textual(MSG_PACKET).unwrap();
    assert_eq!(pkt.encode_textual().unwrap(), MSG_PACKET);
}

#[test]
fn ax25_frame_keeps_info_field() {
    let pkt = AprsPacket::decode_textual(b"W1AW>APRS:>Status text").unwrap();
    let ax25 = pkt.encode_ax25().unwrap();
    let decoded = AprsPacket::decode_ax25(&ax25).unwrap();
    assert_eq!(
        decoded.encode_textual().unwrap(),
        b"W1AW>APRS:>Status text".to_vec()
    );
}

#[test]
fn ax25_frame_with_path_round_trips() {
    let pkt = AprsPacket::decode_textual(POSITION_PACKET).unwrap();
    let ax25 = pkt.encode_ax25().unwrap();
    let decoded = AprsPacket::decode_ax25(&ax25).unwrap();
    assert_eq!(decoded.via.len(), 2);
    assert_eq!(decoded.encode_textual().unwrap(), POSITION_PACKET);
}

#[test]
fn ax25_truncated_frame_is_error() {
    assert!(AprsPacket::decode_ax25(&[0x82, 0xa0]).is_err());
}

#[test]
fn third_party_packet_nests() {
    let pkt = AprsPacket::decode_textual(b"W1AW>APRS:}KD9ABC>APRS:>inner status").unwrap();
    match &pkt.data {
        AprsData::ThirdParty(tp) => {
            assert_eq!(tp.inner.from.to_string(), "KD9ABC");
            assert!(matches!(tp.inner.data, AprsData::Status(_)));
        }
        _ => panic!("expected ThirdParty"),
    }
    assert_eq!(
        pkt.encode_textual().unwrap(),
        b"W1AW>APRS:}KD9ABC>APRS:>inner status".to_vec()
    );
}

#[test]
fn cloned_packet_encodes_the_same() {
    let raw = b"N0CALL>APRS,WIDE1-1:}W1AW>APRS,TCPIP,N0CALL*:!4903.50N/07201.75W-Test";
    let pkt = AprsPacket::decode_textual(raw).unwrap();
    let copy = pkt.clone();
    assert_eq!(copy.encode_textual().unwrap(), pkt.encode_textual().unwrap());
    assert_eq!(copy.from.to_string(), "N0CALL");
}

#[test]
fn aprs_is_line_with_crlf_decodes() {
    let pkt = AprsPacket::decode_textual(b"KD9ABC>APRS:>Net check-in\r\n").unwrap();
    match pkt.data {
        AprsData::Status(s) => assert_eq!(s.comment, b"Net check-in\r\n"),
        other => panic!("unexpected {other:?}"),
    }
}

#[test]
fn aprs_is_server_comment_line_is_rejected() {
    let r = AprsPacket::decode_textual(b"# aprsc 2.1.19-g730c5c0");
    assert!(matches!(r, Err(AprsError::MissingInfoDelimiter)));
}

#[test]
fn aprs_is_server_line_with_colon_is_rejected() {
    let r = AprsPacket::decode_textual(b"# aprsc 2.1.19 13 Mar 2024 18:05:00 GMT T2TEXAS");
    assert!(matches!(r, Err(AprsError::MissingInfoDelimiter)));
}

#[test]
fn trailing_crlf_keeps_every_kind_decoding() {
    for raw in [
        &b"W1AW-9>APRS,WIDE1-1,WIDE2-2:!4903.50N/07201.75W-"[..],
        &b"W1AW>APRS:@282245z3854.24N/10445.93W_090/005g010t072"[..],
        &b"KD9ABC>APDR15,qAR,KD9XYZ::W1AW-9   :Hello world{001"[..],
        &b"W1AW>S32U6T:`(_fn\"Oj/"[..],
        &b"W1AW>APRS:;LEADER   *092345z4903.50N/07201.75W>"[..],
        &b"W1AW>APRS:)AID!4903.50N/07201.75WA"[..],
        &b"W1AW>APRS:_10090556c220s004g005t077"[..],
        &b"W1AW>APRS:T#001,1,2,3,4,5,10101010"[..],
        &b"W1AW>APRS:[IO91SX]"[..],
        &b"N0CALL>APRS:}W1AW>APRS,TCPIP,N0CALL*:>inner"[..],
        &b"W1AW>APRS:"[..],
    ] {
        let p = AprsPacket::decode_textual(raw).unwrap();
        let q = AprsPacket::decode_textual(&[raw, &b"\r\n"[..]].concat()).unwrap();
        assert_eq!(q.from, p.from);
        assert_eq!(q.to, p.to);
        assert_eq!(q.via, p.via);
    }
}
