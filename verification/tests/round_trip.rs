use aprs_decode::AprsPacket;

/// Decode, encode, decode and encode again: the two encodings agree, and the
/// first one is returned.
fn textual_twice(raw: &[u8]) -> Vec<u8> {
    let first = AprsPacket::decode_textual(raw).unwrap();
    let once = first.encode_textual().unwrap();
    let second = AprsPacket::decode_textual(&once).unwrap();
    let twice = second.encode_textual().unwrap();
    assert_eq!(once, twice, "{:?}", String::from_utf8_lossy(raw));
    once
}

/// Through an AX.25 frame and back: the frame decodes to a packet that
/// encodes to the same frame and the same text.
fn ax25_twice(raw: &[u8]) {
    let first = AprsPacket::decode_textual(raw).unwrap();
    let frame = first.encode_ax25().unwrap();
    let back = AprsPacket::decode_ax25(&frame).unwrap();
    assert_eq!(back.encode_ax25().unwrap(), frame);
    assert_eq!(
        back.encode_textual().unwrap(),
        first.encode_textual().unwrap()
    );
}

#[test]
fn round_trip_uncompressed_position() {
    let raw = b"W1AW-9>APRS,WIDE1-1,WIDE2-2:!4903.50N/07201.75W-Test";
    assert_eq!(textual_twice(raw), raw.to_vec());
    ax25_twice(raw);
}

#[test]
fn round_trip_ambiguous_position() {
    let raw = b"W1AW>APRS:!4903.  N/07201.  W-";
    assert_eq!(textual_twice(raw), raw.to_vec());
}

#[test]
fn round_trip_minutes_past_sixty() {
    // 49°75' is written back as 50°15', which decodes to the same place.
    let once = textual_twice(b"W1AW>APRS:!4975.00N/07201.75W-");
    assert_eq!(once, b"W1AW>APRS:!5015.00N/07201.75W-".to_vec());
}

#[test]
fn round_trip_compressed_position() {
    let raw = b"W1AW>APRS:!/5L!!<*e7>7P[";
    assert_eq!(textual_twice(raw), raw.to_vec());
}

#[test]
fn round_trip_timestamped_position() {
    let raw = b"W1AW>APRS:/074849h4821.61N\\01224.49E^322/103/A=003054";
    assert_eq!(textual_twice(raw), raw.to_vec());
}

#[test]
fn round_trip_object_and_item() {
    let obj = b"W1AW>APRS,WIDE2-2:;OBJECT   *092345z4903.50N/07201.75W>";
    assert_eq!(textual_twice(obj), obj.to_vec());
    let item = b"W1AW>APRS:)ITEM!4903.50N/07201.75WA";
    assert_eq!(textual_twice(item), item.to_vec());
}

#[test]
fn round_trip_object_with_extension() {
    let raw = b"W1AW>APRS:;OBJ      *092345z4903.50N/07201.75W>090/036comment";
    assert_eq!(textual_twice(raw), raw.to_vec());
}

#[test]
fn round_trip_weather_and_telemetry() {
    let wx = b"W1AW>APRS:_10071820220/004g005t077r000p000P000h50b09900";
    assert_eq!(textual_twice(wx), wx.to_vec());
    let tm = b"W1AW>APRS:T#015,023,000,255,128,100,11110000,Station data";
    assert_eq!(textual_twice(tm), tm.to_vec());
}

#[test]
fn round_trip_message_status_grid() {
    let msg = b"KD9ABC>APDR15,qAR,KD9XYZ::W1AW-9   :Hello world{001";
    assert_eq!(textual_twice(msg), msg.to_vec());
    let status = b"W1AW>APRS:>312359zSystem online";
    assert_eq!(textual_twice(status), status.to_vec());
    let grid = b"W1AW>APRS:[IO91SX]comment here";
    assert_eq!(textual_twice(grid), grid.to_vec());
}

#[test]
fn round_trip_raw_kinds() {
    for raw in [
        &b"W1AW>APRS:<IGATE,MSG_CNT=10,LOC_CNT=20"[..],
        &b"W1AW>APRS:$GPGGA,123519,4807.038,N,01131.000,E,1,08,0.9,545.4,M,47.0,M,,*47"[..],
        &b"W1AW>APRS:{QXdata"[..],
        &b"W1AW>APRS:~custom data"[..],
        &b"W1AW>APRS:?APRS?"[..],
    ] {
        assert_eq!(textual_twice(raw), raw.to_vec());
    }
}

#[test]
fn round_trip_query_without_second_mark() {
    // `?APRS` gains its closing `?`, which decodes to the same query.
    assert_eq!(textual_twice(b"W1AW>APRS:?APRS"), b"W1AW>APRS:?APRS?".to_vec());
}

#[test]
fn round_trip_third_party() {
    let raw = b"W1AW>APRS:}KD9ABC>APRS,TCPIP*:>inner status";
    assert_eq!(textual_twice(raw), raw.to_vec());
}

#[test]
fn round_trip_mic_e() {
    let raw = b"W1AW>S32U6T:`(_fn\"Oj/Hello";
    textual_twice(raw);
    ax25_twice(raw);
}

#[test]
fn round_trip_q_construct_gateway() {
    // A trailing Q-construct without a gateway is written with `UNKNOWN`.
    let once = textual_twice(b"W1AW>APRS,qAR:>hi");
    assert_eq!(once, b"W1AW>APRS,qAR,UNKNOWN:>hi".to_vec());
}

#[test]
fn round_trip_lowercase_callsign() {
    // Callsigns are stored uppercase; the written form decodes the same.
    let once = textual_twice(b"w1aw-09>aprs:>hi");
    assert_eq!(once, b"W1AW-9>APRS:>hi".to_vec());
}

fn position_units(raw: &[u8]) -> (i64, i64) {
    match AprsPacket::decode_textual(raw).unwrap().data {
        aprs_decode::AprsData::Position(p) => {
            (p.position.latitude.units(), p.position.longitude.units())
        }
        other => panic!("unexpected {other:?}"),
    }
}

#[test]
fn round_trip_small_dao_refinement() {
    let raw = b"W1AW>APRS:!4903.50N/07201.75W-!W41!";
    assert_eq!(textual_twice(raw), raw.to_vec());
    let once = AprsPacket::decode_textual(raw).unwrap().encode_textual().unwrap();
    assert_eq!(position_units(&once), position_units(raw));
}

#[test]
fn round_trip_base91_dao_refinement() {
    let raw = b"W1AW>APRS:!4903.50S/07201.75E-!w:9!";
    let once = AprsPacket::decode_textual(raw).unwrap().encode_textual().unwrap();
    assert_eq!(position_units(&once), position_units(raw));
}

#[test]
fn round_trip_dao_at_reduced_precision() {
    let raw = b"W1AW>APRS:!4903.5 N/07201.7 W-!W99!";
    let once = AprsPacket::decode_textual(raw).unwrap().encode_textual().unwrap();
    assert_eq!(once, raw.to_vec());
    assert_eq!(position_units(&once), position_units(raw));
}

#[test]
fn half_hundredth_dao_refinement_writes_its_base() {
    // With a DAO token, the written coordinates are the base that the token
    // refines, so the written form decodes to the same position.
    let raw = b"W1AW>APRS:!4903.50N/07201.75W-!W55!";
    let once = AprsPacket::decode_textual(raw).unwrap().encode_textual().unwrap();
    assert_eq!(once, raw.to_vec());
    assert_eq!(position_units(&once), position_units(raw));
}

#[test]
fn round_trip_largest_dao_refinement_south_east() {
    let raw = b"W1AW>APRS:!4903.50S/07201.75E-!W99!";
    assert_eq!(textual_twice(raw), raw.to_vec());
    let once = AprsPacket::decode_textual(raw).unwrap().encode_textual().unwrap();
    assert_eq!(position_units(&once), position_units(raw));
}

#[test]
fn round_trip_phg_360_degrees() {
    let raw = b"W1AW>APRS:!4903.50N/07201.75W#PHG5138";
    assert_eq!(textual_twice(raw), raw.to_vec());
}

#[test]
fn round_trip_query_with_trailing_text() {
    let raw = b"W1AW>APRS:?APRS?38.5,-77.0,20,rest";
    assert_eq!(textual_twice(raw), raw.to_vec());
}

#[test]
fn round_trip_mic_e_byonics_suffix() {
    let raw = b"W1AW>S32U6T:`(_fn\"Oj/Hello|3";
    let pkt = AprsPacket::decode_textual(raw).unwrap();
    match &pkt.data {
        aprs_decode::AprsData::MicE(m) => {
            assert_eq!(m.comment, b"Hello");
            assert_eq!(m.device.as_ref().unwrap().model, "TinyTrak3");
        }
        other => panic!("unexpected {other:?}"),
    }
    assert_eq!(textual_twice(raw), raw.to_vec());
}

#[test]
fn ax25_round_trip_keeps_heard_flag() {
    let raw = b"W1AW>APRS,RELAY*,WIDE2-1:>Testing";
    ax25_twice(raw);
    let frame = AprsPacket::decode_textual(raw).unwrap().encode_ax25().unwrap();
    let back = AprsPacket::decode_ax25(&frame).unwrap();
    assert_eq!(back.encode_textual().unwrap(), raw.to_vec());
}

#[test]
fn canonical_message_and_status_are_written_byte_for_byte() {
    for raw in [
        &b"W1AW>APRS::DESTINATI:Hello World! This msg has a : colon {329A7D5Z4"[..],
        &b"W1AW>APRS::BLN3     :Net at 21:00z tonight"[..],
        &b"W1AW>APRS::W1AW-9   :ack001"[..],
        &b"W1AW>APRS:>312359zSystem online"[..],
        &b"W1AW>APRS:>Hi there!"[..],
        &b"W1AW>APRS:>"[..],
    ] {
        assert_eq!(textual_twice(raw), raw.to_vec());
    }
}

#[test]
fn round_trip_unrecognised_q_construct() {
    let raw = b"W1AW>APRS,qAB,N0CALL:>On the air";
    assert_eq!(textual_twice(raw), raw.to_vec());
}
