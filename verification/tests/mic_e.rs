use aprs_decode::lonlat::{UNITS_PER_DEGREE, UNITS_PER_HUNDREDTH_MINUTE, UNITS_PER_MINUTE};
use aprs_decode::mic_e::{decode_speed_course, lookup_byonics_suffix, lookup_device};
use aprs_decode::{AprsError, AprsMicE, Callsign, MicEMessage};

fn callsign(s: &str) -> Callsign {
    Callsign::decode_textual(s.as_bytes()).unwrap()
}

#[test]
fn decode_speed_course_basic() {
    let b = &[b'n', b'"', b'O'];
    let (spd, crs) = decode_speed_course(b).unwrap();
    assert_eq!(spd.knots(), 20);
    assert_eq!(crs.degrees(), 251);
}

#[test]
fn device_lookup_kenwood_thd7a() {
    let dev = lookup_device(b">").unwrap();
    assert_eq!(dev.manufacturer, "Kenwood");
    assert_eq!(dev.model, "TH-D7A");
}

#[test]
fn device_lookup_kenwood_thd72() {
    let dev = lookup_device(b">=").unwrap();
    assert_eq!(dev.manufacturer, "Kenwood");
    assert_eq!(dev.model, "TH-D72");
}

#[test]
fn device_lookup_kenwood_tmd700() {
    let dev = lookup_device(b"]").unwrap();
    assert_eq!(dev.manufacturer, "Kenwood");
    assert_eq!(dev.model, "TM-D700");
}

#[test]
fn device_lookup_yaesu_vx8() {
    let dev = lookup_device(b"_ ").unwrap();
    assert_eq!(dev.manufacturer, "Yaesu");
    assert_eq!(dev.model, "VX-8");
}

#[test]
fn byonics_suffix_detection() {
    let (dev, rest) = lookup_byonics_suffix(b"Hello world!|3").unwrap();
    assert_eq!(dev.manufacturer, "Byonics");
    assert_eq!(dev.model, "TinyTrak3");
    assert_eq!(rest, b"Hello world!");
}

#[test]
fn decode_from_spec_example() {
    let info = br#"`(_fn"Oj/Hello world!"#;
    let to = callsign("PPPPPP");
    let m = AprsMicE::parse(info, &to).unwrap();
    assert!(m.is_current);
    assert_eq!(m.symbol_code, 'j');
    assert_eq!(m.symbol_table, '/');
    assert_eq!(m.comment, b"Hello world!");
    assert!(m.device.is_none());
}

#[test]
fn encode_destination_round_trip() {
    let info = br#"`(_fn"Oj/Hello world!"#;
    let to = callsign("PPPPPP");
    let m = AprsMicE::parse(info, &to).unwrap();
    let reenc_dest = m.encode_destination().unwrap();
    assert_eq!(reenc_dest.as_str(), "PPPPPP");
}

#[test]
fn decode_kenwood_device() {
    let info = br#"`(_fn"Oj/>`"49}Hello"#;
    let to = callsign("S32U6T");
    let m = AprsMicE::parse(info, &to).unwrap();
    let _ = m;
}

#[test]
fn mic_e_spec_example_values() {
    let info = br#"`(_fn"Oj/Hello world!"#;
    let m = AprsMicE::parse(info, &callsign("PPPPPP")).unwrap();
    // PPPPPP: latitude 00°00.00' N, message M0
    assert_eq!(m.latitude.units(), 0);
    assert_eq!(m.message, MicEMessage::M0);
    // `(_f`: degrees 40-28 = 12, plus 100 from the destination's fifth byte,
    // minutes 95-28-60 = 7, hundredths 102-28 = 74 (west)
    assert_eq!(
        m.longitude.units(),
        -(112 * UNITS_PER_DEGREE + 7 * UNITS_PER_MINUTE + 74 * UNITS_PER_HUNDREDTH_MINUTE)
    );
    assert_eq!(m.speed.knots(), 20);
    assert_eq!(m.course.degrees(), 251);
}

#[test]
fn mic_e_altitude_and_device() {
    let info = br#"`(_fn"Oj/>`"49}Hello"#;
    let m = AprsMicE::parse(info, &callsign("S32U6T")).unwrap();
    // the three bytes before `}` are `"49`: ((1 * 91) + 19) * 91 + 24 - 10000 = 34 m
    assert_eq!(m.altitude_m, Some(34));
    assert_eq!(m.raw_mfg.as_deref(), Some(b">`".as_slice()));
    let dev = m.device.as_ref().unwrap();
    assert_eq!(dev.manufacturer, "Kenwood");
    assert_eq!(dev.model, "TH-D7A");
    assert_eq!(m.comment, b"Hello");
    assert_eq!(m.encode(), info.to_vec());
}

#[test]
fn mic_e_encode_round_trip() {
    let info = br#"`(_fn"Oj/Hello world!"#;
    let m = AprsMicE::parse(info, &callsign("PPPPPP")).unwrap();
    assert_eq!(m.encode(), info.to_vec());
}

#[test]
fn mic_e_errors() {
    assert!(matches!(AprsMicE::parse(b"", &callsign("PPPPPP")), Err(AprsError::EmptyPacket)));
    assert!(matches!(
        AprsMicE::parse(b"`(_fn", &callsign("PPPPPP")),
        Err(AprsError::MicETooShort { len: 5 })
    ));
    assert!(matches!(
        AprsMicE::parse(br#"`(_fn"Oj/"#, &callsign("APRS")),
        Err(AprsError::InvalidMicEDestination { .. })
    ));
}

#[test]
fn mic_e_course_unknown() {
    assert_eq!(aprs_decode::MicECourse::unknown().degrees(), 0);
}
