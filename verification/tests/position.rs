use aprs_decode::lonlat::UNITS_PER_DEGREE;
use aprs_decode::{Altitude, AprsPosition, Extension, Timestamp};

fn deg(u: i64) -> f64 {
    u as f64 / UNITS_PER_DEGREE as f64
}

fn close(a: f64, b: f64, eps: f64) -> bool {
    (a - b).abs() <= eps
}

#[test]
fn no_timestamp_no_messaging() {
    let pos = AprsPosition::parse(b"!4903.50N/07201.75W-").unwrap();
    assert!(pos.timestamp.is_none());
    assert!(!pos.messaging_supported);
    assert!(close(deg(pos.position.latitude.units()), 49.05833333333333, 1e-9));
    assert!(close(deg(pos.position.longitude.units()), -72.02916666666667, 1e-9));
    assert_eq!(pos.comment, b"");
}

#[test]
fn no_timestamp_with_messaging() {
    let pos = AprsPosition::parse(b"=4903.50N/07201.75W-").unwrap();
    assert!(pos.timestamp.is_none());
    assert!(pos.messaging_supported);
}

#[test]
fn with_timestamp_no_messaging() {
    let pos = AprsPosition::parse(b"/074849h4821.61N\\01224.49E^322/103/A=003054").unwrap();
    assert_eq!(pos.timestamp.unwrap(), Timestamp::Hhmmss(7, 48, 49));
    assert!(!pos.messaging_supported);
    assert!(close(deg(pos.position.latitude.units()), 48.36016666666667, 1e-9));
    assert!(close(deg(pos.position.longitude.units()), 12.408166666666666, 1e-9));
    assert_eq!(pos.position.symbol.table, '\\');
    assert_eq!(pos.position.symbol.code, '^');
    assert_eq!(pos.comment, b"322/103/A=003054");
}

#[test]
fn with_timestamp_and_messaging() {
    let pos = AprsPosition::parse(b"@074849h4821.61N\\01224.49E^322/103/A=003054").unwrap();
    assert!(pos.timestamp.is_some());
    assert!(pos.messaging_supported);
}

#[test]
fn with_comment_and_altitude() {
    let pos = AprsPosition::parse(b"!4903.50N/07201.75W-Hello/A=001000").unwrap();
    assert_eq!(pos.comment, b"Hello/A=001000");
    assert!(pos.position.altitude.is_some());
}

#[test]
fn extension_course_speed_parsed() {
    let pos = AprsPosition::parse(b"/074849h4821.61N\\01224.49E^322/103/A=003054").unwrap();
    assert!(pos.extension.is_some());
    assert!(matches!(
        pos.extension.unwrap(),
        Extension::DirectionSpeed { direction_degrees: 322, speed_knots: 103 }
    ));
}

#[test]
fn compressed_no_timestamp() {
    let pos = AprsPosition::parse(b"!/ABCD#$%^- sT").unwrap();
    assert!(pos.timestamp.is_none());
    assert!(close(deg(pos.position.latitude.units()), 25.97004667573229, 0.001));
    assert!(close(deg(pos.position.longitude.units()), -171.95429033460567, 0.001));
}

#[test]
fn encode_round_trip_uncompressed() {
    let raw = b"!4903.50N/07201.75W-";
    let pos = AprsPosition::parse(raw).unwrap();
    let encoded = pos.encode();
    assert_eq!(&encoded, raw);
}

#[test]
fn encode_round_trip_with_timestamp() {
    let raw = b"/074849h4821.61N\\01224.49E^322/103/A=003054";
    let pos = AprsPosition::parse(raw).unwrap();
    let encoded = pos.encode();
    assert_eq!(encoded, raw);
}

#[test]
fn encode_round_trip_compressed() {
    let raw = b"!/ABCD#$%^- sT";
    let pos = AprsPosition::parse(raw).unwrap();
    let encoded = pos.encode();
    assert_eq!(&encoded, raw);
}

#[test]
fn position_timestamp_validates_strictly() {
    let err = AprsPosition::parse(b"/092460z4903.50N/07201.75W-");
    assert!(err.is_err());
}

#[test]
fn position_altitude_value() {
    let pos = AprsPosition::parse(b"!4903.50N/07201.75W-Hello/A=001000").unwrap();
    assert_eq!(pos.position.altitude, Some(Altitude::Feet(1000)));
}

#[test]
fn position_report_errors() {
    assert!(matches!(AprsPosition::parse(b""), Err(aprs_decode::AprsError::EmptyPacket)));
    assert!(matches!(
        AprsPosition::parse(b"@0748"),
        Err(aprs_decode::AprsError::TruncatedPacket { expected: 8, got: 5 })
    ));
}

#[test]
fn position_weather_symbol_reads_weather() {
    let pos = AprsPosition::parse(b"!4903.50N/07201.75W_220/004g005t077").unwrap();
    let wx = pos.weather.unwrap();
    assert_eq!(wx.wind_direction.unwrap().degrees(), 220);
    assert_eq!(wx.temperature.unwrap().fahrenheit(), 77);
}

#[test]
fn position_frequency_text() {
    let pos = AprsPosition::parse(b"!4903.50N/07201.75Wk146.520MHz T100").unwrap();
    assert_eq!(pos.frequency_mhz.as_deref(), Some(b"146.520".as_slice()));
}
