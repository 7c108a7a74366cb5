use aprs_decode::lonlat::UNITS_PER_DEGREE;
use aprs_decode::{AprsError, AprsObject, Timestamp};

const LIVE_OBJ: &[u8] =
    b";HFEST-18H*170403z3443.55N\\08635.47Wh146.940MHz T100 Huntsville Hamfest";

fn deg(u: i64) -> f64 {
    u as f64 / UNITS_PER_DEGREE as f64
}

fn close(a: f64, b: f64, eps: f64) -> bool {
    (a - b).abs() <= eps
}

#[test]
fn parse_live_object() {
    let o = AprsObject::parse(LIVE_OBJ).unwrap();
    assert_eq!(o.name, b"HFEST-18H");
    assert!(o.live);
    assert_eq!(o.timestamp, Timestamp::Ddhhmm(17, 4, 3));
    assert!(close(deg(o.position.latitude.units()), 34.725833333333334, 1e-9));
    assert!(close(deg(o.position.longitude.units()), -86.59116666666667, 1e-9));
    assert_eq!(o.position.symbol.table, '\\');
    assert_eq!(o.position.symbol.code, 'h');
    assert_eq!(o.comment, b"146.940MHz T100 Huntsville Hamfest");
}

#[test]
fn parse_dead_object_space_liveness() {
    let o = AprsObject::parse(b";HFEST     170403z3443.55N\\08635.47Wh").unwrap();
    assert_eq!(o.name, b"HFEST");
    assert!(!o.live);
}

#[test]
fn parse_dead_object_underscore_liveness() {
    let o = AprsObject::parse(b";HFEST    _170403z3443.55N\\08635.47Wh").unwrap();
    assert_eq!(o.name, b"HFEST");
    assert!(!o.live);
}

#[test]
fn object_parse_with_extension() {
    let o = AprsObject::parse(b";HFEST    _170403z3443.55N\\08635.47WhPHG5132Comment").unwrap();
    assert!(o.extension.is_some());
}

#[test]
fn parse_compressed_object() {
    let o = AprsObject::parse(b";CAR      _092345z/5L!!<*e7>7P[Moving to the north").unwrap();
    assert_eq!(o.name, b"CAR");
    assert!(!o.live);
    assert!(close(deg(o.position.latitude.units()), 49.5, 0.01));
    assert_eq!(o.comment, b"Moving to the north");
}

#[test]
fn object_encode_round_trip_live() {
    let o = AprsObject::parse(LIVE_OBJ).unwrap();
    assert_eq!(o.encode(), LIVE_OBJ);
}

#[test]
fn object_timestamp_validates_strictly() {
    assert!(AprsObject::parse(b";HFEST-18H*002345z3443.55N\\08635.47Wh").is_err());
}

#[test]
fn object_errors() {
    assert!(matches!(
        AprsObject::parse(b";HFEST"),
        Err(AprsError::InvalidObject { detail: "packet too short" })
    ));
    assert!(matches!(
        AprsObject::parse(b";HFEST-18H#170403z3443.55N\\08635.47Wh"),
        Err(AprsError::InvalidObject { detail: "invalid liveness byte" })
    ));
}

#[test]
fn object_frequency_text() {
    let o = AprsObject::parse(LIVE_OBJ).unwrap();
    assert_eq!(o.frequency_mhz.as_deref(), Some(b"146.940".as_slice()));
}

#[test]
fn object_with_extension_encodes_it_back() {
    let raw = b";HFEST    _170403z3443.55N\\08635.47WhPHG5132Comment";
    let o = AprsObject::parse(raw).unwrap();
    assert_eq!(o.comment, b"Comment");
    assert_eq!(o.encode(), raw.to_vec());
}
