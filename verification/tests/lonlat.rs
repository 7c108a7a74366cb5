use aprs_decode::lonlat::{base91_decode4, UNITS_PER_DEGREE};
use aprs_decode::{Latitude, Longitude, Precision};

fn deg(u: i64) -> f64 {
    u as f64 / UNITS_PER_DEGREE as f64
}

fn close(a: f64, b: f64, eps: f64) -> bool {
    (a - b).abs() <= eps
}

#[test]
fn lat_uncompressed_basic() {
    let (lat, prec) = Latitude::parse_uncompressed(b"4903.50N").unwrap();
    assert!(close(deg(lat.units()), 49.05833333333333, 1e-9));
    assert_eq!(prec, Precision::HundredthMinute);
}

#[test]
fn lat_uncompressed_south() {
    let (lat, _) = Latitude::parse_uncompressed(b"4903.50S").unwrap();
    assert!(close(deg(lat.units()), -49.05833333333333, 1e-9));
}

#[test]
fn lat_ambiguity_one_tenth() {
    let (lat, prec) = Latitude::parse_uncompressed(b"4903.5 N").unwrap();
    assert_eq!(prec, Precision::TenthMinute);
    assert!(close(deg(lat.units()), 49.05833333333333, 1e-4));
}

#[test]
fn lat_ambiguity_one_minute() {
    let (lat, prec) = Latitude::parse_uncompressed(b"4903.  N").unwrap();
    assert_eq!(prec, Precision::OneMinute);
    assert!(close(deg(lat.units()), 49.05, 1e-4));
}

#[test]
fn lat_invalid_direction() {
    assert!(Latitude::parse_uncompressed(b"4903.50W").is_err());
}

#[test]
fn lat_out_of_range() {
    // 90.1 degrees either way
    let over = 90 * UNITS_PER_DEGREE + UNITS_PER_DEGREE / 10;
    assert!(Latitude::from_units(over).is_none());
    assert!(Latitude::from_units(-over).is_none());
    assert!(Latitude::from_units(90 * UNITS_PER_DEGREE).is_some());
}

#[test]
fn lon_uncompressed_east() {
    let lon = Longitude::parse_uncompressed(b"07201.75E", Precision::default()).unwrap();
    assert!(close(deg(lon.units()), 72.02916666666667, 1e-9));
}

#[test]
fn lon_uncompressed_west() {
    let lon = Longitude::parse_uncompressed(b"07201.75W", Precision::default()).unwrap();
    assert!(close(deg(lon.units()), -72.02916666666667, 1e-9));
}

#[test]
fn lon_invalid_direction() {
    assert!(Longitude::parse_uncompressed(b"07201.75N", Precision::default()).is_err());
}

#[test]
fn lat_encode_round_trip() {
    let (lat, prec) = Latitude::parse_uncompressed(b"4903.50N").unwrap();
    let mut out = Vec::new();
    lat.encode_uncompressed(&mut out, prec);
    assert_eq!(out, b"4903.50N");
}

#[test]
fn lon_encode_round_trip() {
    let lon = Longitude::parse_uncompressed(b"07201.75W", Precision::default()).unwrap();
    let mut out = Vec::new();
    lon.encode_uncompressed(&mut out);
    assert_eq!(out, b"07201.75W");
}

#[test]
fn compressed_lat_round_trip() {
    let original = Latitude::from_units((49.05833 * UNITS_PER_DEGREE as f64) as i64).unwrap();
    let mut enc = Vec::new();
    original.encode_compressed(&mut enc);
    assert_eq!(enc.len(), 4);
    let decoded = Latitude::parse_compressed(&enc).unwrap();
    assert!(close(deg(decoded.units()), deg(original.units()), 0.001));
}

#[test]
fn compressed_lon_round_trip() {
    let original = Longitude::from_units((-72.029 * UNITS_PER_DEGREE as f64) as i64).unwrap();
    let mut enc = Vec::new();
    original.encode_compressed(&mut enc);
    assert_eq!(enc.len(), 4);
    let decoded = Longitude::parse_compressed(&enc).unwrap();
    assert!(close(deg(decoded.units()), deg(original.units()), 0.001));
}

#[test]
fn base91_decode4_known() {
    let val = base91_decode4(b"#$%^").unwrap();
    assert_eq!(val, 1532410);
}

#[test]
fn lat_ambiguity_encode_keeps_blanks() {
    let (lat, prec) = Latitude::parse_uncompressed(b"49  .  N").unwrap();
    assert_eq!(prec, Precision::OneDegree);
    let mut out = Vec::new();
    lat.encode_uncompressed(&mut out, prec);
    assert_eq!(out, b"49  .  N");
}

#[test]
fn lat_digit_after_blank_rejected() {
    assert!(Latitude::parse_uncompressed(b"4 03.50N").is_err());
    assert!(Latitude::parse_uncompressed(b"9100.00N").is_err());
}

#[test]
fn dmh_decomposition() {
    let (lat, _) = Latitude::parse_uncompressed(b"4903.50S").unwrap();
    assert_eq!(lat.dmh(), (49, 3, 50, false));
    let lon = Longitude::parse_uncompressed(b"07201.75E", Precision::default()).unwrap();
    assert_eq!(lon.dmh(), (72, 1, 75, true));
}

#[test]
fn precision_range_is_centred() {
    let (lo, hi) = Precision::OneDegree.range(10 * UNITS_PER_DEGREE);
    assert_eq!(hi - lo, UNITS_PER_DEGREE);
    assert_eq!(lo + hi, 20 * UNITS_PER_DEGREE);
}
