use aprs_decode::location::altitude_in_comment;
use aprs_decode::lonlat::UNITS_PER_DEGREE;
use aprs_decode::{Altitude, Dao, Position};

fn deg(u: i64) -> f64 {
    u as f64 / UNITS_PER_DEGREE as f64
}

fn close(a: f64, b: f64, eps: f64) -> bool {
    (a - b).abs() <= eps
}

#[test]
fn uncompressed_basic() {
    let (rem, pos) = Position::parse(b"4903.50N/07201.75W-Hello").unwrap();
    assert!(close(deg(pos.latitude.units()), 49.05833333333333, 1e-9));
    assert!(close(deg(pos.longitude.units()), -72.02916666666667, 1e-9));
    assert_eq!(pos.symbol.table, '/');
    assert_eq!(pos.symbol.code, '-');
    assert_eq!(rem.unwrap(), b"Hello");
}

#[test]
fn uncompressed_altitude_in_comment() {
    let (_, pos) = Position::parse(b"4903.50N/07201.75W-/A=003054").unwrap();
    assert_eq!(pos.altitude, Some(Altitude::Feet(3054)));
}

#[test]
fn dao_human_readable_applied() {
    let (_, pos) = Position::parse(b"4903.50N/07201.75W-!W56!").unwrap();
    assert!(close(deg(pos.latitude.units()), 49.05833333333333 + 5.0 / 60_000.0, 1e-9));
    assert!(close(deg(pos.longitude.units()), -72.02916666666667 - 6.0 / 60_000.0, 1e-9));
    assert_eq!(pos.dao, Some(Dao::HumanReadable { lat_digit: 5, lon_digit: 6 }));
}

#[test]
fn uncompressed_encode_round_trip() {
    let raw = b"4903.50N/07201.75W-";
    let (_, pos) = Position::parse(raw).unwrap();
    let mut out = Vec::new();
    pos.encode_uncompressed(&mut out);
    assert_eq!(&out, raw);
}

#[test]
fn altitude_in_comment_extracted() {
    assert_eq!(altitude_in_comment(b"/A=001000extra"), Some(Altitude::Feet(1000)));
}

#[test]
fn compressed_parse_known() {
    let (_, pos) = Position::parse(b"/ABCD#$%^- sT").unwrap();
    assert!(close(deg(pos.latitude.units()), 25.97004667573229, 0.001));
    assert!(close(deg(pos.longitude.units()), -171.95429033460567, 0.001));
    assert_eq!(pos.symbol.table, '/');
    assert_eq!(pos.symbol.code, '-');
}

#[test]
fn dao_base91_applied() {
    let (_, pos) = Position::parse(b"4903.50N/07201.75W-!w\"#!").unwrap();
    // offsets 1 and 2 steps of 1/91 of a hundredth of a minute
    assert_eq!(pos.dao, Some(Dao::Base91 { lat_offset: 1, lon_offset: 2 }));
    let (_, plain) = Position::parse(b"4903.50N/07201.75W-").unwrap();
    assert_eq!(pos.latitude.units() - plain.latitude.units(), 20_930);
    assert_eq!(plain.longitude.units() - pos.longitude.units(), 2 * 20_930);
    assert_eq!(Dao::Base91 { lat_offset: 1, lon_offset: 2 }.offsets_units(), (20_930, 41_860));
}

#[test]
fn dao_find_in_comment() {
    assert_eq!(Dao::find_in_comment(b"xx!W12!yy"), Some(Dao::HumanReadable { lat_digit: 1, lon_digit: 2 }));
    assert_eq!(Dao::find_in_comment(b"!W12"), None);
    assert_eq!(Dao::find_in_comment(b"!w!!!"), Some(Dao::Base91 { lat_offset: 0, lon_offset: 0 }));
}

#[test]
fn altitude_needs_digits_and_utf8() {
    assert_eq!(altitude_in_comment(b"/A=xyz"), None);
    assert_eq!(altitude_in_comment(b"\xff/A=000100"), None);
    assert_eq!(altitude_in_comment(b"no altitude"), None);
    assert_eq!(altitude_in_comment(b"x/A=-00100"), None);
}

#[test]
fn position_errors() {
    assert!(matches!(Position::parse(b""), Err(aprs_decode::AprsError::UnsupportedPositionFormat)));
    assert!(matches!(
        Position::parse(b"4903.50N/07201.75W"),
        Err(aprs_decode::AprsError::TruncatedPacket { expected: 19, got: 18 })
    ));
    assert!(matches!(
        Position::parse(b"/ABCD#$%^-"),
        Err(aprs_decode::AprsError::TruncatedPacket { expected: 13, got: 10 })
    ));
}

#[test]
fn compressed_encode_round_trip() {
    let raw = b"/ABCD#$%^- sT";
    let (_, pos) = Position::parse(raw).unwrap();
    let mut out = Vec::new();
    pos.encode_compressed(&mut out);
    assert_eq!(&out, raw);
}

#[test]
fn bounding_box_of_ambiguous_position() {
    let (_, pos) = Position::parse(b"49  .  N/072  .  W-").unwrap();
    let (lo, hi) = pos.latitude_bounding();
    assert_eq!(hi - lo, UNITS_PER_DEGREE);
    let (lo, hi) = pos.longitude_bounding();
    assert_eq!(hi - lo, UNITS_PER_DEGREE);
}
