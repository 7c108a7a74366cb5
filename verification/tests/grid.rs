use aprs_decode::lonlat::UNITS_PER_DEGREE;
use aprs_decode::AprsGridLocator;

#[test]
fn parse_4char() {
    let g = AprsGridLocator::parse(b"[IO91]").unwrap();
    assert_eq!(g.grid, b"IO91");
    assert!(g.comment.is_empty());
}

#[test]
fn parse_6char_with_comment() {
    let g = AprsGridLocator::parse(b"[IO91SX]comment here").unwrap();
    assert_eq!(g.grid, b"IO91SX");
    assert_eq!(g.comment, b"comment here");
}

#[test]
fn parse_missing_bracket() {
    assert!(AprsGridLocator::parse(b"[IO91SX").is_err());
}

#[test]
fn parse_bad_length() {
    assert!(AprsGridLocator::parse(b"[IO9]").is_err());
}

#[test]
fn to_position_4char() {
    let g = AprsGridLocator { grid: b"JO22".to_vec(), comment: vec![] };
    let (lat, lon) = g.to_position().unwrap();
    // JO22 centre: lon = 9*20 + 2*2 + 1 - 180 = 5°, lat = 14*10 + 2 + 0.5 - 90 = 52.5°
    assert_eq!(lat.units(), 52 * UNITS_PER_DEGREE + UNITS_PER_DEGREE / 2);
    assert_eq!(lon.units(), 5 * UNITS_PER_DEGREE);
}

#[test]
fn to_position_6char() {
    let g = AprsGridLocator { grid: b"FN31pr".to_vec(), comment: vec![] };
    let (lat, lon) = g.to_position().unwrap();
    assert!(lat.units() > 41 * UNITS_PER_DEGREE && lat.units() < 42 * UNITS_PER_DEGREE);
    assert!(lon.units() > -73 * UNITS_PER_DEGREE && lon.units() < -72 * UNITS_PER_DEGREE);
}

#[test]
fn grid_encode_round_trip() {
    let raw = b"[IO91SX]Hello";
    let g = AprsGridLocator::parse(raw).unwrap();
    assert_eq!(g.encode().as_slice(), raw.as_slice());
}

#[test]
fn grid_lowercase_square_rejected() {
    assert!(AprsGridLocator::parse(b"[io91]").is_err());
    assert!(AprsGridLocator::parse(b"[IO9A]").is_err());
    assert!(AprsGridLocator::parse(b"[IO91S1]").is_err());
}

#[test]
fn grid_to_position_exact_6char() {
    // FN31pr: lon = 5*20 + 3*2 + 15*(2/24) + 1/24 - 180, lat = 13*10 + 1 + 17/24 + 1/48 - 90
    let g = AprsGridLocator { grid: b"FN31pr".to_vec(), comment: vec![] };
    let (lat, lon) = g.to_position().unwrap();
    let upd = UNITS_PER_DEGREE;
    assert_eq!(lat.units(), 41 * upd + 17 * (upd / 24) + upd / 48);
    assert_eq!(lon.units(), -74 * upd + 15 * (upd / 12) + upd / 24);
}

#[test]
fn grid_short_locator_has_no_position() {
    let g = AprsGridLocator { grid: b"JO".to_vec(), comment: vec![] };
    assert!(g.to_position().is_none());
}

#[test]
fn grid_out_of_range_locator_has_no_position() {
    let g = AprsGridLocator { grid: b"ZZ99".to_vec(), comment: vec![] };
    assert!(g.to_position().is_none());
}
