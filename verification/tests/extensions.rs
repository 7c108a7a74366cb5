use aprs_decode::{Directivity, Extension};

#[test]
fn direction_speed() {
    let ext = Extension::parse(b"322/103").unwrap();
    assert!(matches!(
        ext,
        Extension::DirectionSpeed { direction_degrees: 322, speed_knots: 103 }
    ));
}

#[test]
fn direction_speed_encode_round_trip() {
    let ext = Extension::DirectionSpeed { direction_degrees: 322, speed_knots: 103 };
    let mut out = Vec::new();
    ext.encode(&mut out);
    assert_eq!(out, b"322/103");
    assert_eq!(Extension::parse(&out).unwrap(), ext);
}

#[test]
fn rng_parse() {
    let ext = Extension::parse(b"RNG0050").unwrap();
    assert!(matches!(ext, Extension::Rng { range_miles: 50 }));
}

#[test]
fn too_short_returns_none() {
    assert!(Extension::parse(b"12/1").is_none());
}

#[test]
fn phg_valid() {
    let ext = Extension::parse(b"PHG5132").unwrap();
    assert!(matches!(ext, Extension::Phg { .. }));
}

#[test]
fn phg_nondigit_height_returns_none() {
    assert!(Extension::parse(b"PHG0z00").is_none());
}

#[test]
fn dfs_nondigit_height_returns_none() {
    assert!(Extension::parse(b"DFS0z00").is_none());
}

#[test]
fn phg_max_digit_height_no_panic() {
    let ext = Extension::parse(b"PHG0900").unwrap();
    assert!(matches!(ext, Extension::Phg { antenna_height_feet: 5120, .. }));
}

#[test]
fn require_reports_missing_extension() {
    assert!(matches!(
        Extension::require(b"hello"),
        Err(aprs_decode::AprsError::UnsupportedPositionFormat)
    ));
    assert!(Extension::require(b"RNG0050").is_ok());
}

#[test]
fn directivity_digits() {
    assert!(matches!(Extension::parse(b"PHG5130").unwrap(), Extension::Phg { directivity: Directivity::Omni, .. }));
}

#[test]
fn phg_directivity_360_encodes_as_digit_8() {
    let e = Extension::parse(b"PHG5138").unwrap();
    match e {
        Extension::Phg { directivity, .. } => assert_eq!(directivity, Directivity::Degrees(360)),
        other => panic!("unexpected {other:?}"),
    }
    let mut out = Vec::new();
    e.encode(&mut out);
    assert_eq!(out, b"PHG5138".to_vec());
}
