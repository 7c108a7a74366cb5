use aprs_decode::lonlat::UNITS_PER_DEGREE;
use aprs_decode::{AprsError, AprsItem};

fn deg(u: i64) -> f64 {
    u as f64 / UNITS_PER_DEGREE as f64
}

fn close(a: f64, b: f64, eps: f64) -> bool {
    (a - b).abs() <= eps
}

#[test]
fn parse_live_item() {
    let item = AprsItem::parse(b")AIDV#2!4903.50N/07201.75WA").unwrap();
    assert_eq!(item.name, b"AIDV#2");
    assert!(item.live);
    assert!(close(deg(item.position.latitude.units()), 49.05833333333333, 1e-9));
    assert!(close(deg(item.position.longitude.units()), -72.02916666666667, 1e-9));
    assert_eq!(item.position.symbol.table, '/');
    assert_eq!(item.position.symbol.code, 'A');
}

#[test]
fn parse_dead_item() {
    let item = AprsItem::parse(b")AID 4903.50N/07201.75WA").unwrap();
    assert_eq!(item.name, b"AID");
    assert!(!item.live);
}

#[test]
fn item_parse_with_extension() {
    let item = AprsItem::parse(b")AID 4903.50N/07201.75WAPHG5132").unwrap();
    assert!(item.extension.is_some());
    assert!(item.comment.is_empty());
}

#[test]
fn parse_compressed_item() {
    let item = AprsItem::parse(b")MOBIL!\\5L!!<*e79 sT").unwrap();
    assert_eq!(item.name, b"MOBIL");
    assert!(item.live);
    assert!(close(deg(item.position.latitude.units()), 49.5, 0.01));
}

#[test]
fn name_too_short() {
    assert!(AprsItem::parse(b")AB!4903.50N/07201.75WA").is_err());
}

#[test]
fn item_encode_round_trip_live() {
    let raw = b")AIDV#2!4903.50N/07201.75WA";
    let item = AprsItem::parse(raw).unwrap();
    assert_eq!(item.encode(), raw);
}

#[test]
fn encode_round_trip_dead() {
    let raw = b")AID 4903.50N/07201.75WA";
    let item = AprsItem::parse(raw).unwrap();
    assert_eq!(item.encode(), raw);
}

#[test]
fn encode_round_trip_with_extension() {
    let raw = b")AID 4903.50N/07201.75WAPHG5132";
    let item = AprsItem::parse(raw).unwrap();
    assert_eq!(item.encode(), raw);
}

#[test]
fn item_errors() {
    assert!(matches!(AprsItem::parse(b")AB"), Err(AprsError::InvalidItem { detail: "packet too short" })));
    assert!(matches!(
        AprsItem::parse(b")AB!4903.50N/07201.75WA"),
        Err(AprsError::InvalidItem { detail: "name too short (< 3 chars)" })
    ));
    assert!(matches!(
        AprsItem::parse(b")ABCDEFGHIJK4903.50N/07201.75WA"),
        Err(AprsError::InvalidItem { detail: "liveness byte not found" })
    ));
}

#[test]
fn nine_character_item_name_is_accepted() {
    let it = AprsItem::parse(b")ABCDEFGHI!4903.50N/07201.75WA").unwrap();
    assert_eq!(it.name, b"ABCDEFGHI");
    assert!(it.live);
    assert_eq!(it.position.symbol.table, '/');
    assert_eq!(it.position.symbol.code, 'A');
    assert_eq!(it.encode(), b")ABCDEFGHI!4903.50N/07201.75WA".to_vec());
}

#[test]
fn ten_character_item_name_is_rejected() {
    let r = AprsItem::parse(b")ABCDEFGHIJ!4903.50N/07201.75WA");
    assert!(matches!(r, Err(AprsError::InvalidItem { .. })));
}
