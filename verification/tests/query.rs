use aprs_decode::AprsQuery;

fn num(t: &[u8]) -> f64 {
    std::str::from_utf8(t).unwrap().parse().unwrap()
}

#[test]
fn simple_aprs_query() {
    let q = AprsQuery::parse(b"?APRS?");
    assert_eq!(q.query_type, b"APRS");
    assert!(q.footprint.is_none());
}

#[test]
fn query_with_footprint() {
    let q = AprsQuery::parse(b"?APRS?49.0,-72.0,10");
    assert_eq!(q.query_type, b"APRS");
    let fp = q.footprint.unwrap();
    assert!((num(&fp.latitude) - 49.0).abs() < 0.01);
    assert!((num(&fp.longitude) - -72.0).abs() < 0.01);
    assert!((num(&fp.radius_km) - 10.0).abs() < 0.01);
}

#[test]
fn no_second_question_mark() {
    let q = AprsQuery::parse(b"?APRS");
    assert_eq!(q.query_type, b"APRS");
}

#[test]
fn query_encode_round_trip() {
    let raw = b"?IGATE?";
    let q = AprsQuery::parse(raw);
    assert_eq!(q.encode().as_slice(), raw.as_slice());
}

#[test]
fn query_footprint_trailing_and_invalid() {
    let q = AprsQuery::parse(b"?APRS? 49.5 ,-72,10,extra,more");
    let fp = q.footprint.as_ref().unwrap();
    assert_eq!(fp.latitude, b"49.5");
    assert_eq!(q.trailing, b"extra,more");
    let q = AprsQuery::parse(b"?APRS?49,x,10");
    assert!(q.footprint.is_none());
    assert_eq!(q.trailing, b"49,x,10");
    assert_eq!(q.encode(), b"?APRS?49,x,10");
}
