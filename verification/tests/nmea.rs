use aprs_decode::AprsNmea;

#[test]
fn nmea_round_trip() {
    let raw = b"$GPGGA,123519,4807.038,N,01131.000,E,1,08,0.9,545.4,M,47.0,M,,*47";
    let n = AprsNmea::parse(raw);
    assert_eq!(
        n.data,
        b"GPGGA,123519,4807.038,N,01131.000,E,1,08,0.9,545.4,M,47.0,M,,*47"
    );
    assert_eq!(n.encode().as_slice(), raw.as_slice());
}

#[test]
fn nmea_empty_field() {
    let n = AprsNmea::parse(b"");
    assert!(n.data.is_empty());
    assert_eq!(n.encode(), b"$");
}
