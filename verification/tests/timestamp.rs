use aprs_decode::{AprsError, Timestamp};

#[test]
fn parse_ddhhmm() {
    assert_eq!(Timestamp::parse(b"092345z").unwrap(), Timestamp::Ddhhmm(9, 23, 45));
}

#[test]
fn parse_hhmmss() {
    assert_eq!(Timestamp::parse(b"074849h").unwrap(), Timestamp::Hhmmss(7, 48, 49));
}

#[test]
fn parse_local_unsupported() {
    assert!(matches!(Timestamp::parse(b"092345/").unwrap(), Timestamp::Unsupported(_)));
}

#[test]
fn parse_nonstandard_designator_preserved() {
    let ts = Timestamp::parse(b"291500#").unwrap();
    assert!(matches!(ts, Timestamp::Unsupported(_)));
    let mut out = Vec::new();
    ts.encode(&mut out);
    assert_eq!(out, b"291500#");
}

#[test]
fn day_zero_invalid() {
    assert!(Timestamp::parse(b"002345z").is_err());
}

#[test]
fn day_32_invalid() {
    assert!(Timestamp::parse(b"322345z").is_err());
}

#[test]
fn hour_24_invalid() {
    assert!(Timestamp::parse(b"092445z").is_err());
}

#[test]
fn minute_60_invalid() {
    assert!(Timestamp::parse(b"092360z").is_err());
}

#[test]
fn second_60_invalid() {
    assert!(Timestamp::parse(b"074860h").is_err());
}

#[test]
fn encode_round_trip_ddhhmm() {
    let ts = Timestamp::Ddhhmm(9, 23, 45);
    let mut out = Vec::new();
    ts.encode(&mut out);
    assert_eq!(Timestamp::parse(&out).unwrap(), ts);
}

#[test]
fn encode_round_trip_hhmmss() {
    let ts = Timestamp::Hhmmss(7, 48, 49);
    let mut out = Vec::new();
    ts.encode(&mut out);
    assert_eq!(Timestamp::parse(&out).unwrap(), ts);
}

#[test]
fn timestamp_error_variants() {
    assert!(matches!(Timestamp::parse(b"002345z"), Err(AprsError::TimestampDayOutOfRange { day: 0 })));
    assert!(matches!(Timestamp::parse(b"092445z"), Err(AprsError::TimestampHourOutOfRange { hour: 24 })));
    assert!(matches!(Timestamp::parse(b"092360z"), Err(AprsError::TimestampMinuteOutOfRange { minute: 60 })));
    assert!(matches!(Timestamp::parse(b"074860h"), Err(AprsError::TimestampSecondOutOfRange { second: 60 })));
    assert!(matches!(Timestamp::parse(b"09234"), Err(AprsError::InvalidTimestampFormat { .. })));
    assert!(matches!(Timestamp::parse(b"09x345z"), Err(AprsError::InvalidTimestampFormat { .. })));
}

#[test]
fn timestamp_uppercase_designators() {
    assert_eq!(Timestamp::parse(b"092345Z").unwrap(), Timestamp::Ddhhmm(9, 23, 45));
    assert_eq!(Timestamp::parse(b"074849H").unwrap(), Timestamp::Hhmmss(7, 48, 49));
}
