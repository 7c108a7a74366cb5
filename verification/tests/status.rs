use aprs_decode::{AprsStatus, Timestamp};

#[test]
fn no_timestamp_no_comment() {
    let s = AprsStatus::parse(b">").unwrap();
    assert!(s.timestamp.is_none());
    assert!(s.comment.is_empty());
}

#[test]
fn with_ddhhmm_timestamp() {
    let s = AprsStatus::parse(b">312359zSystem online").unwrap();
    assert_eq!(s.timestamp, Some(Timestamp::Ddhhmm(31, 23, 59)));
    assert_eq!(s.comment, b"System online");
}

#[test]
fn with_hhmmss_timestamp() {
    let s = AprsStatus::parse(b">235959hHi there!").unwrap();
    assert_eq!(s.timestamp, Some(Timestamp::Hhmmss(23, 59, 59)));
    assert_eq!(s.comment, b"Hi there!");
}

#[test]
fn no_timestamp_with_comment() {
    let s = AprsStatus::parse(b">12.6V 0.2A 22degC").unwrap();
    assert!(s.timestamp.is_none());
    assert_eq!(s.comment, b"12.6V 0.2A 22degC");
}

#[test]
fn status_encode_round_trip() {
    for raw in [
        b">312359zSystem online".as_slice(),
        b">Hi there!".as_slice(),
        b">".as_slice(),
    ] {
        let s = AprsStatus::parse(raw).unwrap();
        assert_eq!(s.encode(), raw);
    }
}

#[test]
fn status_invalid_timestamp_kept_in_comment() {
    let s = AprsStatus::parse(b">322359zText").unwrap();
    assert!(s.timestamp.is_none());
    assert_eq!(s.comment, b"322359zText");
}
