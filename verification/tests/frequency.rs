use aprs_decode::numtext::extract_frequency_mhz;

fn freq(c: &[u8]) -> Option<f32> {
    extract_frequency_mhz(c).map(|t| std::str::from_utf8(&t).unwrap().parse().unwrap())
}

#[test]
fn frequency_basic() {
    assert_eq!(freq(b"146.520MHz T100 comment"), Some(146.52));
}

#[test]
fn frequency_no_decimal() {
    assert_eq!(freq(b"146MHz comment"), Some(146.0));
}

#[test]
fn frequency_not_at_start() {
    assert_eq!(freq(b"comment 146.520MHz"), None);
}

#[test]
fn frequency_absent() {
    assert_eq!(freq(b"no frequency here"), None);
}

#[test]
fn frequency_edge_cases() {
    assert_eq!(extract_frequency_mhz(b"  146.52MHz"), Some(b"146.52".to_vec()));
    assert_eq!(extract_frequency_mhz(b"MHz"), None);
    assert_eq!(extract_frequency_mhz(b"1.2.3MHz"), None);
    assert_eq!(extract_frequency_mhz(b".MHz"), None);
    assert_eq!(extract_frequency_mhz(b"   MHz"), None);
}
