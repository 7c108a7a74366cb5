use aprs_decode::Symbol;

#[test]
fn primary_car() {
    let s = Symbol::new('/', '>');
    assert_eq!(s.description(), Some("Car"));
}

#[test]
fn primary_house() {
    let s = Symbol::new('/', '-');
    assert_eq!(s.description(), Some("House"));
}

#[test]
fn primary_weather_station() {
    let s = Symbol::new('/', '_');
    assert_eq!(s.description(), Some("Weather Station"));
}

#[test]
fn alternate_tornado() {
    let s = Symbol::new('\\', '@');
    assert_eq!(s.description(), Some("Tornado"));
}

#[test]
fn overlay_uses_alternate_table() {
    let s = Symbol::new('3', '>');
    assert_eq!(s.description(), Some("Info Kiosk"));
}

#[test]
fn reserved_overlay_code_returns_none() {
    let s = Symbol::new('/', 'A');
    assert_eq!(s.description(), None);
}

#[test]
fn out_of_range_code_returns_none() {
    let s = Symbol::new('/', '\x01');
    assert_eq!(s.description(), None);
}

#[test]
fn all_primary_entries_no_panic() {
    for code in '!'..='~' {
        let _ = Symbol::new('/', code).description();
    }
}

#[test]
fn all_alternate_entries_no_panic() {
    for code in '!'..='~' {
        let _ = Symbol::new('\\', code).description();
    }
}

#[test]
fn symbol_tables_and_overlay() {
    assert!(Symbol::new('/', '>').is_primary_table());
    assert!(Symbol::new('\\', '>').is_alternate_table());
    assert_eq!(Symbol::new('3', '>').overlay(), Some('3'));
    assert_eq!(Symbol::new('/', '>').overlay(), None);
}

#[test]
fn overlay_tables_describe_as_the_alternate_table() {
    for code in ['#', '>', '0', '_', 'a'] {
        assert_eq!(Symbol::new('7', code).description(), Symbol::new('\\', code).description());
        assert_eq!(Symbol::new('Q', code).description(), Symbol::new('\\', code).description());
    }
}

#[test]
fn overlay_only_and_out_of_range_codes_have_no_description() {
    for table in ['/', '\\', '3'] {
        for code in ['A', 'M', 'Z', ' ', '\x7f', '\u{e9}'] {
            assert_eq!(Symbol::new(table, code).description(), None);
        }
    }
}
