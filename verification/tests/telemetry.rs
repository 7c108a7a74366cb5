use aprs_decode::{AprsTelemetry, TelemetryMetadata};

fn num(t: &[u8]) -> f32 {
    std::str::from_utf8(t).unwrap().parse().unwrap()
}

#[test]
fn parse_basic_telemetry() {
    let t = AprsTelemetry::parse(b"T#001,100,200,300,400,500,10101010").unwrap();
    assert_eq!(t.sequence, b"001");
    assert_eq!(t.analog[0].as_deref().map(num), Some(100.0));
    assert_eq!(t.analog[4].as_deref().map(num), Some(500.0));
    assert_eq!(t.digital, 0b10101010);
    assert!(t.comment.is_empty());
}

#[test]
fn parse_telemetry_with_comment() {
    let t = AprsTelemetry::parse(b"T#001,100,200,300,400,500,11110000,Hello World").unwrap();
    assert_eq!(t.digital, 0b11110000);
    assert_eq!(t.comment, b"Hello World");
}

#[test]
fn telemetry_encode_round_trip() {
    let raw = b"T#001,100,200,300,400,500,10101010,Test";
    let t = AprsTelemetry::parse(raw).unwrap();
    assert_eq!(t.encode().as_slice(), raw.as_slice());
}

#[test]
fn parse_parm_names() {
    let names = TelemetryMetadata::parse_parm(b"Bat1,Bat2,Temp,Hum,Pres,LED1,LED2");
    assert_eq!(names[0].as_deref(), Some(b"Bat1".as_slice()));
    assert_eq!(names[4].as_deref(), Some(b"Pres".as_slice()));
    assert_eq!(names[5].as_deref(), Some(b"LED1".as_slice()));
}

#[test]
fn parse_bits() {
    let (sense, project) = TelemetryMetadata::parse_bits(b"11111111,My Station");
    assert_eq!(sense, 0xFF);
    assert_eq!(project, b"My Station");
}

#[test]
fn parse_bits_mixed() {
    let (sense, _) = TelemetryMetadata::parse_bits(b"10110100,Test");
    assert_eq!(sense, 0b10110100);
}

#[test]
fn missing_digital_bits_defaults_to_zero() {
    let t = AprsTelemetry::parse(b"T#001,100,200,300,400,500").unwrap();
    assert_eq!(t.digital, 0);
}

#[test]
fn telemetry_non_numeric_analog_is_none() {
    let t = AprsTelemetry::parse(b"T#001, 1.5 ,abc,,1e3,-2,0101").unwrap();
    assert_eq!(t.analog[0].as_deref(), Some(b"1.5".as_slice()));
    assert_eq!(t.analog[1], None);
    assert_eq!(t.analog[2], None);
    assert_eq!(t.analog[3].as_deref().map(num), Some(1000.0));
    assert_eq!(t.analog[4].as_deref().map(num), Some(-2.0));
    assert_eq!(t.digital, 0);
}

#[test]
fn telemetry_missing_hash_error() {
    assert!(matches!(
        AprsTelemetry::parse(b"Tx"),
        Err(aprs_decode::AprsError::TruncatedPacket { expected: 2, got: 2 })
    ));
}

#[test]
fn parse_unit_labels_trimmed() {
    let units = TelemetryMetadata::parse_unit(b" Volts,,Amps");
    assert_eq!(units.len(), 3);
    assert_eq!(units[0].as_deref(), Some(b"Volts".as_slice()));
    assert_eq!(units[1], None);
    let many = TelemetryMetadata::parse_parm(b"a,b,c,d,e,f,g,h,i,j,k,l,m,n,o");
    assert_eq!(many.len(), 13);
}

#[test]
fn parse_bits_short_and_no_project() {
    let (sense, project) = TelemetryMetadata::parse_bits(b"101");
    assert_eq!(sense, 0b1010_0000);
    assert!(project.is_empty());
}

fn coef(t: &Option<Vec<u8>>, default: f32) -> f32 {
    t.as_deref().map(num).unwrap_or(default)
}

#[test]
fn parse_eqns() {
    let eqns = TelemetryMetadata::parse_eqns(b"0,0.01,0,0,0.01,0,0,1,0,0,1,0,0,1,0");
    assert_eq!(eqns.len(), 5);
    assert!((coef(&eqns[0].b, 1.0) - 0.01).abs() < 0.001);
    assert!((coef(&eqns[0].c, 0.0)).abs() < 0.001);
}

#[test]
fn telemetry_eqns_parsed() {
    let eqns = TelemetryMetadata::parse_eqns(b"0,0.01,0,0,0.01,0,0,1,0,0,1,0,0,1,0");
    assert_eq!(eqns.len(), 5);
    assert!((coef(&eqns[0].b, 1.0) - 0.01).abs() < 0.001);
    // Apply equation: raw=100 → 0 + 0.01*100 + 0*100² = 1.0
    let (a, b, c) = (coef(&eqns[0].a, 0.0), coef(&eqns[0].b, 1.0), coef(&eqns[0].c, 0.0));
    let raw = 100.0f32;
    assert!((a + b * raw + c * raw * raw - 1.0).abs() < 0.001);
}

#[test]
fn parse_eqns_missing_and_bad_fields_are_none() {
    let eqns = TelemetryMetadata::parse_eqns(b" 1.5 ,x,,2");
    assert_eq!(eqns.len(), 5);
    assert_eq!(eqns[0].a.as_deref(), Some(b"1.5".as_slice()));
    assert_eq!(eqns[0].b, None);
    assert_eq!(eqns[0].c, None);
    assert_eq!(eqns[1].a.as_deref(), Some(b"2".as_slice()));
    assert_eq!(eqns[1].b, None);
    assert_eq!(eqns[4].c, None);
}

#[test]
fn analog_field_with_invalid_utf8_is_none() {
    let t = AprsTelemetry::parse(b"T#001,1\xff,200,300,400,500,10101010").unwrap();
    assert_eq!(t.analog[0], None);
    assert_eq!(t.analog[1].as_deref(), Some(b"200".as_slice()));
}

#[test]
fn analog_number_forms_follow_str_parse() {
    for field in ["inf", "-inf", "NaN", "infinity", "1e3", "2.5E-2", "+5", ".5", "5.", "e5", ".", "+", "1e", "--1", " 7 ", "0x10", "1_0"] {
        let raw = format!("T#001,{field},0,0,0,0,00000000");
        let t = AprsTelemetry::parse(raw.as_bytes()).unwrap();
        let expected = field.trim().parse::<f32>().is_ok();
        assert_eq!(t.analog[0].is_some(), expected, "{field:?}");
        if expected {
            assert_eq!(t.analog[0].as_deref(), Some(field.trim().as_bytes()));
        }
    }
}
