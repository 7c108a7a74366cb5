use aprs_decode::{AprsError, AprsMessage, MessageSubtype};

#[test]
fn directed_no_id() {
    let m = AprsMessage::parse(b":W1AW-9   :Hello world").unwrap();
    assert_eq!(m.addressee, b"W1AW-9");
    assert_eq!(m.text, b"Hello world");
    assert!(matches!(m.subtype, MessageSubtype::Directed { id: None }));
}

#[test]
fn directed_with_id() {
    let m = AprsMessage::parse(b":DESTINATI:Hello World! This msg has a : colon {329A7D5Z4").unwrap();
    assert_eq!(m.addressee, b"DESTINATI");
    assert_eq!(m.text, b"Hello World! This msg has a : colon ");
    assert!(matches!(
        m.subtype,
        MessageSubtype::Directed { id: Some(ref id) } if id == b"329A7D5Z4"
    ));
}

#[test]
fn ack() {
    let m = AprsMessage::parse(b":W1AW-9   :ack001").unwrap();
    assert!(matches!(m.subtype, MessageSubtype::Ack { ref id } if id == b"001"));
}

#[test]
fn rej() {
    let m = AprsMessage::parse(b":W1AW-9   :rej001").unwrap();
    assert!(matches!(m.subtype, MessageSubtype::Rej { ref id } if id == b"001"));
}

#[test]
fn bulletin() {
    let m = AprsMessage::parse(b":BLN3     :Net at 21:00z tonight").unwrap();
    assert!(matches!(m.subtype, MessageSubtype::Bulletin));
}

#[test]
fn nws_bulletin() {
    let m = AprsMessage::parse(b":NWS-WARN :Tornado warning in effect").unwrap();
    assert!(matches!(m.subtype, MessageSubtype::NwsBulletin));
}

#[test]
fn telemetry_parm() {
    let m = AprsMessage::parse(b":KD9ABC   :PARM.Bat1,Bat2,Temp,Hum,Pres").unwrap();
    assert!(matches!(m.subtype, MessageSubtype::TelemetryParm));
}

#[test]
fn telemetry_bits() {
    let m = AprsMessage::parse(b":KD9ABC   :BITS.11111111,My Project").unwrap();
    assert!(matches!(m.subtype, MessageSubtype::TelemetryBits));
}

#[test]
fn directed_query() {
    let m = AprsMessage::parse(b":KD9ABC   :?APRSD").unwrap();
    assert!(matches!(m.subtype, MessageSubtype::DirectedQuery));
}

#[test]
fn too_short() {
    assert!(AprsMessage::parse(b":W1AW:hi").is_err());
}

#[test]
fn encode_round_trip_directed() {
    let raw = b":DESTINATI:Hello World! This msg has a : colon {329A7D5Z4";
    let m = AprsMessage::parse(raw).unwrap();
    assert_eq!(m.encode(), raw);
}

#[test]
fn encode_round_trip_bulletin() {
    let raw = b":BLN3     :Net at 21:00z tonight";
    let m = AprsMessage::parse(raw).unwrap();
    assert_eq!(m.encode(), raw);
}

#[test]
fn encode_ack() {
    let raw = b":W1AW-9   :ack001";
    let m = AprsMessage::parse(raw).unwrap();
    assert_eq!(m.encode(), raw);
}

#[test]
fn message_missing_second_colon_error() {
    assert!(matches!(
        AprsMessage::parse(b":W1AW-9    Hello"),
        Err(AprsError::InvalidMessageMissingDelimiter)
    ));
}

#[test]
fn message_unit_and_eqns_subtypes() {
    let m = AprsMessage::parse(b":KD9ABC   :UNIT.Volts,Amps").unwrap();
    assert!(matches!(m.subtype, MessageSubtype::TelemetryUnit));
    let m = AprsMessage::parse(b":KD9ABC   :EQNS.0,1,0").unwrap();
    assert!(matches!(m.subtype, MessageSubtype::TelemetryEqns));
    let m = AprsMessage::parse(b":SKYWARN  :Watch").unwrap();
    assert!(matches!(m.subtype, MessageSubtype::NwsBulletin));
}

#[test]
fn message_reencode_decodes_the_same() {
    for raw in [
        b":W1AW-9   :Hello world".as_slice(),
        b":BLN3     :Net{12".as_slice(),
        b":W1AW     :ack7{9".as_slice(),
    ] {
        let m = AprsMessage::parse(raw).unwrap();
        let again = AprsMessage::parse(&m.encode()).unwrap();
        assert_eq!(again, m);
    }
}
