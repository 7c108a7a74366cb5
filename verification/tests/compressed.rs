use aprs_decode::{
    CompressedAltitude, CompressedCs, CompressionType, CourseSpeed, GpsFix, NmeaSource, Origin,
    RadioRange,
};

#[test]
fn compression_type_round_trip() {
    let t = CompressionType {
        gps_fix: GpsFix::Current,
        nmea_source: NmeaSource::Gga,
        origin: Origin::Software,
    };
    let byte = u8::from(t);
    assert_eq!(CompressionType::from(byte), t);
}

#[test]
fn compression_type_byte_value() {
    let t = CompressionType {
        gps_fix: GpsFix::Current,
        nmea_source: NmeaSource::Gga,
        origin: Origin::Software,
    };
    // fix bit 5, nmea bits 4-3 = 0b10, origin bits 2-0 = 0b010
    assert_eq!(u8::from(t), 0b0011_0010);
}

#[test]
fn course_speed_round_trip() {
    for c in 0u8..90 {
        for s in 0u8..91 {
            let cs = CompressedCs::parse(c + 33, s + 33, b'!').unwrap();
            assert_eq!(
                cs,
                CompressedCs::CourseSpeed(
                    CourseSpeed { course_degrees: c as u16 * 4, speed_exponent: s },
                    CompressionType::from(0)
                )
            );
            let mut out = Vec::new();
            cs.encode(&mut out);
            assert_eq!(out, vec![c + 33, s + 33, b'!']);
        }
    }
}

#[test]
fn radio_range_round_trip() {
    for s in 0u8..91 {
        let cs = CompressedCs::parse(b'{', s + 33, b'!').unwrap();
        assert_eq!(
            cs,
            CompressedCs::RadioRange(RadioRange { range_exponent: s }, CompressionType::from(0))
        );
        let mut out = Vec::new();
        cs.encode(&mut out);
        assert_eq!(out, vec![b'{', s + 33, b'!']);
    }
}

#[test]
fn altitude_round_trip() {
    // T byte with NMEA source GGA (bits 4-3 = 0b10) selects altitude.
    let t = 0b0001_0000u8 + 33;
    for c in 0u8..91 {
        for s in 0u8..91 {
            let cs = CompressedCs::parse(c + 33, s + 33, t).unwrap();
            match cs {
                CompressedCs::Altitude(a, _) => {
                    assert_eq!(a, CompressedAltitude { exponent: c as u16 * 91 + s as u16 })
                }
                _ => panic!("expected altitude"),
            }
            let mut out = Vec::new();
            cs.encode(&mut out);
            assert_eq!(out, vec![c + 33, s + 33, t]);
        }
    }
}

#[test]
fn cs_space_means_no_data() {
    let cs = CompressedCs::parse(b' ', b's', b'T').unwrap();
    assert!(matches!(cs, CompressedCs::NoData(_)));
    let mut out = Vec::new();
    cs.encode(&mut out);
    assert_eq!(out, b" sT");
}

#[test]
fn cs_invalid_course_byte_rejected() {
    // c - 33 = 91 is neither course (<= 89) nor range (90)
    assert!(matches!(
        CompressedCs::parse(91 + 33, b'!', b'!'),
        Err(aprs_decode::AprsError::InvalidCompressedByte { byte: 124 })
    ));
}
