//! The `csT` block of a compressed position: course/speed, radio range or
//! altitude, and the compression-type byte.
//!
//! Speed, range and compressed altitude are logarithmic quantities; they are
//! kept here as the base-91 exponents that the wire carries, from which the
//! physical values (`1.08^s - 1` knots, `2 * 1.08^s` miles, `1.002^e` feet)
//! follow.
use crate::error::{AprsError, AprsErrorView};
use vstd::prelude::*;

verus! {

#[derive(Debug, Copy, Clone, PartialEq, Eq, Structural)]
pub enum GpsFix {
    Old,
    Current,
}

#[derive(Debug, Copy, Clone, PartialEq, Eq, Structural)]
pub enum NmeaSource {
    Other,
    Gll,
    Gga,
    Rmc,
}

#[derive(Debug, Copy, Clone, PartialEq, Eq, Structural)]
pub enum Origin {
    Compressed,
    TncBText,
    Software,
    Tbd,
    Kpc3,
    Pico,
    Other,
    Digipeater,
}

/// The compression-type byte (T byte) following the csT block in a
/// compressed position.
#[derive(Debug, Copy, Clone, PartialEq, Eq, Structural)]
pub struct CompressionType {
    pub gps_fix: GpsFix,
    pub nmea_source: NmeaSource,
    pub origin: Origin,
}

/// Bit `k` of `b`.
pub open spec fn bit(b: u8, k: nat) -> bool {
    (b as nat / pow2_u8(k)) % 2 == 1
}

pub open spec fn pow2_u8(k: nat) -> nat {
    if k == 0 {
        1
    } else if k == 1 {
        2
    } else if k == 2 {
        4
    } else if k == 3 {
        8
    } else if k == 4 {
        16
    } else {
        32
    }
}

/// The compression type written by the byte `b`: bit 5 is the GPS fix,
/// bits 4–3 the NMEA source, bits 2–0 the origin; higher bits are ignored.
pub open spec fn spec_compression_type_from_byte(b: u8) -> CompressionType {
    CompressionType {
        gps_fix: if bit(b, 5) {
            GpsFix::Current
        } else {
            GpsFix::Old
        },
        nmea_source: match (bit(b, 4), bit(b, 3)) {
            (false, false) => NmeaSource::Other,
            (false, true) => NmeaSource::Gll,
            (true, false) => NmeaSource::Gga,
            (true, true) => NmeaSource::Rmc,
        },
        origin: match (bit(b, 2), bit(b, 1), bit(b, 0)) {
            (false, false, false) => Origin::Compressed,
            (false, false, true) => Origin::TncBText,
            (false, true, false) => Origin::Software,
            (false, true, true) => Origin::Tbd,
            (true, false, false) => Origin::Kpc3,
            (true, false, true) => Origin::Pico,
            (true, true, false) => Origin::Other,
            (true, true, true) => Origin::Digipeater,
        },
    }
}

pub open spec fn nmea_bits(n: NmeaSource) -> nat {
    match n {
        NmeaSource::Other => 0,
        NmeaSource::Gll => 1,
        NmeaSource::Gga => 2,
        NmeaSource::Rmc => 3,
    }
}

pub open spec fn origin_bits(o: Origin) -> nat {
    match o {
        Origin::Compressed => 0,
        Origin::TncBText => 1,
        Origin::Software => 2,
        Origin::Tbd => 3,
        Origin::Kpc3 => 4,
        Origin::Pico => 5,
        Origin::Other => 6,
        Origin::Digipeater => 7,
    }
}

/// The byte (0–63) that writes a compression type.
pub open spec fn spec_compression_type_to_byte(t: CompressionType) -> u8 {
    ((if t.gps_fix == GpsFix::Current {
        32nat
    } else {
        0nat
    }) + nmea_bits(t.nmea_source) * 8 + origin_bits(t.origin)) as u8
}

fn bit_exec(b: u8, k: u8) -> (r: bool)
    requires
        k <= 5,
    ensures
        r == bit(b, k as nat),
{
    let p: u8 = if k == 0 {
        1
    } else if k == 1 {
        2
    } else if k == 2 {
        4
    } else if k == 3 {
        8
    } else if k == 4 {
        16
    } else {
        32
    };
    (b / p) % 2 == 1
}

impl CompressionType {
    fn from_byte(b: u8) -> (r: Self)
        ensures
            r == spec_compression_type_from_byte(b),
    {
        let gps_fix = if bit_exec(b, 5) {
            GpsFix::Current
        } else {
            GpsFix::Old
        };
        let b4 = bit_exec(b, 4);
        let b3 = bit_exec(b, 3);
        let nmea_source = if !b4 && !b3 {
            NmeaSource::Other
        } else if !b4 && b3 {
            NmeaSource::Gll
        } else if b4 && !b3 {
            NmeaSource::Gga
        } else {
            NmeaSource::Rmc
        };
        let b2 = bit_exec(b, 2);
        let b1 = bit_exec(b, 1);
        let b0 = bit_exec(b, 0);
        let origin = if !b2 && !b1 && !b0 {
            Origin::Compressed
        } else if !b2 && !b1 && b0 {
            Origin::TncBText
        } else if !b2 && b1 && !b0 {
            Origin::Software
        } else if !b2 && b1 && b0 {
            Origin::Tbd
        } else if b2 && !b1 && !b0 {
            Origin::Kpc3
        } else if b2 && !b1 && b0 {
            Origin::Pico
        } else if b2 && b1 && !b0 {
            Origin::Other
        } else {
            Origin::Digipeater
        };
        CompressionType { gps_fix, nmea_source, origin }
    }

    fn to_byte(self) -> (r: u8)
        ensures
            r == spec_compression_type_to_byte(self),
            r < 64,
    {
        let b5: u8 = if self.gps_fix == GpsFix::Current {
            32
        } else {
            0
        };
        let n: u8 = match self.nmea_source {
            NmeaSource::Other => 0,
            NmeaSource::Gll => 1,
            NmeaSource::Gga => 2,
            NmeaSource::Rmc => 3,
        };
        let o: u8 = match self.origin {
            Origin::Compressed => 0,
            Origin::TncBText => 1,
            Origin::Software => 2,
            Origin::Tbd => 3,
            Origin::Kpc3 => 4,
            Origin::Pico => 5,
            Origin::Other => 6,
            Origin::Digipeater => 7,
        };
        b5 + n * 8 + o
    }
}

impl From<u8> for CompressionType {
    fn from(b: u8) -> (r: Self) {
        Self::from_byte(b)
    }
}

impl vstd::std_specs::convert::FromSpecImpl<u8> for CompressionType {
    open spec fn obeys_from_spec() -> bool {
        true
    }

    open spec fn from_spec(v: u8) -> CompressionType {
        spec_compression_type_from_byte(v)
    }
}

impl From<CompressionType> for u8 {
    fn from(t: CompressionType) -> (r: u8) {
        t.to_byte()
    }
}

impl vstd::std_specs::convert::FromSpecImpl<CompressionType> for u8 {
    open spec fn obeys_from_spec() -> bool {
        true
    }

    open spec fn from_spec(v: CompressionType) -> u8 {
        spec_compression_type_to_byte(v)
    }
}

/// Course and speed from the csT block: the course in degrees (`c * 4`) and
/// the base-91 speed exponent `s` (speed = `1.08^s - 1` knots).
#[derive(Debug, Copy, Clone, PartialEq, Eq, Structural)]
pub struct CourseSpeed {
    pub course_degrees: u16,
    pub speed_exponent: u8,
}

/// Pre-calculated radio range from the csT block: the base-91 exponent `s`
/// (range = `2 * 1.08^s` miles).
#[derive(Debug, Copy, Clone, PartialEq, Eq, Structural)]
pub struct RadioRange {
    pub range_exponent: u8,
}

/// Altitude from the csT block: the exponent `c * 91 + s`
/// (altitude = `1.002^exponent` feet).
#[derive(Debug, Copy, Clone, PartialEq, Eq, Structural)]
pub struct CompressedAltitude {
    pub exponent: u16,
}

/// An altitude: whole feet from a `/A=NNNNNN` comment, or the altitude of a
/// compressed csT block.
#[derive(Debug, Copy, Clone, PartialEq, Eq, Structural)]
pub enum Altitude {
    Feet(u32),
    Compressed(CompressedAltitude),
}

/// The csT block in a compressed position, which encodes course/speed, radio
/// range, or altitude.
#[derive(Debug, Copy, Clone, PartialEq, Eq, Structural)]
pub enum CompressedCs {
    CourseSpeed(CourseSpeed, CompressionType),
    RadioRange(RadioRange, CompressionType),
    Altitude(CompressedAltitude, CompressionType),
    /// Space character: csT is present but carries no data.
    NoData(CompressionType),
}

/// The compression type written by the T byte (`t - 33`, or 0 below `!`).
pub open spec fn spec_t_type(t: u8) -> CompressionType {
    spec_compression_type_from_byte(
        if t >= 33 {
            (t - 33) as u8
        } else {
            0
        },
    )
}

/// The csT block written by the bytes `c`, `s`, `t`.
///
/// A space in `c`, or a `c`/`s` byte below `!` (seen in null-position packets),
/// yields `None` rather than an error.
pub open spec fn spec_parse_cs(c: u8, s: u8, t: u8) -> Result<CompressedCs, AprsErrorView> {
    if c == 32 {
        Ok(CompressedCs::NoData(spec_t_type(t)))
    } else if c < 33 || s < 33 {
        Ok(CompressedCs::NoData(spec_compression_type_from_byte(0)))
    } else {
        let (cv, sv) = ((c - 33) as u8, (s - 33) as u8);
        let ty = spec_t_type(t);
        if ty.nmea_source == NmeaSource::Gga {
            Ok(CompressedCs::Altitude(CompressedAltitude { exponent: (cv * 91 + sv) as u16 }, ty))
        } else if cv <= 89 {
            Ok(
                CompressedCs::CourseSpeed(
                    CourseSpeed { course_degrees: (cv * 4) as u16, speed_exponent: sv },
                    ty,
                ),
            )
        } else if cv == 90 {
            Ok(CompressedCs::RadioRange(RadioRange { range_exponent: sv }, ty))
        } else {
            Err(AprsErrorView::InvalidCompressedByte { byte: c })
        }
    }
}

/// A csT block whose values fit in base-91 characters.
pub open spec fn cs_encodable(cs: CompressedCs) -> bool {
    match cs {
        CompressedCs::CourseSpeed(v, _) => (v.course_degrees / 4) % 256 <= 222 && v.speed_exponent
            <= 222,
        CompressedCs::RadioRange(v, _) => v.range_exponent <= 222,
        CompressedCs::Altitude(v, _) => v.exponent / 91 <= 222,
        CompressedCs::NoData(_) => true,
    }
}

/// The three wire bytes of a csT block.
pub open spec fn spec_encode_cs(cs: CompressedCs) -> Seq<u8> {
    match cs {
        CompressedCs::CourseSpeed(v, t) => seq![
            ((v.course_degrees / 4) % 256 + 33) as u8,
            (v.speed_exponent + 33) as u8,
            (spec_compression_type_to_byte(t) + 33) as u8,
        ],
        CompressedCs::RadioRange(v, t) => seq![
            123u8,
            (v.range_exponent + 33) as u8,
            (spec_compression_type_to_byte(t) + 33) as u8,
        ],
        CompressedCs::Altitude(v, t) => seq![
            ((v.exponent / 91) % 256 + 33) as u8,
            (v.exponent % 91 + 33) as u8,
            (spec_compression_type_to_byte(t) + 33) as u8,
        ],
        CompressedCs::NoData(t) => seq![32u8, 115u8, (spec_compression_type_to_byte(t) + 33) as u8],
    }
}

impl CompressedCs {
    /// Parse the 3-byte csT block (c byte, s byte, t byte).
    pub fn parse(c: u8, s: u8, t_raw: u8) -> (r: Result<Self, AprsError>)
        ensures
            match (r, spec_parse_cs(c, s, t_raw)) {
                (Ok(x), Ok(y)) => x == y,
                (Err(e), Err(v)) => e@ == v,
                _ => false,
            },
    {
        let t_val: u8 = if t_raw >= 33 {
            t_raw - 33
        } else {
            0
        };
        if c == ' ' as u8 {
            return Ok(CompressedCs::NoData(CompressionType::from_byte(t_val)));
        }
        if c < 33 || s < 33 {
            return Ok(CompressedCs::NoData(CompressionType::from_byte(0)));
        }
        let c_val = c - 33;
        let s_val = s - 33;
        let t = CompressionType::from_byte(t_val);
        if t.nmea_source == NmeaSource::Gga {
            Ok(
                CompressedCs::Altitude(
                    CompressedAltitude { exponent: c_val as u16 * 91 + s_val as u16 },
                    t,
                ),
            )
        } else if c_val <= 89 {
            Ok(
                CompressedCs::CourseSpeed(
                    CourseSpeed { course_degrees: c_val as u16 * 4, speed_exponent: s_val },
                    t,
                ),
            )
        } else if c_val == 90 {
            Ok(CompressedCs::RadioRange(RadioRange { range_exponent: s_val }, t))
        } else {
            Err(AprsError::InvalidCompressedByte { byte: c })
        }
    }

    /// Write the three csT bytes.
    pub fn encode(&self, out: &mut Vec<u8>)
        requires
            cs_encodable(*self),
        ensures
            final(out)@ == old(out)@ + spec_encode_cs(*self),
    {
        match *self {
            CompressedCs::CourseSpeed(v, t) => {
                out.push(((v.course_degrees / 4) % 256) as u8 + 33);
                out.push(v.speed_exponent + 33);
                out.push(t.to_byte() + 33);
            },
            CompressedCs::RadioRange(v, t) => {
                out.push('{' as u8);
                out.push(v.range_exponent + 33);
                out.push(t.to_byte() + 33);
            },
            CompressedCs::Altitude(v, t) => {
                out.push(((v.exponent / 91) % 256) as u8 + 33);
                out.push((v.exponent % 91) as u8 + 33);
                out.push(t.to_byte() + 33);
            },
            CompressedCs::NoData(t) => {
                out.push(' ' as u8);
                out.push('s' as u8);
                out.push(t.to_byte() + 33);
            },
        }
        assert(final(out)@ =~= old(out)@ + spec_encode_cs(*self));
    }

    pub fn compression_type(&self) -> (r: CompressionType)
        ensures
            r == match *self {
                CompressedCs::CourseSpeed(_, t) => t,
                CompressedCs::RadioRange(_, t) => t,
                CompressedCs::Altitude(_, t) => t,
                CompressedCs::NoData(t) => t,
            },
    {
        match *self {
            CompressedCs::CourseSpeed(_, t) => t,
            CompressedCs::RadioRange(_, t) => t,
            CompressedCs::Altitude(_, t) => t,
            CompressedCs::NoData(t) => t,
        }
    }
}

/// The compression type survives a trip through its byte.
pub proof fn lemma_compression_type_round_trip(t: CompressionType)
    ensures
        spec_compression_type_from_byte(spec_compression_type_to_byte(t)) == t,
        spec_compression_type_to_byte(t) < 64,
{
}

/// A decoded csT block that can be written decodes back from its bytes.
pub proof fn lemma_cs_round_trip(c: u8, s: u8, t: u8)
    requires
        spec_parse_cs(c, s, t) is Ok,
        cs_encodable(spec_parse_cs(c, s, t)->Ok_0),
    ensures
        ({
            let cs = spec_parse_cs(c, s, t)->Ok_0;
            let e = spec_encode_cs(cs);
            &&& e.len() == 3
            &&& spec_parse_cs(e[0], e[1], e[2]) == Ok::<CompressedCs, AprsErrorView>(cs)
        }),
{
    let cs = spec_parse_cs(c, s, t)->Ok_0;
    match cs {
        CompressedCs::CourseSpeed(v, ty) => lemma_compression_type_round_trip(ty),
        CompressedCs::RadioRange(v, ty) => lemma_compression_type_round_trip(ty),
        CompressedCs::Altitude(v, ty) => {
            lemma_compression_type_round_trip(ty);
            let e = spec_encode_cs(cs);
            let ex = v.exponent;
            assert(ex / 91 * 91 + ex % 91 == ex);
            assert(e[0] - 33 == ex / 91);
            assert(e[1] - 33 == ex % 91);
        },
        CompressedCs::NoData(ty) => lemma_compression_type_round_trip(ty),
    }
}

} // verus!
