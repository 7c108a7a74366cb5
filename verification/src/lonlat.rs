//! Latitude and longitude in exact fixed point, and their uncompressed
//! (`DDmm.mmN`, `DDDmm.mmE`) and base-91 compressed wire forms.
//!
//! A coordinate is an integer count of 1/11,427,780,000 of a degree. That unit
//! divides every step the wire formats use: a hundredth of a minute, the DAO
//! refinements (a thousandth of a minute, and 1/91 of a hundredth of a minute)
//! and the compressed steps (1/380926 of a degree of latitude, 1/190463 of a
//! degree of longitude), so decoding is exact.
use crate::error::{AprsError, AprsErrorView};
use crate::util::{
    all_digits, dec_pad, digits_value, is_digit, lemma_dec_pad, lemma_dec_pad2, lemma_dec_pad3, lemma_digits_value3,
    parse_unsigned, push_dec_pad, spec_parse_unsigned,
};
use vstd::prelude::*;

verus! {

/// Coordinate units per degree.
pub const UNITS_PER_DEGREE: i64 = 11_427_780_000;

/// Coordinate units per minute of arc.
pub const UNITS_PER_MINUTE: i64 = 190_463_000;

/// Coordinate units per hundredth of a minute of arc.
pub const UNITS_PER_HUNDREDTH_MINUTE: i64 = 1_904_630;

/// Coordinate units per step of a compressed latitude (1/380926 degree).
pub const UNITS_PER_COMPRESSED_LAT_STEP: i64 = 30_000;

/// Coordinate units per step of a compressed longitude (1/190463 degree).
pub const UNITS_PER_COMPRESSED_LON_STEP: i64 = 60_000;

/// Granularity of a parsed position coordinate, inferred from trailing-space ambiguity.
#[derive(Debug, Copy, Clone, PartialOrd, PartialEq, Ord, Eq, Default, Structural)]
pub enum Precision {
    TenDegree,
    OneDegree,
    TenMinute,
    OneMinute,
    TenthMinute,
    #[default]
    HundredthMinute,
}

/// Number of trailing digits blanked out at a precision.
pub open spec fn spec_blank_digits(p: Precision) -> nat {
    match p {
        Precision::HundredthMinute => 0,
        Precision::TenthMinute => 1,
        Precision::OneMinute => 2,
        Precision::TenMinute => 3,
        Precision::OneDegree => 4,
        Precision::TenDegree => 5,
    }
}

/// The precision for a number of blanked digits (0–5).
pub open spec fn spec_precision_from_blanks(n: nat) -> Option<Precision> {
    if n == 0 {
        Some(Precision::HundredthMinute)
    } else if n == 1 {
        Some(Precision::TenthMinute)
    } else if n == 2 {
        Some(Precision::OneMinute)
    } else if n == 3 {
        Some(Precision::TenMinute)
    } else if n == 4 {
        Some(Precision::OneDegree)
    } else if n == 5 {
        Some(Precision::TenDegree)
    } else {
        None
    }
}

impl Precision {
    /// Width of the precision cell in coordinate units.
    pub open spec fn spec_width(self) -> int {
        match self {
            Precision::HundredthMinute => UNITS_PER_HUNDREDTH_MINUTE as int,
            Precision::TenthMinute => UNITS_PER_HUNDREDTH_MINUTE * 10,
            Precision::OneMinute => UNITS_PER_MINUTE as int,
            Precision::TenMinute => UNITS_PER_MINUTE * 10,
            Precision::OneDegree => UNITS_PER_DEGREE as int,
            Precision::TenDegree => UNITS_PER_DEGREE * 10,
        }
    }

    /// The cell of this width centred on `center`: its two edges.
    pub open spec fn spec_range(self, center: int) -> (i64, i64) {
        ((center - self.spec_width() / 2) as i64, (center + self.spec_width() / 2) as i64)
    }

    /// Width of the precision cell in coordinate units.
    pub fn width_units(self) -> (r: i64)
        ensures
            r == self.spec_width(),
    {
        match self {
            Precision::HundredthMinute => UNITS_PER_HUNDREDTH_MINUTE,
            Precision::TenthMinute => UNITS_PER_HUNDREDTH_MINUTE * 10,
            Precision::OneMinute => UNITS_PER_MINUTE,
            Precision::TenMinute => UNITS_PER_MINUTE * 10,
            Precision::OneDegree => UNITS_PER_DEGREE,
            Precision::TenDegree => UNITS_PER_DEGREE * 10,
        }
    }

    /// The cell of this precision centred on `center` (a coordinate in
    /// units): its lower and upper edge.
    pub fn range(self, center: i64) -> (r: (i64, i64))
        requires
            i64::MIN <= center - self.spec_width() / 2,
            center + self.spec_width() / 2 <= i64::MAX,
        ensures
            r == self.spec_range(center as int),
            r.0 == center - self.spec_width() / 2,
            r.1 == center + self.spec_width() / 2,
    {
        let w = self.width_units();
        (center - w / 2, center + w / 2)
    }

    fn num_blank_digits(self) -> (r: u8)
        ensures
            r == spec_blank_digits(self),
    {
        match self {
            Precision::HundredthMinute => 0,
            Precision::TenthMinute => 1,
            Precision::OneMinute => 2,
            Precision::TenMinute => 3,
            Precision::OneDegree => 4,
            Precision::TenDegree => 5,
        }
    }

    fn from_blank_digits(blanks: u8) -> (r: Option<Self>)
        ensures
            r == spec_precision_from_blanks(blanks as nat),
    {
        if blanks == 0 {
            Some(Precision::HundredthMinute)
        } else if blanks == 1 {
            Some(Precision::TenthMinute)
        } else if blanks == 2 {
            Some(Precision::OneMinute)
        } else if blanks == 3 {
            Some(Precision::TenMinute)
        } else if blanks == 4 {
            Some(Precision::OneDegree)
        } else if blanks == 5 {
            Some(Precision::TenDegree)
        } else {
            None
        }
    }
}

/// A latitude in range: between 90° South and 90° North.
pub open spec fn lat_ok(u: int) -> bool {
    -90 * UNITS_PER_DEGREE <= u <= 90 * UNITS_PER_DEGREE
}

/// A longitude in range: between 180° West and 180° East.
pub open spec fn lon_ok(u: int) -> bool {
    -180 * UNITS_PER_DEGREE <= u <= 180 * UNITS_PER_DEGREE
}

/// APRS latitude (positive = North, negative = South), in coordinate units.
#[derive(Debug, Copy, Clone, PartialEq, Eq, Structural)]
pub struct Latitude {
    units: i64,
}

/// APRS longitude (positive = East, negative = West), in coordinate units.
#[derive(Debug, Copy, Clone, PartialEq, Eq, Structural)]
pub struct Longitude {
    units: i64,
}

/// Degrees, whole minutes, hundredths of a minute (rounded half up, with
/// carries) and hemisphere flag of a coordinate.
#[verifier::opaque]
pub open spec fn spec_dmh(u: int) -> (nat, nat, nat, bool) {
    let a = if u >= 0 {
        u
    } else {
        -u
    };
    let deg = a / UNITS_PER_DEGREE as int;
    let rem = a % UNITS_PER_DEGREE as int;
    let min = rem / UNITS_PER_MINUTE as int;
    let rem2 = rem % UNITS_PER_MINUTE as int;
    let h = (rem2 + UNITS_PER_HUNDREDTH_MINUTE / 2) / UNITS_PER_HUNDREDTH_MINUTE as int;
    let (h, min) = if h >= 100 {
        (0, min + 1)
    } else {
        (h, min)
    };
    let (min, deg) = if min >= 60 {
        (0, deg + 1)
    } else {
        (min, deg)
    };
    (deg as nat, min as nat, h as nat, u >= 0)
}

/// One two-character group of an uncompressed latitude, allowing trailing
/// spaces for ambiguity: its value and its number of spaces. Once a group
/// holds a space, every later group must be two spaces.
pub open spec fn spec_pair(b0: u8, b1: u8, must_be_spaces: bool) -> Option<(nat, nat)> {
    if must_be_spaces {
        if b0 == 32 && b1 == 32 {
            Some((0, 2))
        } else {
            None
        }
    } else if b0 == 32 && b1 == 32 {
        Some((0, 2))
    } else if is_digit(b0) && b1 == 32 {
        Some((((b0 - 48) * 10) as nat, 1))
    } else if is_digit(b0) && is_digit(b1) {
        Some((((b0 - 48) * 10 + (b1 - 48)) as nat, 0))
    } else {
        None
    }
}

/// Degrees, minutes and hundredths of a minute in coordinate units.
pub open spec fn dmh_units(deg: nat, min: nat, h: nat) -> int {
    deg * UNITS_PER_DEGREE + min * UNITS_PER_MINUTE + h * UNITS_PER_HUNDREDTH_MINUTE
}

/// The latitude and precision written in the 8 bytes `DDmm.mmN`/`S`; trailing
/// spaces mark reduced precision.
#[verifier::opaque]
pub open spec fn spec_parse_lat_uncompressed(b: Seq<u8>) -> Result<(int, Precision), AprsErrorView> {
    let err = Err(AprsErrorView::InvalidLatitude { raw: b });
    if b.len() != 8 || b[4] != 46u8 {
        err
    } else if b[7] != 78u8 && b[7] != 83u8 {
        err
    } else {
        match spec_pair(b[0], b[1], false) {
            None => err,
            Some((deg, k0)) => match spec_pair(b[2], b[3], k0 > 0) {
                None => err,
                Some((min, k1)) => match spec_pair(b[5], b[6], k1 > 0) {
                    None => err,
                    Some((h, k2)) => match spec_precision_from_blanks(k0 + k1 + k2) {
                        None => err,
                        Some(p) => {
                            let v = dmh_units(deg, min, h);
                            let u = if b[7] == 78u8 {
                                v
                            } else {
                                -v
                            };
                            if lat_ok(u) {
                                Ok((u, p))
                            } else {
                                err
                            }
                        },
                    },
                },
            },
        }
    }
}

/// The hemisphere letter gives the sign: a latitude read with `N` is north
/// of the equator or on it, one read with `S` south of it or on it.
pub proof fn lemma_lat_hemisphere(b: Seq<u8>)
    requires
        spec_parse_lat_uncompressed(b) is Ok,
    ensures
        b[7] == 78u8 ==> spec_parse_lat_uncompressed(b)->Ok_0.0 >= 0,
        b[7] == 83u8 ==> spec_parse_lat_uncompressed(b)->Ok_0.0 <= 0,
{
    reveal(spec_parse_lat_uncompressed);
    let (deg, k0) = spec_pair(b[0], b[1], false)->0;
    let (min, k1) = spec_pair(b[2], b[3], k0 > 0)->0;
    let (h, k2) = spec_pair(b[5], b[6], k1 > 0)->0;
    lemma_dmh_units_nonneg(deg, min, h);
}

proof fn lemma_dmh_units_nonneg(d: nat, m: nat, h: nat)
    ensures
        dmh_units(d, m, h) >= 0,
{
    assert(d * UNITS_PER_DEGREE >= 0) by (nonlinear_arith);
    assert(m * UNITS_PER_MINUTE >= 0) by (nonlinear_arith);
    assert(h * UNITS_PER_HUNDREDTH_MINUTE >= 0) by (nonlinear_arith);
}

/// The seven digit positions of an uncompressed longitude, with those below
/// the precision replaced by `0`.
pub open spec fn lon_digits(b: Seq<u8>, blanks: nat) -> Seq<u8> {
    Seq::new(
        7,
        |i: int|
            if i >= 7 - blanks {
                48u8
            } else if i < 5 {
                b[i]
            } else {
                b[i + 1]
            },
    )
}

/// The longitude written in the 9 bytes `DDDmm.mmE`/`W`, reading only the
/// digits that the latitude's precision leaves significant.
#[verifier::opaque]
pub open spec fn spec_parse_lon_uncompressed(b: Seq<u8>, p: Precision) -> Result<
    int,
    AprsErrorView,
> {
    let err = Err(AprsErrorView::InvalidLongitude { raw: b });
    if b.len() != 9 || b[5] != 46u8 {
        err
    } else if b[8] != 69u8 && b[8] != 87u8 {
        err
    } else {
        let d = lon_digits(b, spec_blank_digits(p));
        match (
            spec_parse_unsigned(d.subrange(0, 3), 0xffff_ffff),
            spec_parse_unsigned(d.subrange(3, 5), 0xffff_ffff),
            spec_parse_unsigned(d.subrange(5, 7), 0xffff_ffff),
        ) {
            (Some(deg), Some(min), Some(h)) => {
                let v = dmh_units(deg, min, h);
                let u = if b[8] == 69u8 {
                    v
                } else {
                    -v
                };
                if lon_ok(u) {
                    Ok(u)
                } else {
                    err
                }
            },
            _ => err,
        }
    }
}

/// The hemisphere letter gives the sign: a longitude read with `E` is east
/// of the prime meridian or on it, one read with `W` west of it or on it.
pub proof fn lemma_lon_hemisphere(b: Seq<u8>, p: Precision)
    requires
        spec_parse_lon_uncompressed(b, p) is Ok,
    ensures
        b[8] == 69u8 ==> spec_parse_lon_uncompressed(b, p)->Ok_0 >= 0,
        b[8] == 87u8 ==> spec_parse_lon_uncompressed(b, p)->Ok_0 <= 0,
{
    reveal(spec_parse_lon_uncompressed);
    let d = lon_digits(b, spec_blank_digits(p));
    let deg = spec_parse_unsigned(d.subrange(0, 3), 0xffff_ffff)->0;
    let min = spec_parse_unsigned(d.subrange(3, 5), 0xffff_ffff)->0;
    let h = spec_parse_unsigned(d.subrange(5, 7), 0xffff_ffff)->0;
    lemma_dmh_units_nonneg(deg, min, h);
}

/// The value of four base-91 characters (each `!`..`{`), most significant first.
pub open spec fn spec_base91_decode4(b: Seq<u8>) -> Option<nat> {
    if b.len() < 4 {
        None
    } else if (exists|i: int| 0 <= i < 4 && !(33 <= #[trigger] b[i] <= 123)) {
        None
    } else {
        Some(((((b[0] - 33) * 91 + (b[1] - 33)) * 91 + (b[2] - 33)) * 91 + (b[3] - 33)) as nat)
    }
}

/// The four base-91 characters of `v` (taken modulo 91^4).
pub open spec fn spec_base91_encode4(v: nat) -> Seq<u8> {
    seq![
        ((v / (91 * 91 * 91)) % 91 + 33) as u8,
        ((v / (91 * 91)) % 91 + 33) as u8,
        ((v / 91) % 91 + 33) as u8,
        (v % 91 + 33) as u8,
    ]
}

/// Compressed latitude: `90° - v / 380926`.
pub open spec fn spec_parse_lat_compressed(b: Seq<u8>) -> Result<int, AprsErrorView> {
    match spec_base91_decode4(b) {
        Some(v) => {
            let u = 90 * UNITS_PER_DEGREE - v * UNITS_PER_COMPRESSED_LAT_STEP;
            if lat_ok(u) {
                Ok(u)
            } else {
                Err(AprsErrorView::InvalidLatitude { raw: b })
            }
        },
        None => Err(AprsErrorView::InvalidLatitude { raw: b }),
    }
}

/// Compressed longitude: `v / 190463 - 180°`.
pub open spec fn spec_parse_lon_compressed(b: Seq<u8>) -> Result<int, AprsErrorView> {
    match spec_base91_decode4(b) {
        Some(v) => {
            let u = v * UNITS_PER_COMPRESSED_LON_STEP - 180 * UNITS_PER_DEGREE;
            if lon_ok(u) {
                Ok(u)
            } else {
                Err(AprsErrorView::InvalidLongitude { raw: b })
            }
        },
        None => Err(AprsErrorView::InvalidLongitude { raw: b }),
    }
}

/// The six digits `DDmmhh` of a latitude, or six zero bytes when they do not
/// fit.
pub open spec fn lat_digits6(u: int) -> Seq<u8> {
    let (deg, min, h, _) = spec_dmh(u);
    let s = dec_pad(deg, 2) + dec_pad(min, 2) + dec_pad(h, 2);
    if s.len() == 6 {
        s
    } else {
        Seq::new(6, |i: int| 0u8)
    }
}

/// The 8-byte uncompressed form of a latitude, with the digits below the
/// precision written as spaces.
#[verifier::opaque]
pub open spec fn spec_encode_lat_uncompressed(u: int, p: Precision) -> Seq<u8> {
    let d = lat_digits6(u);
    let end = 6 - spec_blank_digits(p);
    let buf = Seq::new(
        6,
        |i: int|
            if i < end {
                d[i]
            } else {
                32u8
            },
    );
    buf.subrange(0, 4) + seq![46u8] + buf.subrange(4, 6) + seq![
        if spec_dmh(u).3 {
            78u8
        } else {
            83u8
        },
    ]
}

/// The 9-byte uncompressed form of a longitude.
#[verifier::opaque]
pub open spec fn spec_encode_lon_uncompressed(u: int) -> Seq<u8> {
    let (deg, min, h, east) = spec_dmh(u);
    dec_pad(deg, 3) + dec_pad(min, 2) + seq![46u8] + dec_pad(h, 2) + seq![
        if east {
            69u8
        } else {
            87u8
        },
    ]
}

/// The 4-byte compressed form of a latitude: `round((90° - lat) * 380926)`.
pub open spec fn spec_encode_lat_compressed(u: int) -> Seq<u8> {
    spec_base91_encode4(
        ((90 * UNITS_PER_DEGREE - u + UNITS_PER_COMPRESSED_LAT_STEP / 2)
            / UNITS_PER_COMPRESSED_LAT_STEP as int) as nat,
    )
}

/// The 4-byte compressed form of a longitude: `round((180° + lon) * 190463)`.
pub open spec fn spec_encode_lon_compressed(u: int) -> Seq<u8> {
    spec_base91_encode4(
        ((180 * UNITS_PER_DEGREE + u + UNITS_PER_COMPRESSED_LON_STEP / 2)
            / UNITS_PER_COMPRESSED_LON_STEP as int) as nat,
    )
}

fn pair(b0: u8, b1: u8, must_be_spaces: bool) -> (r: Option<(u8, u8)>)
    ensures
        match (r, spec_pair(b0, b1, must_be_spaces)) {
            (Some((v, k)), Some((sv, sk))) => v == sv && k == sk && v <= 99 && k <= 2,
            (None, None) => true,
            _ => false,
        },
{
    if must_be_spaces {
        return if b0 == ' ' as u8 && b1 == ' ' as u8 {
            Some((0, 2))
        } else {
            None
        };
    }
    if b0 == ' ' as u8 && b1 == ' ' as u8 {
        Some((0, 2))
    } else if b0 >= '0' as u8 && b0 <= '9' as u8 && b1 == ' ' as u8 {
        Some(((b0 - 48) * 10, 1))
    } else if b0 >= '0' as u8 && b0 <= '9' as u8 && b1 >= '0' as u8 && b1 <= '9' as u8 {
        Some(((b0 - 48) * 10 + (b1 - 48), 0))
    } else {
        None
    }
}

fn dmh_to_units(deg: u64, min: u64, h: u64) -> (r: Option<i64>)
    requires
        deg <= 0xffff_ffff,
        min <= 0xffff_ffff,
        h <= 0xffff_ffff,
    ensures
        r matches Some(v) ==> v == dmh_units(deg as nat, min as nat, h as nat) && lon_ok(v as int),
        r is None ==> !lon_ok(dmh_units(deg as nat, min as nat, h as nat)),
{
    // A coordinate beyond 180° in any one part is out of range for both axes.
    if deg > 180 || min > 180 * 60 || h > 180 * 6000 {
        return None;
    }
    let v = deg as i64 * UNITS_PER_DEGREE + min as i64 * UNITS_PER_MINUTE + h as i64
        * UNITS_PER_HUNDREDTH_MINUTE;
    if v > 180 * UNITS_PER_DEGREE {
        return None;
    }
    Some(v)
}

/// The value of four base-91 characters (each `!`..`{`), most significant first.
pub fn base91_decode4(b: &[u8]) -> (r: Option<u32>)
    ensures
        match (r, spec_base91_decode4(b@)) {
            (Some(v), Some(w)) => v == w && v < 91 * 91 * 91 * 91,
            (None, None) => true,
            _ => false,
        },
{
    if b.len() < 4 {
        return None;
    }
    let mut i: usize = 0;
    while i < 4
        invariant
            i <= 4,
            b@.len() >= 4,
            forall|j: int| 0 <= j < i ==> 33 <= #[trigger] b@[j] <= 123,
        decreases 4 - i,
    {
        if b[i] < 33 || b[i] > 123 {
            return None;
        }
        i = i + 1;
    }
    let d0 = (b[0] - 33) as u32;
    let d1 = (b[1] - 33) as u32;
    let d2 = (b[2] - 33) as u32;
    let d3 = (b[3] - 33) as u32;
    Some(((d0 * 91 + d1) * 91 + d2) * 91 + d3)
}

/// Append `val` as four base-91 characters.
pub fn base91_encode4(val: u32, out: &mut Vec<u8>)
    ensures
        final(out)@ == old(out)@ + spec_base91_encode4(val as nat),
{
    out.push(((val / (91 * 91 * 91)) % 91) as u8 + 33);
    out.push(((val / (91 * 91)) % 91) as u8 + 33);
    out.push(((val / 91) % 91) as u8 + 33);
    out.push((val % 91) as u8 + 33);
    assert(final(out)@ =~= old(out)@ + spec_base91_encode4(val as nat));
}

fn dmh_exec(u: i64) -> (r: (u32, u32, u32, bool))
    requires
        lon_ok(u as int),
    ensures
        (r.0 as nat, r.1 as nat, r.2 as nat, r.3) == spec_dmh(u as int),
        r.0 <= 181,
        r.1 < 60,
        r.2 < 100,
{
    proof {
        reveal(spec_dmh);
    }
    let a: i64 = if u >= 0 {
        u
    } else {
        -u
    };
    let deg = a / UNITS_PER_DEGREE;
    let rem = a % UNITS_PER_DEGREE;
    let min = rem / UNITS_PER_MINUTE;
    let rem2 = rem % UNITS_PER_MINUTE;
    let h = (rem2 + UNITS_PER_HUNDREDTH_MINUTE / 2) / UNITS_PER_HUNDREDTH_MINUTE;
    let (h, min) = if h >= 100 {
        (0, min + 1)
    } else {
        (h, min)
    };
    let (min, deg) = if min >= 60 {
        (0, deg + 1)
    } else {
        (min, deg)
    };
    (deg as u32, min as u32, h as u32, u >= 0)
}

impl Latitude {
    /// A latitude from coordinate units, if it is within ±90°.
    pub fn from_units(units: i64) -> (r: Option<Self>)
        ensures
            r matches Some(l) ==> l@ == units,
            r is Some <==> lat_ok(units as int),
    {
        if units >= -90 * UNITS_PER_DEGREE && units <= 90 * UNITS_PER_DEGREE {
            Some(Latitude { units })
        } else {
            None
        }
    }

    pub closed spec fn view(self) -> int {
        self.units as int
    }

    #[verifier::type_invariant]
    closed spec fn inv(self) -> bool {
        lat_ok(self.units as int)
    }

    /// The latitude in coordinate units (positive = North).
    pub fn units(self) -> (r: i64)
        ensures
            r == self@,
            lat_ok(r as int),
    {
        proof {
            use_type_invariant(self);
        }
        self.units
    }

    /// Decompose into (degrees, whole minutes, hundredths-of-minute, is_north).
    pub fn dmh(self) -> (r: (u32, u32, u32, bool))
        ensures
            (r.0 as nat, r.1 as nat, r.2 as nat, r.3) == spec_dmh(self@),
    {
        proof {
            use_type_invariant(self);
        }
        dmh_exec(self.units)
    }

    /// Parse 8-byte uncompressed latitude: `DDmm.mmN` or `DDmm.mmS`.
    /// Trailing spaces encode ambiguity (reduced precision).
    pub fn parse_uncompressed(b: &[u8]) -> (r: Result<(Self, Precision), AprsError>)
        ensures
            match (r, spec_parse_lat_uncompressed(b@)) {
                (Ok((l, p)), Ok((u, q))) => l@ == u && p == q,
                (Err(e), Err(v)) => e@ == v,
                _ => false,
            },
    {
        proof {
            reveal(spec_parse_lat_uncompressed);
        }
        if b.len() != 8 || b[4] != '.' as u8 {
            return Err(AprsError::InvalidLatitude { raw: vstd::slice::slice_to_vec(b) });
        }
        let is_north = if b[7] == 'N' as u8 {
            true
        } else if b[7] == 'S' as u8 {
            false
        } else {
            return Err(AprsError::InvalidLatitude { raw: vstd::slice::slice_to_vec(b) });
        };
        let (deg, k0) = match pair(b[0], b[1], false) {
            Some(x) => x,
            None => {
                return Err(AprsError::InvalidLatitude { raw: vstd::slice::slice_to_vec(b) });
            },
        };
        let (min, k1) = match pair(b[2], b[3], k0 > 0) {
            Some(x) => x,
            None => {
                return Err(AprsError::InvalidLatitude { raw: vstd::slice::slice_to_vec(b) });
            },
        };
        let (h, k2) = match pair(b[5], b[6], k1 > 0) {
            Some(x) => x,
            None => {
                return Err(AprsError::InvalidLatitude { raw: vstd::slice::slice_to_vec(b) });
            },
        };
        let precision = match Precision::from_blank_digits(k0 + k1 + k2) {
            Some(p) => p,
            None => {
                return Err(AprsError::InvalidLatitude { raw: vstd::slice::slice_to_vec(b) });
            },
        };
        let v = deg as i64 * UNITS_PER_DEGREE + min as i64 * UNITS_PER_MINUTE + h as i64
            * UNITS_PER_HUNDREDTH_MINUTE;
        let u = if is_north {
            v
        } else {
            -v
        };
        match Latitude::from_units(u) {
            Some(l) => Ok((l, precision)),
            None => Err(AprsError::InvalidLatitude { raw: vstd::slice::slice_to_vec(b) }),
        }
    }

    /// Parse 4-byte base-91 compressed latitude.
    pub fn parse_compressed(b: &[u8]) -> (r: Result<Self, AprsError>)
        ensures
            match (r, spec_parse_lat_compressed(b@)) {
                (Ok(l), Ok(u)) => l@ == u,
                (Err(e), Err(v)) => e@ == v,
                _ => false,
            },
    {
        let enc = match base91_decode4(b) {
            Some(v) => v,
            None => {
                return Err(AprsError::InvalidLatitude { raw: vstd::slice::slice_to_vec(b) });
            },
        };
        let u = 90 * UNITS_PER_DEGREE - enc as i64 * UNITS_PER_COMPRESSED_LAT_STEP;
        match Latitude::from_units(u) {
            Some(l) => Ok(l),
            None => Err(AprsError::InvalidLatitude { raw: vstd::slice::slice_to_vec(b) }),
        }
    }

    /// Write the 8-byte uncompressed form, blanking the digits below `precision`.
    pub fn encode_uncompressed(&self, out: &mut Vec<u8>, precision: Precision)
        ensures
            final(out)@ == old(out)@ + spec_encode_lat_uncompressed(self@, precision),
    {
        proof {
            use_type_invariant(self);
            reveal(spec_encode_lat_uncompressed);
        }
        let (deg, min, h, is_north) = dmh_exec(self.units);
        let mut digits: Vec<u8> = Vec::new();
        push_dec_pad(&mut digits, deg as u64, 2);
        push_dec_pad(&mut digits, min as u64, 2);
        push_dec_pad(&mut digits, h as u64, 2);
        let ghost d6 = lat_digits6(self@);
        if digits.len() != 6 {
            digits = Vec::new();
            let mut k: usize = 0;
            while k < 6
                invariant
                    k <= 6,
                    digits@ == Seq::new(k as nat, |i: int| 0u8),
                decreases 6 - k,
            {
                digits.push(0);
                k = k + 1;
                assert(digits@ =~= Seq::new(k as nat, |i: int| 0u8));
            }
        }
        assert(digits@ =~= d6);
        let end = 6 - precision.num_blank_digits() as usize;
        let ghost buf = Seq::new(
            6,
            |i: int|
                if i < end {
                    d6[i]
                } else {
                    32u8
                },
        );
        let mut i: usize = 0;
        while i < 6
            invariant
                i <= 6,
                digits@ == d6,
                d6.len() == 6,
                end <= 6,
                buf == Seq::new(
                    6,
                    |i: int|
                        if i < end {
                            d6[i]
                        } else {
                            32u8
                        },
                ),
                out@ == old(out)@ + (if i <= 4 {
                    buf.subrange(0, i as int)
                } else {
                    buf.subrange(0, 4) + seq![46u8] + buf.subrange(4, i as int)
                }),
            decreases 6 - i,
        {
            if i == 4 {
                out.push('.' as u8);
            }
            let c = if i < end {
                digits[i]
            } else {
                ' ' as u8
            };
            out.push(c);
            i = i + 1;
            assert(out@ =~= old(out)@ + (if i <= 4 {
                buf.subrange(0, i as int)
            } else {
                buf.subrange(0, 4) + seq![46u8] + buf.subrange(4, i as int)
            }));
        }
        out.push(if is_north {
            'N' as u8
        } else {
            'S' as u8
        });
        assert(final(out)@ =~= old(out)@ + spec_encode_lat_uncompressed(self@, precision));
    }

    /// Write the 4-byte base-91 compressed form.
    pub fn encode_compressed(&self, out: &mut Vec<u8>)
        ensures
            final(out)@ == old(out)@ + spec_encode_lat_compressed(self@),
    {
        proof {
            use_type_invariant(self);
        }
        let x = 90 * UNITS_PER_DEGREE - self.units;
        let v = (x + UNITS_PER_COMPRESSED_LAT_STEP / 2) / UNITS_PER_COMPRESSED_LAT_STEP;
        base91_encode4(v as u32, out);
    }
}

impl Longitude {
    /// A longitude from coordinate units, if it is within ±180°.
    pub fn from_units(units: i64) -> (r: Option<Self>)
        ensures
            r matches Some(l) ==> l@ == units,
            r is Some <==> lon_ok(units as int),
    {
        if units >= -180 * UNITS_PER_DEGREE && units <= 180 * UNITS_PER_DEGREE {
            Some(Longitude { units })
        } else {
            None
        }
    }

    pub closed spec fn view(self) -> int {
        self.units as int
    }

    #[verifier::type_invariant]
    closed spec fn inv(self) -> bool {
        lon_ok(self.units as int)
    }

    /// The longitude in coordinate units (positive = East).
    pub fn units(self) -> (r: i64)
        ensures
            r == self@,
            lon_ok(r as int),
    {
        proof {
            use_type_invariant(self);
        }
        self.units
    }

    /// Decompose into (degrees, whole minutes, hundredths-of-minute, is_east).
    pub fn dmh(self) -> (r: (u32, u32, u32, bool))
        ensures
            (r.0 as nat, r.1 as nat, r.2 as nat, r.3) == spec_dmh(self@),
            r.0 <= 181,
            r.1 < 60,
            r.2 < 100,
    {
        proof {
            use_type_invariant(self);
        }
        dmh_exec(self.units)
    }

    /// Parse 9-byte uncompressed longitude: `DDDmm.mmE` or `DDDmm.mmW`.
    /// Uses the latitude's precision to mask low-order digits.
    pub fn parse_uncompressed(b: &[u8], precision: Precision) -> (r: Result<Self, AprsError>)
        ensures
            match (r, spec_parse_lon_uncompressed(b@, precision)) {
                (Ok(l), Ok(u)) => l@ == u,
                (Err(e), Err(v)) => e@ == v,
                _ => false,
            },
    {
        proof {
            reveal(spec_parse_lon_uncompressed);
        }
        if b.len() != 9 || b[5] != '.' as u8 {
            return Err(AprsError::InvalidLongitude { raw: vstd::slice::slice_to_vec(b) });
        }
        let is_east = if b[8] == 'E' as u8 {
            true
        } else if b[8] == 'W' as u8 {
            false
        } else {
            return Err(AprsError::InvalidLongitude { raw: vstd::slice::slice_to_vec(b) });
        };
        let blanks = precision.num_blank_digits() as usize;
        let ghost d7 = lon_digits(b@, blanks as nat);
        let mut digits: Vec<u8> = Vec::new();
        let mut i: usize = 0;
        while i < 7
            invariant
                i <= 7,
                b@.len() == 9,
                blanks <= 5,
                d7 == lon_digits(b@, blanks as nat),
                digits@ == d7.subrange(0, i as int),
            decreases 7 - i,
        {
            let c = if i >= 7 - blanks {
                '0' as u8
            } else if i < 5 {
                b[i]
            } else {
                b[i + 1]
            };
            digits.push(c);
            i = i + 1;
            assert(digits@ =~= d7.subrange(0, i as int));
        }
        assert(digits@ =~= d7);
        let s = digits.as_slice();
        let deg = parse_unsigned(vstd::slice::slice_subrange(s, 0, 3), 0xffff_ffff);
        let min = parse_unsigned(vstd::slice::slice_subrange(s, 3, 5), 0xffff_ffff);
        let h = parse_unsigned(vstd::slice::slice_subrange(s, 5, 7), 0xffff_ffff);
        match (deg, min, h) {
            (Some(deg), Some(min), Some(h)) => {
                match dmh_to_units(deg, min, h) {
                    Some(v) => {
                        let u = if is_east {
                            v
                        } else {
                            -v
                        };
                        match Longitude::from_units(u) {
                            Some(l) => Ok(l),
                            None => Err(
                                AprsError::InvalidLongitude { raw: vstd::slice::slice_to_vec(b) },
                            ),
                        }
                    },
                    None => Err(AprsError::InvalidLongitude { raw: vstd::slice::slice_to_vec(b) }),
                }
            },
            _ => Err(AprsError::InvalidLongitude { raw: vstd::slice::slice_to_vec(b) }),
        }
    }

    /// Parse 4-byte base-91 compressed longitude.
    pub fn parse_compressed(b: &[u8]) -> (r: Result<Self, AprsError>)
        ensures
            match (r, spec_parse_lon_compressed(b@)) {
                (Ok(l), Ok(u)) => l@ == u,
                (Err(e), Err(v)) => e@ == v,
                _ => false,
            },
    {
        let enc = match base91_decode4(b) {
            Some(v) => v,
            None => {
                return Err(AprsError::InvalidLongitude { raw: vstd::slice::slice_to_vec(b) });
            },
        };
        let u = enc as i64 * UNITS_PER_COMPRESSED_LON_STEP - 180 * UNITS_PER_DEGREE;
        match Longitude::from_units(u) {
            Some(l) => Ok(l),
            None => Err(AprsError::InvalidLongitude { raw: vstd::slice::slice_to_vec(b) }),
        }
    }

    /// Write the 9-byte uncompressed form `DDDmm.mmE`/`W`.
    pub fn encode_uncompressed(&self, out: &mut Vec<u8>)
        ensures
            final(out)@ == old(out)@ + spec_encode_lon_uncompressed(self@),
    {
        proof {
            use_type_invariant(self);
            reveal(spec_encode_lon_uncompressed);
        }
        let (deg, min, h, is_east) = dmh_exec(self.units);
        push_dec_pad(out, deg as u64, 3);
        push_dec_pad(out, min as u64, 2);
        out.push('.' as u8);
        push_dec_pad(out, h as u64, 2);
        out.push(if is_east {
            'E' as u8
        } else {
            'W' as u8
        });
        assert(final(out)@ =~= old(out)@ + spec_encode_lon_uncompressed(self@));
    }

    /// Write the 4-byte base-91 compressed form.
    pub fn encode_compressed(&self, out: &mut Vec<u8>)
        ensures
            final(out)@ == old(out)@ + spec_encode_lon_compressed(self@),
    {
        proof {
            use_type_invariant(self);
        }
        let x = 180 * UNITS_PER_DEGREE + self.units;
        let v = (x + UNITS_PER_COMPRESSED_LON_STEP / 2) / UNITS_PER_COMPRESSED_LON_STEP;
        base91_encode4(v as u32, out);
    }
}

/// The uncompressed form of a latitude is eight bytes, none above `z`.
pub proof fn lemma_encode_lat_digits(u: int, p: Precision)
    ensures
        spec_encode_lat_uncompressed(u, p).len() == 8,
        forall|i: int| 0 <= i < 8 ==> #[trigger] spec_encode_lat_uncompressed(u, p)[i] <= 122,
{
    reveal(spec_encode_lat_uncompressed);
    let (deg, min, h, _) = spec_dmh(u);
    lemma_dec_pad(deg, 2);
    lemma_dec_pad(min, 2);
    lemma_dec_pad(h, 2);
    let s = dec_pad(deg, 2) + dec_pad(min, 2) + dec_pad(h, 2);
    let d = lat_digits6(u);
    assert forall|i: int| 0 <= i < 6 implies #[trigger] d[i] <= 57 by {
        if s.len() == 6 {
            if i < dec_pad(deg, 2).len() {
                assert(is_digit(dec_pad(deg, 2)[i]));
            } else if i < dec_pad(deg, 2).len() + dec_pad(min, 2).len() {
                assert(is_digit(dec_pad(min, 2)[i - dec_pad(deg, 2).len()]));
            } else {
                assert(is_digit(
                    dec_pad(h, 2)[i - dec_pad(deg, 2).len() - dec_pad(min, 2).len()],
                ));
            }
        }
    }
}

/// On the grid of hundredths of a minute, `spec_dmh` gives back the degrees,
/// minutes and hundredths, and the sign.
pub proof fn lemma_dmh_grid(dd: nat, mm: nat, hh: nat, neg: bool)
    requires
        mm < 60,
        hh < 100,
    ensures
        spec_dmh(
            if neg {
                -dmh_units(dd, mm, hh)
            } else {
                dmh_units(dd, mm, hh)
            },
        ) == (dd, mm, hh, !neg || dmh_units(dd, mm, hh) == 0),
{
    reveal(spec_dmh);
    let a = dmh_units(dd, mm, hh);
    let r = mm * UNITS_PER_MINUTE + hh * UNITS_PER_HUNDREDTH_MINUTE;
    assert(0 <= r < UNITS_PER_DEGREE);
    vstd::arithmetic::div_mod::lemma_fundamental_div_mod_converse(
        a,
        UNITS_PER_DEGREE as int,
        dd as int,
        r,
    );
    let r2 = hh * UNITS_PER_HUNDREDTH_MINUTE;
    vstd::arithmetic::div_mod::lemma_fundamental_div_mod_converse(
        r,
        UNITS_PER_MINUTE as int,
        mm as int,
        r2,
    );
    vstd::arithmetic::div_mod::lemma_fundamental_div_mod_converse(
        r2 + UNITS_PER_HUNDREDTH_MINUTE / 2,
        UNITS_PER_HUNDREDTH_MINUTE as int,
        hh as int,
        UNITS_PER_HUNDREDTH_MINUTE / 2,
    );
}

/// What `spec_pair` reads: a value below 100 whose blanked digits are zero;
/// once blanks began, only blanks follow.
proof fn lemma_pair_facts(b0: u8, b1: u8, must: bool)
    requires
        spec_pair(b0, b1, must) is Some,
    ensures
        ({
            let (v, k) = spec_pair(b0, b1, must)->Some_0;
            &&& v < 100
            &&& k <= 2
            &&& k == 1 ==> v % 10 == 0
            &&& k == 2 ==> v == 0
            &&& must ==> k == 2
        }),
{
}

/// The first byte of a two-digit group `x` with `k` trailing blanks.
pub open spec fn pair_hi(x: nat, k: nat) -> u8 {
    if k < 2 {
        (48 + x / 10) as u8
    } else {
        32u8
    }
}

/// The second byte of a two-digit group `x` with `k` trailing blanks.
pub open spec fn pair_lo(x: nat, k: nat) -> u8 {
    if k < 1 {
        (48 + x % 10) as u8
    } else {
        32u8
    }
}

/// Blank counts of the three groups of a latitude that the wire form allows:
/// once blanks begin only blanks follow, and not every digit is blank; the
/// blanked digits of the values are zero.
pub open spec fn lat_groups_ok(dd: nat, mm: nat, hh: nat, k0: nat, k1: nat, k2: nat) -> bool {
    &&& dd < 100 && mm < 60 && hh < 100
    &&& k0 <= 1 && k1 <= 2 && k2 <= 2
    &&& k0 > 0 ==> k1 == 2
    &&& k1 > 0 ==> k2 == 2
    &&& k0 == 1 ==> dd % 10 == 0
    &&& k1 == 1 ==> mm % 10 == 0
    &&& k1 == 2 ==> mm == 0
    &&& k2 == 1 ==> hh % 10 == 0
    &&& k2 == 2 ==> hh == 0
}

/// The signed coordinate of degrees, minutes and hundredths.
pub open spec fn signed_units(dd: nat, mm: nat, hh: nat, neg: bool) -> int {
    if neg {
        -dmh_units(dd, mm, hh)
    } else {
        dmh_units(dd, mm, hh)
    }
}

proof fn lemma_pair_of(x: nat, k: nat, must: bool)
    requires
        x < 100,
        k <= 2,
        k == 1 ==> x % 10 == 0,
        k == 2 ==> x == 0,
        must ==> k == 2,
    ensures
        spec_pair(pair_hi(x, k), pair_lo(x, k), must) == Some((x, k)),
{
}

/// The eight bytes of an uncompressed latitude, group by group.
proof fn lemma_lat_text(dd: nat, mm: nat, hh: nat, k0: nat, k1: nat, k2: nat, neg: bool)
    requires
        lat_groups_ok(dd, mm, hh, k0, k1, k2),
    ensures
        spec_encode_lat_uncompressed(
            signed_units(dd, mm, hh, neg),
            spec_precision_from_blanks(k0 + k1 + k2)->Some_0,
        ) == seq![
            pair_hi(dd, k0),
            pair_lo(dd, k0),
            pair_hi(mm, k1),
            pair_lo(mm, k1),
            46u8,
            pair_hi(hh, k2),
            pair_lo(hh, k2),
            if !neg || dmh_units(dd, mm, hh) == 0 {
                78u8
            } else {
                83u8
            },
        ],
{
    reveal(spec_encode_lat_uncompressed);
    let u = signed_units(dd, mm, hh, neg);
    let kk = k0 + k1 + k2;
    let p = spec_precision_from_blanks(kk)->Some_0;
    assert(spec_blank_digits(p) == kk);
    lemma_dmh_grid(dd, mm, hh, neg);
    lemma_dec_pad2(dd);
    lemma_dec_pad2(mm);
    lemma_dec_pad2(hh);
    let dg = lat_digits6(u);
    assert(dg =~= seq![
        (48 + dd / 10) as u8,
        (48 + dd % 10) as u8,
        (48 + mm / 10) as u8,
        (48 + mm % 10) as u8,
        (48 + hh / 10) as u8,
        (48 + hh % 10) as u8,
    ]);
    let e = spec_encode_lat_uncompressed(u, p);
    assert(e =~= seq![
        pair_hi(dd, k0),
        pair_lo(dd, k0),
        pair_hi(mm, k1),
        pair_lo(mm, k1),
        46u8,
        pair_hi(hh, k2),
        pair_lo(hh, k2),
        if !neg || dmh_units(dd, mm, hh) == 0 {
            78u8
        } else {
            83u8
        },
    ]);
}

/// The uncompressed latitude written from groups that the wire form allows
/// decodes back, when it is in range.
proof fn lemma_lat_text_parse(dd: nat, mm: nat, hh: nat, k0: nat, k1: nat, k2: nat, neg: bool)
    requires
        lat_groups_ok(dd, mm, hh, k0, k1, k2),
        lat_ok(signed_units(dd, mm, hh, neg)),
    ensures
        spec_parse_lat_uncompressed(
            seq![
                pair_hi(dd, k0),
                pair_lo(dd, k0),
                pair_hi(mm, k1),
                pair_lo(mm, k1),
                46u8,
                pair_hi(hh, k2),
                pair_lo(hh, k2),
                if !neg || dmh_units(dd, mm, hh) == 0 {
                    78u8
                } else {
                    83u8
                },
            ],
        ) == Ok::<(int, Precision), AprsErrorView>(
            (signed_units(dd, mm, hh, neg), spec_precision_from_blanks(k0 + k1 + k2)->Some_0),
        ),
{
    reveal(spec_parse_lat_uncompressed);
    lemma_pair_of(dd, k0, false);
    lemma_pair_of(mm, k1, k0 > 0);
    lemma_pair_of(hh, k2, k1 > 0);
}

/// The groups that a decoded uncompressed latitude was read from, minutes
/// carried into degrees.
proof fn lemma_lat_decompose(b: Seq<u8>) -> (r: (nat, nat, nat, nat, nat, nat, bool))
    requires
        spec_parse_lat_uncompressed(b) is Ok,
    ensures
        ({
            let (u, p) = spec_parse_lat_uncompressed(b)->Ok_0;
            let (dd, mm, hh, k0, k1, k2, neg) = r;
            &&& lat_groups_ok(dd, mm, hh, k0, k1, k2)
            &&& u == signed_units(dd, mm, hh, neg)
            &&& p == spec_precision_from_blanks(k0 + k1 + k2)->Some_0
            &&& lat_ok(u)
        }),
{
    reveal(spec_parse_lat_uncompressed);
    let (u, p) = spec_parse_lat_uncompressed(b)->Ok_0;
    lemma_pair_facts(b[0], b[1], false);
    let (deg, k0) = spec_pair(b[0], b[1], false)->Some_0;
    lemma_pair_facts(b[2], b[3], k0 > 0);
    let (min, k1) = spec_pair(b[2], b[3], k0 > 0)->Some_0;
    lemma_pair_facts(b[5], b[6], k1 > 0);
    let (h, k2) = spec_pair(b[5], b[6], k1 > 0)->Some_0;
    let neg = b[7] != 78u8;
    let dd = deg + min / 60;
    let mm = min % 60;
    assert(dmh_units(dd, mm, h) == dmh_units(deg, min, h));
    assert(dd * UNITS_PER_DEGREE <= dmh_units(dd, mm, h));
    (dd, mm, h, k0, k1, k2, neg)
}

/// A decoded uncompressed latitude, written again at its precision, decodes
/// to the same latitude and precision; the written form starts with a digit.
pub proof fn lemma_lat_round_trip(b: Seq<u8>, u: int, p: Precision)
    requires
        spec_parse_lat_uncompressed(b) == Ok::<(int, Precision), AprsErrorView>((u, p)),
    ensures
        spec_parse_lat_uncompressed(spec_encode_lat_uncompressed(u, p)) == Ok::<
            (int, Precision),
            AprsErrorView,
        >((u, p)),
        is_digit(spec_encode_lat_uncompressed(u, p)[0]),
        spec_encode_lat_uncompressed(u, p).len() == 8,
{
    let (dd, mm, hh, k0, k1, k2, neg) = lemma_lat_decompose(b);
    lemma_lat_text(dd, mm, hh, k0, k1, k2, neg);
    lemma_lat_text_parse(dd, mm, hh, k0, k1, k2, neg);
}

/// Degrees, minutes and hundredths of a longitude, with the digits that a
/// precision of `k` blanked digits leaves out equal to zero.
pub open spec fn lon_groups_ok(dd: nat, mm: nat, hh: nat, k: nat) -> bool {
    &&& dd < 1000 && mm < 60 && hh < 100
    &&& k <= 5
    &&& k >= 1 ==> hh % 10 == 0
    &&& k >= 2 ==> hh == 0
    &&& k >= 3 ==> mm % 10 == 0
    &&& k >= 4 ==> mm == 0
    &&& k >= 5 ==> dd % 10 == 0
}

/// The nine bytes of an uncompressed longitude.
pub open spec fn lon_text(dd: nat, mm: nat, hh: nat, neg: bool) -> Seq<u8> {
    seq![
        (48 + dd / 100) as u8,
        (48 + (dd / 10) % 10) as u8,
        (48 + dd % 10) as u8,
        (48 + mm / 10) as u8,
        (48 + mm % 10) as u8,
        46u8,
        (48 + hh / 10) as u8,
        (48 + hh % 10) as u8,
        if !neg || dmh_units(dd, mm, hh) == 0 {
            69u8
        } else {
            87u8
        },
    ]
}

proof fn lemma_lon_text(dd: nat, mm: nat, hh: nat, neg: bool)
    requires
        dd < 1000,
        mm < 60,
        hh < 100,
    ensures
        spec_encode_lon_uncompressed(signed_units(dd, mm, hh, neg)) == lon_text(dd, mm, hh, neg),
{
    reveal(spec_encode_lon_uncompressed);
    lemma_dmh_grid(dd, mm, hh, neg);
    lemma_dec_pad3(dd);
    lemma_dec_pad2(mm);
    lemma_dec_pad2(hh);
    assert(spec_encode_lon_uncompressed(signed_units(dd, mm, hh, neg)) =~= lon_text(
        dd,
        mm,
        hh,
        neg,
    ));
}

#[verifier::spinoff_prover]
#[verifier::rlimit(30)]
proof fn lemma_lon_text_parse(dd: nat, mm: nat, hh: nat, neg: bool, p: Precision)
    requires
        lon_groups_ok(dd, mm, hh, spec_blank_digits(p)),
        lon_ok(signed_units(dd, mm, hh, neg)),
    ensures
        spec_parse_lon_uncompressed(lon_text(dd, mm, hh, neg), p) == Ok::<int, AprsErrorView>(
            signed_units(dd, mm, hh, neg),
        ),
{
    reveal(spec_parse_lon_uncompressed);
    let b = lon_text(dd, mm, hh, neg);
    let k = spec_blank_digits(p);
    let d = lon_digits(b, k);
    assert(d =~= seq![b[0], b[1], b[2], b[3], b[4], b[6], b[7]]);
    assert(d.subrange(0, 3) =~= seq![b[0], b[1], b[2]]);
    assert(d.subrange(3, 5) =~= seq![b[3], b[4]]);
    assert(d.subrange(5, 7) =~= seq![b[6], b[7]]);
    lemma_digits_value3(b[0], b[1], b[2]);
    crate::util::lemma_digits_value2(b[3], b[4]);
    crate::util::lemma_digits_value2(b[6], b[7]);
    assert(all_digits(seq![b[0], b[1], b[2]]));
    assert(all_digits(seq![b[3], b[4]]));
    assert(all_digits(seq![b[6], b[7]]));
}

/// The value and last digit of a short field read by `spec_parse_unsigned`.
proof fn lemma_unsigned_digits(s: Seq<u8>)
    requires
        2 <= s.len() <= 3,
        spec_parse_unsigned(s, 0xffff_ffff) is Some,
    ensures
        ({
            let v = spec_parse_unsigned(s, 0xffff_ffff)->Some_0;
            &&& s.len() == 3 ==> v < 1000
            &&& s.len() == 2 ==> v < 100
            &&& v % 10 == (s.last() - 48)
            &&& s.len() == 2 && is_digit(s[0]) ==> v / 10 == s[0] - 48
        }),
{
    let t = if s[0] == 43u8 {
        s.drop_first()
    } else {
        s
    };
    if t.len() == 3 {
        lemma_digits_value3(t[0], t[1], t[2]);
        assert(t =~= seq![t[0], t[1], t[2]]);
    } else if t.len() == 2 {
        crate::util::lemma_digits_value2(t[0], t[1]);
        assert(t =~= seq![t[0], t[1]]);
    } else {
        assert(t =~= seq![t[0]]);
        assert(t.drop_last() =~= Seq::<u8>::empty());
        assert(digits_value(Seq::<u8>::empty()) == 0);
    }
    assert(t.last() == s.last());
}

/// Degrees, minutes and hundredths that a decoded uncompressed longitude was
/// read from, minutes carried into degrees.
proof fn lemma_lon_decompose(b: Seq<u8>, p: Precision) -> (r: (nat, nat, nat, bool))
    requires
        spec_parse_lon_uncompressed(b, p) is Ok,
    ensures
        lon_groups_ok(r.0, r.1, r.2, spec_blank_digits(p)),
        spec_parse_lon_uncompressed(b, p)->Ok_0 == signed_units(r.0, r.1, r.2, r.3),
        lon_ok(signed_units(r.0, r.1, r.2, r.3)),
{
    reveal(spec_parse_lon_uncompressed);
    let k = spec_blank_digits(p);
    let d = lon_digits(b, k);
    let deg = spec_parse_unsigned(d.subrange(0, 3), 0xffff_ffff)->Some_0;
    let min = spec_parse_unsigned(d.subrange(3, 5), 0xffff_ffff)->Some_0;
    let h = spec_parse_unsigned(d.subrange(5, 7), 0xffff_ffff)->Some_0;
    lemma_unsigned_digits(d.subrange(0, 3));
    lemma_unsigned_digits(d.subrange(3, 5));
    lemma_unsigned_digits(d.subrange(5, 7));
    let neg = b[8] != 69u8;
    let dd = deg + min / 60;
    let mm = min % 60;
    assert(dmh_units(dd, mm, h) == dmh_units(deg, min, h));
    assert(dd * UNITS_PER_DEGREE <= dmh_units(dd, mm, h));
    (dd, mm, h, neg)
}

/// A decoded uncompressed longitude, written again, decodes to the same
/// longitude at the same precision.
pub proof fn lemma_lon_round_trip(b: Seq<u8>, p: Precision, u: int)
    requires
        spec_parse_lon_uncompressed(b, p) == Ok::<int, AprsErrorView>(u),
    ensures
        spec_parse_lon_uncompressed(spec_encode_lon_uncompressed(u), p) == Ok::<int, AprsErrorView>(u),
        spec_encode_lon_uncompressed(u).len() == 9,
{
    let (dd, mm, hh, neg) = lemma_lon_decompose(b, p);
    lemma_lon_text(dd, mm, hh, neg);
    lemma_lon_text_parse(dd, mm, hh, neg, p);
}

/// Four base-91 characters of a value below 91^4 decode back to it.
pub proof fn lemma_base91_round_trip(v: nat)
    requires
        v < 91 * 91 * 91 * 91,
    ensures
        spec_base91_decode4(spec_base91_encode4(v)) == Some(v),
{
    let v1 = v / 91;
    let v2 = v1 / 91;
    let v3 = v2 / 91;
    vstd::arithmetic::div_mod::lemma_div_denominator(v as int, 91, 91);
    vstd::arithmetic::div_mod::lemma_div_denominator(v1 as int, 91, 91);
    vstd::arithmetic::div_mod::lemma_div_denominator(v as int, 8281int, 91);
    assert(v / (91 * 91) == v2);
    assert(v / (91 * 91 * 91) == v3);
    assert(v3 < 91) by {
        vstd::arithmetic::div_mod::lemma_div_denominator(v as int, 753571int, 91);
        assert(v / (91 * 91 * 91 * 91) == 0);
    }
    let e = spec_base91_encode4(v);
    assert(e[0] - 33 == v3 % 91);
    assert(e[1] - 33 == v2 % 91);
    assert(e[2] - 33 == v1 % 91);
    assert(e[3] - 33 == v % 91);
    assert(v == v1 * 91 + v % 91);
    assert(v1 == v2 * 91 + v1 % 91);
    assert(v2 == v3 * 91 + v2 % 91);
    assert(forall|i: int| 0 <= i < 4 ==> 33 <= #[trigger] e[i] <= 123);
}

/// A value decoded from four base-91 characters is below 91^4.
proof fn lemma_base91_bound(b: Seq<u8>)
    requires
        spec_base91_decode4(b) is Some,
    ensures
        spec_base91_decode4(b)->Some_0 < 91 * 91 * 91 * 91,
{
    assert(33 <= b[0] <= 123);
    assert(33 <= b[1] <= 123);
    assert(33 <= b[2] <= 123);
    assert(33 <= b[3] <= 123);
    let d0 = b[0] - 33;
    let d1 = b[1] - 33;
    let d2 = b[2] - 33;
    let d3 = b[3] - 33;
    assert(((d0 * 91 + d1) * 91 + d2) * 91 + d3 <= ((90 * 91 + 90) * 91 + 90) * 91 + 90) by (nonlinear_arith)
        requires
            0 <= d0 <= 90,
            0 <= d1 <= 90,
            0 <= d2 <= 90,
            0 <= d3 <= 90,
    ;
}

/// A decoded compressed latitude, written again, decodes to the same
/// latitude.
pub proof fn lemma_lat_compressed_round_trip(b: Seq<u8>, u: int)
    requires
        spec_parse_lat_compressed(b) == Ok::<int, AprsErrorView>(u),
    ensures
        spec_parse_lat_compressed(spec_encode_lat_compressed(u)) == Ok::<int, AprsErrorView>(u),
        spec_encode_lat_compressed(u).len() == 4,
{
    let v = spec_base91_decode4(b)->Some_0;
    lemma_base91_bound(b);
    let x = 90 * UNITS_PER_DEGREE - u + UNITS_PER_COMPRESSED_LAT_STEP / 2;
    vstd::arithmetic::div_mod::lemma_fundamental_div_mod_converse(
        x,
        UNITS_PER_COMPRESSED_LAT_STEP as int,
        v as int,
        UNITS_PER_COMPRESSED_LAT_STEP / 2,
    );
    lemma_base91_round_trip(v);
}

/// A decoded compressed longitude, written again, decodes to the same
/// longitude.
pub proof fn lemma_lon_compressed_round_trip(b: Seq<u8>, u: int)
    requires
        spec_parse_lon_compressed(b) == Ok::<int, AprsErrorView>(u),
    ensures
        spec_parse_lon_compressed(spec_encode_lon_compressed(u)) == Ok::<int, AprsErrorView>(u),
        spec_encode_lon_compressed(u).len() == 4,
{
    let v = spec_base91_decode4(b)->Some_0;
    lemma_base91_bound(b);
    let x = 180 * UNITS_PER_DEGREE + u + UNITS_PER_COMPRESSED_LON_STEP / 2;
    vstd::arithmetic::div_mod::lemma_fundamental_div_mod_converse(
        x,
        UNITS_PER_COMPRESSED_LON_STEP as int,
        v as int,
        UNITS_PER_COMPRESSED_LON_STEP / 2,
    );
    lemma_base91_round_trip(v);
}


/// `u` moved away from zero by `delta` (a coordinate at zero moves up).
pub open spec fn refine(u: int, delta: int) -> int {
    if u >= 0 {
        u + delta
    } else {
        u - delta
    }
}

/// A coordinate truncated toward zero to the grid of hundredths of a minute.
pub open spec fn grid_floor(u: int) -> int {
    if u >= 0 {
        (u / UNITS_PER_HUNDREDTH_MINUTE as int) * UNITS_PER_HUNDREDTH_MINUTE
    } else {
        -(((-u) / UNITS_PER_HUNDREDTH_MINUTE as int) * UNITS_PER_HUNDREDTH_MINUTE)
    }
}

/// A grid coordinate moved away from zero by less than a hundredth of a
/// minute truncates back to itself.
proof fn lemma_grid_floor_nudge(dd: nat, mm: nat, hh: nat, neg: bool, d: int)
    requires
        0 <= d < UNITS_PER_HUNDREDTH_MINUTE,
    ensures
        grid_floor(refine(signed_units(dd, mm, hh, neg), d)) == signed_units(dd, mm, hh, neg),
{
    let a = dmh_units(dd, mm, hh);
    let k = (dd * 6000 + mm * 100 + hh) as int;
    assert(a == k * UNITS_PER_HUNDREDTH_MINUTE);
    vstd::arithmetic::div_mod::lemma_fundamental_div_mod_converse(
        a + d,
        UNITS_PER_HUNDREDTH_MINUTE as int,
        k,
        d,
    );
}

/// A decoded uncompressed latitude moved away from zero by less than a
/// hundredth of a minute truncates back to the latitude.
pub proof fn lemma_lat_grid_floor(b: Seq<u8>, u: int, p: Precision, d: int)
    requires
        spec_parse_lat_uncompressed(b) == Ok::<(int, Precision), AprsErrorView>((u, p)),
        0 <= d < UNITS_PER_HUNDREDTH_MINUTE,
    ensures
        grid_floor(refine(u, d)) == u,
{
    let (dd, mm, hh, k0, k1, k2, neg) = lemma_lat_decompose(b);
    lemma_grid_floor_nudge(dd, mm, hh, neg, d);
}

/// A decoded uncompressed longitude moved away from zero by less than a
/// hundredth of a minute truncates back to the longitude.
pub proof fn lemma_lon_grid_floor(b: Seq<u8>, p: Precision, u: int, d: int)
    requires
        spec_parse_lon_uncompressed(b, p) == Ok::<int, AprsErrorView>(u),
        0 <= d < UNITS_PER_HUNDREDTH_MINUTE,
    ensures
        grid_floor(refine(u, d)) == u,
{
    let (dd, mm, hh, neg) = lemma_lon_decompose(b, p);
    lemma_grid_floor_nudge(dd, mm, hh, neg, d);
}

/// A coordinate truncated toward zero to the grid of hundredths of a minute.
pub fn grid_floor_exec(u: i64) -> (r: i64)
    requires
        -200 * UNITS_PER_DEGREE <= u <= 200 * UNITS_PER_DEGREE,
    ensures
        r == grid_floor(u as int),
        -(u as int) <= r <= u || u <= r <= -(u as int),
{
    let h: i64 = UNITS_PER_HUNDREDTH_MINUTE;
    if u >= 0 {
        proof {
            vstd::arithmetic::div_mod::lemma_fundamental_div_mod(u as int, h as int);
        }
        (u / h) * h
    } else {
        let a: i64 = -u;
        proof {
            vstd::arithmetic::div_mod::lemma_fundamental_div_mod(a as int, h as int);
        }
        -((a / h) * h)
    }
}

} // verus!
