//! The 7-byte data extensions that may follow a position: course/speed,
//! PHG, RNG and DFS.
use crate::error::{AprsError, AprsErrorView};
use crate::util::{
    all_digits, dec_pad, digits_value, is_digit, lemma_dec_pad, push_dec_pad, starts_with,
};
use vstd::prelude::*;

verus! {

/// Antenna directivity.
#[derive(Debug, Clone, Copy, PartialEq, Eq, Structural)]
pub enum Directivity {
    Omni,
    /// Direction in degrees (multiples of 45°).
    Degrees(u16),
}

/// A data extension field that follows the position in the comment field.
///
/// Extensions occupy exactly 7 bytes in a fixed format that depends on the
/// extension type. Unknown or malformed extensions are not an error: the
/// caller keeps the whole comment.
#[derive(Debug, Clone, Copy, PartialEq, Eq, Structural)]
pub enum Extension {
    /// Course (degrees) and speed (knots). Format: `DDD/SSS`.
    DirectionSpeed { direction_degrees: u16, speed_knots: u16 },
    /// Power-Height-Gain-Directivity. Format: `PHGphgd`.
    Phg {
        power_watts: u32,
        antenna_height_feet: u32,
        antenna_gain_db: u8,
        directivity: Directivity,
    },
    /// Pre-calculated radio range. Format: `RNGrrrr`.
    Rng { range_miles: u16 },
    /// DF Strength-Height-Gain-Directivity. Format: `DFSshgd`.
    Dfs {
        s_points: u8,
        antenna_height_feet: u32,
        antenna_gain_db: u8,
        directivity: Directivity,
    },
}

/// 2 to the power `n`.
pub open spec fn pow2(n: nat) -> nat
    decreases n,
{
    if n == 0 {
        1
    } else {
        2 * pow2((n - 1) as nat)
    }
}

/// The largest `k` at least `from` with `k * k <= n` reached by counting up
/// from `from`.
pub open spec fn isqrt_from(n: nat, k: nat) -> nat
    decreases n - k,
    when k <= n
{
    if k >= n || (k + 1) * (k + 1) > n {
        k
    } else {
        isqrt_from(n, k + 1)
    }
}

/// The integer square root of `n` (`floor(sqrt(n))`).
pub open spec fn isqrt(n: nat) -> nat {
    isqrt_from(n, 0)
}

/// `floor(log2(n))` for `n >= 1`, and 0 for 0.
pub open spec fn log2_floor(n: nat) -> nat
    decreases n,
{
    if n < 2 {
        0
    } else {
        1 + log2_floor(n / 2)
    }
}

/// The directivity for the digit `d` of a PHG/DFS extension: 0 is
/// omnidirectional, 1–8 are multiples of 45°.
pub open spec fn spec_directivity_from_digit(d: nat) -> Option<Directivity> {
    if d == 0 {
        Some(Directivity::Omni)
    } else if d < 9 {
        Some(Directivity::Degrees((d * 45) as u16))
    } else {
        None
    }
}

/// The digit written for a directivity: 8 for 360°, otherwise the
/// direction (taken modulo 360°) in steps of 45°.
pub open spec fn spec_directivity_digit(d: Directivity) -> u8 {
    match d {
        Directivity::Omni => 0,
        Directivity::Degrees(deg) => if deg == 360 {
            8
        } else {
            ((deg % 360) / 45) as u8
        },
    }
}

/// The antenna height written by the PHG/DFS height character `h`:
/// `10 * 2^(h - '0')`.
pub open spec fn height_feet(h: u8) -> nat {
    10 * pow2((h - 48) as nat)
}

/// The PHG/DFS height character for a height in feet.
pub open spec fn height_char(feet: u32) -> nat {
    if feet >= 10 {
        log2_floor((feet / 10) as nat) + 48
    } else {
        48
    }
}

pub open spec fn digit_value(b: u8) -> nat {
    (b - 48) as nat
}

/// The extension written in the first 7 bytes of `data`, if any.
pub open spec fn spec_parse_extension(data: Seq<u8>) -> Option<Extension> {
    if data.len() < 7 {
        None
    } else {
        let b = data.subrange(0, 7);
        if b[3] == 47u8 && all_digits(b.subrange(0, 3)) && all_digits(b.subrange(4, 7)) {
            Some(
                Extension::DirectionSpeed {
                    direction_degrees: digits_value(b.subrange(0, 3)) as u16,
                    speed_knots: digits_value(b.subrange(4, 7)) as u16,
                },
            )
        } else if starts_with(b, seq![80u8, 72u8, 71u8]) && all_digits(b.subrange(3, 7)) {
            match spec_directivity_from_digit(digit_value(b[6])) {
                Some(d) => Some(
                    Extension::Phg {
                        power_watts: (digit_value(b[3]) * digit_value(b[3])) as u32,
                        antenna_height_feet: height_feet(b[4]) as u32,
                        antenna_gain_db: digit_value(b[5]) as u8,
                        directivity: d,
                    },
                ),
                None => None,
            }
        } else if starts_with(b, seq![82u8, 78u8, 71u8]) && all_digits(b.subrange(3, 7)) {
            Some(Extension::Rng { range_miles: digits_value(b.subrange(3, 7)) as u16 })
        } else if starts_with(b, seq![68u8, 70u8, 83u8]) && all_digits(b.subrange(3, 7)) {
            match spec_directivity_from_digit(digit_value(b[6])) {
                Some(d) => Some(
                    Extension::Dfs {
                        s_points: digit_value(b[3]) as u8,
                        antenna_height_feet: height_feet(b[4]) as u32,
                        antenna_gain_db: digit_value(b[5]) as u8,
                        directivity: d,
                    },
                ),
                None => None,
            }
        } else {
            None
        }
    }
}

/// An extension whose digits fit the characters that encode them, so that
/// encoding it does not overflow.
pub open spec fn extension_encodable(e: Extension) -> bool {
    match e {
        Extension::Phg { power_watts, antenna_gain_db, .. } => isqrt(power_watts as nat) <= 207
            && antenna_gain_db <= 207,
        Extension::Dfs { s_points, antenna_gain_db, .. } => s_points <= 207 && antenna_gain_db
            <= 207,
        _ => true,
    }
}

/// The wire form of an extension.
pub open spec fn spec_encode_extension(e: Extension) -> Seq<u8> {
    match e {
        Extension::DirectionSpeed { direction_degrees, speed_knots } => dec_pad(
            direction_degrees as nat,
            3,
        ) + seq![47u8] + dec_pad(speed_knots as nat, 3),
        Extension::Phg { power_watts, antenna_height_feet, antenna_gain_db, directivity } => seq![
            80u8,
            72u8,
            71u8,
            (isqrt(power_watts as nat) + 48) as u8,
            height_char(antenna_height_feet) as u8,
            (antenna_gain_db + 48) as u8,
            (spec_directivity_digit(directivity) + 48) as u8,
        ],
        Extension::Rng { range_miles } => seq![82u8, 78u8, 71u8] + dec_pad(range_miles as nat, 4),
        Extension::Dfs { s_points, antenna_height_feet, antenna_gain_db, directivity } => seq![
            68u8,
            70u8,
            83u8,
            (s_points + 48) as u8,
            height_char(antenna_height_feet) as u8,
            (antenna_gain_db + 48) as u8,
            (spec_directivity_digit(directivity) + 48) as u8,
        ],
    }
}

fn directivity_from_digit(d: u8) -> (r: Option<Directivity>)
    ensures
        r == spec_directivity_from_digit(d as nat),
{
    if d == 0 {
        return Some(Directivity::Omni);
    }
    if d < 9 {
        return Some(Directivity::Degrees(d as u16 * 45));
    }
    None
}

fn directivity_digit(d: Directivity) -> (r: u8)
    ensures
        r == spec_directivity_digit(d),
        r <= 8,
{
    match d {
        Directivity::Omni => 0,
        Directivity::Degrees(deg) => if deg == 360 {
            8
        } else {
            ((deg % 360) / 45) as u8
        },
    }
}

proof fn lemma_pow2_small(n: nat)
    requires
        n <= 9,
    ensures
        1 <= pow2(n) <= 512,
{
    reveal_with_fuel(pow2, 10);
}

fn pow2_exec(n: u32) -> (r: u32)
    requires
        n <= 9,
    ensures
        r == pow2(n as nat),
        r <= 512,
    decreases n,
{
    proof {
        lemma_pow2_small(n as nat);
    }
    if n == 0 {
        1
    } else {
        proof {
            lemma_pow2_small((n - 1) as nat);
        }
        2 * pow2_exec(n - 1)
    }
}

/// `floor(sqrt(n))`, counting up; enough for any `u32`.
fn isqrt_exec(n: u32) -> (r: u32)
    ensures
        r == isqrt(n as nat),
        r <= 65535,
{
    let mut k: u64 = 0;
    let mut done = false;
    while !done
        invariant
            k <= n,
            k <= 65535,
            k * k <= n,
            isqrt(n as nat) == isqrt_from(n as nat, k as nat),
            done ==> isqrt_from(n as nat, k as nat) == k,
        decreases n - k + (if done {
            0int
        } else {
            1int
        }),
    {
        if k >= n as u64 {
            done = true;
        } else {
            assert((k + 1) * (k + 1) <= 0x1_0000_0000) by (nonlinear_arith)
                requires
                    k <= 65535,
            ;
            if (k + 1) * (k + 1) > n as u64 {
                done = true;
            } else {
                assert(k + 1 <= 65535) by (nonlinear_arith)
                    requires
                        (k + 1) * (k + 1) <= 0xffff_ffff,
                ;
                k = k + 1;
            }
        }
    }
    k as u32
}

fn log2_floor_exec(n: u32) -> (r: u32)
    ensures
        r == log2_floor(n as nat),
        r <= 32,
{
    let mut x = n;
    let mut r: u32 = 0;
    assert(pow2(0) == 1);
    while x >= 2
        invariant
            log2_floor(n as nat) == r + log2_floor(x as nat),
            r <= 32,
            x as nat * pow2(r as nat) <= n,
        decreases x,
    {
        proof {
            lemma_pow2_growth(r as nat);
            let p = pow2(r as nat);
            assert(p <= x as nat * p) by (nonlinear_arith)
                requires
                    x >= 2,
                    p >= 1,
            ;
            assert(pow2((r + 1) as nat) == 2 * p);
            assert(((x / 2) as nat) * (2 * p) <= x as nat * p) by (nonlinear_arith)
                requires
                    p >= 1,
            ;
        }
        x = x / 2;
        r = r + 1;
    }
    r
}

proof fn lemma_pow2_growth(r: nat)
    ensures
        r >= 32 ==> pow2(r) > 0xffff_ffff,
        pow2(r) >= 1,
    decreases r,
{
    if r > 0 {
        lemma_pow2_growth((r - 1) as nat);
        if r >= 32 {
            if r - 1 >= 32 {
            } else {
                assert(r == 32);
                assert(pow2(32) == 0x1_0000_0000) by {
                    reveal_with_fuel(pow2, 33);
                }
            }
        }
    }
}

fn height_char_exec(feet: u32) -> (r: u8)
    ensures
        r == height_char(feet),
{
    if feet >= 10 {
        (log2_floor_exec(feet / 10) + 48) as u8
    } else {
        48
    }
}

fn digits3(b: &[u8], i: usize) -> (r: u16)
    requires
        i + 3 <= b@.len(),
        all_digits(b@.subrange(i as int, i + 3)),
    ensures
        r == digits_value(b@.subrange(i as int, i + 3)),
{
    let ghost s = b@.subrange(i as int, i + 3);
    assert(is_digit(s[0]) && is_digit(s[1]) && is_digit(s[2]));
    assert(s.drop_last().drop_last().drop_last() =~= Seq::<u8>::empty());
    reveal_with_fuel(digits_value, 4);
    ((b[i] - 48) as u16) * 100 + ((b[i + 1] - 48) as u16) * 10 + (b[i + 2] - 48) as u16
}

fn digits4(b: &[u8], i: usize) -> (r: u16)
    requires
        i + 4 <= b@.len(),
        all_digits(b@.subrange(i as int, i + 4)),
    ensures
        r == digits_value(b@.subrange(i as int, i + 4)),
{
    let ghost s = b@.subrange(i as int, i + 4);
    assert(is_digit(s[0]) && is_digit(s[1]) && is_digit(s[2]) && is_digit(s[3]));
    assert(s.drop_last().drop_last().drop_last().drop_last() =~= Seq::<u8>::empty());
    reveal_with_fuel(digits_value, 5);
    ((b[i] - 48) as u16) * 1000 + ((b[i + 1] - 48) as u16) * 100 + ((b[i + 2] - 48) as u16) * 10
        + (b[i + 3] - 48) as u16
}

fn digit_at(b: &[u8], i: usize) -> (r: bool)
    requires
        i < b@.len(),
    ensures
        r == is_digit(b@[i as int]),
{
    b[i] >= 48 && b[i] <= 57
}

impl Extension {
    /// Attempt to parse the first 7 bytes of `data` as an extension field.
    /// Returns `None` if unrecognized or malformed.
    pub fn parse(data: &[u8]) -> (r: Option<Self>)
        ensures
            r == spec_parse_extension(data@),
    {
        if data.len() < 7 {
            return None;
        }
        let ghost b = data@.subrange(0, 7);
        let d0 = digit_at(data, 0);
        let d1 = digit_at(data, 1);
        let d2 = digit_at(data, 2);
        let d3 = digit_at(data, 3);
        let d4 = digit_at(data, 4);
        let d5 = digit_at(data, 5);
        let d6 = digit_at(data, 6);
        proof {
            assert(all_digits(b.subrange(0, 3)) <==> (d0 && d1 && d2)) by {
                if d0 && d1 && d2 {
                    assert forall|k: int| 0 <= k < 3 implies is_digit(
                        #[trigger] b.subrange(0, 3)[k],
                    ) by {
                        assert(b.subrange(0, 3)[k] == data@[k]);
                    }
                } else if all_digits(b.subrange(0, 3)) {
                    assert(is_digit(b.subrange(0, 3)[0]) && is_digit(b.subrange(0, 3)[1])
                        && is_digit(b.subrange(0, 3)[2]));
                }
            }
            assert(all_digits(b.subrange(4, 7)) <==> (d4 && d5 && d6)) by {
                if d4 && d5 && d6 {
                    assert forall|k: int| 0 <= k < 3 implies is_digit(
                        #[trigger] b.subrange(4, 7)[k],
                    ) by {
                        assert(b.subrange(4, 7)[k] == data@[k + 4]);
                    }
                } else if all_digits(b.subrange(4, 7)) {
                    assert(is_digit(b.subrange(4, 7)[0]) && is_digit(b.subrange(4, 7)[1])
                        && is_digit(b.subrange(4, 7)[2]));
                }
            }
            assert(all_digits(b.subrange(3, 7)) <==> (d3 && d4 && d5 && d6)) by {
                if d3 && d4 && d5 && d6 {
                    assert forall|k: int| 0 <= k < 4 implies is_digit(
                        #[trigger] b.subrange(3, 7)[k],
                    ) by {
                        assert(b.subrange(3, 7)[k] == data@[k + 3]);
                    }
                } else if all_digits(b.subrange(3, 7)) {
                    assert(is_digit(b.subrange(3, 7)[0]) && is_digit(b.subrange(3, 7)[1])
                        && is_digit(b.subrange(3, 7)[2]) && is_digit(b.subrange(3, 7)[3]));
                }
            }
            assert(b.subrange(0, 3) =~= data@.subrange(0, 3));
            assert(b.subrange(4, 7) =~= data@.subrange(4, 7));
            assert(b.subrange(3, 7) =~= data@.subrange(3, 7));
        }
        let p0 = data[0];
        let p1 = data[1];
        let p2 = data[2];
        proof {
            assert(starts_with(b, seq![80u8, 72u8, 71u8]) <==> (p0 == 80 && p1 == 72 && p2 == 71))
                by {
                if p0 == 80 && p1 == 72 && p2 == 71 {
                    assert(b.subrange(0, 3) =~= seq![80u8, 72u8, 71u8]);
                }
            }
            assert(starts_with(b, seq![82u8, 78u8, 71u8]) <==> (p0 == 82 && p1 == 78 && p2 == 71))
                by {
                if p0 == 82 && p1 == 78 && p2 == 71 {
                    assert(b.subrange(0, 3) =~= seq![82u8, 78u8, 71u8]);
                }
            }
            assert(starts_with(b, seq![68u8, 70u8, 83u8]) <==> (p0 == 68 && p1 == 70 && p2 == 83))
                by {
                if p0 == 68 && p1 == 70 && p2 == 83 {
                    assert(b.subrange(0, 3) =~= seq![68u8, 70u8, 83u8]);
                }
            }
        }
        // Course/Speed: `DDD/SSS`
        if data[3] == '/' as u8 && d0 && d1 && d2 && d4 && d5 && d6 {
            let dir = digits3(data, 0);
            let spd = digits3(data, 4);
            return Some(Extension::DirectionSpeed { direction_degrees: dir, speed_knots: spd });
        }
        // PHG: `PHGphgd`
        if p0 == 'P' as u8 && p1 == 'H' as u8 && p2 == 'G' as u8 && d3 && d4 && d5 && d6 {
            let p = data[3] - 48;
            let h = data[4];
            let g = data[5] - 48;
            let d = data[6] - 48;
            let directivity = match directivity_from_digit(d) {
                Some(v) => v,
                None => {
                    return None;
                },
            };
            assert(p <= 9);
            assert((p as u32) * (p as u32) <= 81) by (nonlinear_arith)
                requires
                    p <= 9,
            ;
            let power_watts = (p as u32) * (p as u32);
            let antenna_height_feet = 10 * pow2_exec((h - 48) as u32);
            return Some(
                Extension::Phg { power_watts, antenna_height_feet, antenna_gain_db: g, directivity },
            );
        }
        // RNG: `RNGrrrr`
        if p0 == 'R' as u8 && p1 == 'N' as u8 && p2 == 'G' as u8 && d3 && d4 && d5 && d6 {
            let range = digits4(data, 3);
            return Some(Extension::Rng { range_miles: range });
        }
        // DFS: `DFSshgd`
        if p0 == 'D' as u8 && p1 == 'F' as u8 && p2 == 'S' as u8 && d3 && d4 && d5 && d6 {
            let s = data[3] - 48;
            let h = data[4];
            let g = data[5] - 48;
            let d = data[6] - 48;
            let directivity = match directivity_from_digit(d) {
                Some(v) => v,
                None => {
                    return None;
                },
            };
            let antenna_height_feet = 10 * pow2_exec((h - 48) as u32);
            return Some(
                Extension::Dfs {
                    s_points: s,
                    antenna_gain_db: g,
                    antenna_height_feet,
                    directivity,
                },
            );
        }
        None
    }

    /// Encode the extension field as exactly 7 bytes into `out`.
    pub fn encode(&self, out: &mut Vec<u8>)
        requires
            extension_encodable(*self),
        ensures
            final(out)@ == old(out)@ + spec_encode_extension(*self),
    {
        match *self {
            Extension::DirectionSpeed { direction_degrees, speed_knots } => {
                push_dec_pad(out, direction_degrees as u64, 3);
                out.push('/' as u8);
                push_dec_pad(out, speed_knots as u64, 3);
            },
            Extension::Phg { power_watts, antenna_height_feet, antenna_gain_db, directivity } => {
                let p = isqrt_exec(power_watts) as u8;
                let h = height_char_exec(antenna_height_feet);
                out.push('P' as u8);
                out.push('H' as u8);
                out.push('G' as u8);
                out.push(p + 48);
                out.push(h);
                out.push(antenna_gain_db + 48);
                out.push(directivity_digit(directivity) + 48);
            },
            Extension::Rng { range_miles } => {
                out.push('R' as u8);
                out.push('N' as u8);
                out.push('G' as u8);
                push_dec_pad(out, range_miles as u64, 4);
            },
            Extension::Dfs { s_points, antenna_height_feet, antenna_gain_db, directivity } => {
                let h = height_char_exec(antenna_height_feet);
                out.push('D' as u8);
                out.push('F' as u8);
                out.push('S' as u8);
                out.push(s_points + 48);
                out.push(h);
                out.push(antenna_gain_db + 48);
                out.push(directivity_digit(directivity) + 48);
            },
        }
        assert(final(out)@ =~= old(out)@ + spec_encode_extension(*self));
    }

    /// Parse an extension that is required: unrecognized or malformed input is
    /// an error.
    pub fn require(data: &[u8]) -> (r: Result<Self, AprsError>)
        ensures
            match spec_parse_extension(data@) {
                Some(e) => r matches Ok(x) && x == e,
                None => r matches Err(x) && x@ == AprsErrorView::UnsupportedPositionFormat,
            },
    {
        match Self::parse(data) {
            Some(e) => Ok(e),
            None => Err(AprsError::UnsupportedPositionFormat),
        }
    }
}

proof fn lemma_isqrt_from_square(d: nat, k: nat)
    requires
        k <= d,
    ensures
        isqrt_from(d * d, k) == d,
    decreases d - k,
{
    assert(k <= d * d) by (nonlinear_arith)
        requires
            k <= d,
    ;
    if k < d {
        assert((k + 1) * (k + 1) <= d * d) by (nonlinear_arith)
            requires
                k + 1 <= d,
        ;
        assert(k < d * d) by (nonlinear_arith)
            requires
                k < d,
        ;
        lemma_isqrt_from_square(d, k + 1);
    } else {
        assert((d + 1) * (d + 1) > d * d) by (nonlinear_arith);
    }
}

proof fn lemma_log2_pow2(k: nat)
    ensures
        log2_floor(pow2(k)) == k,
        pow2(k) >= 1,
    decreases k,
{
    if k > 0 {
        lemma_log2_pow2((k - 1) as nat);
        assert(pow2(k) / 2 == pow2((k - 1) as nat));
    }
}

/// The height character of a PHG/DFS height read from a digit gives the
/// digit back.
proof fn lemma_height_char(h: u8)
    requires
        is_digit(h),
    ensures
        height_char(height_feet(h) as u32) == h as nat,
        height_feet(h) <= 5120,
{
    lemma_pow2_small((h - 48) as nat);
    lemma_log2_pow2((h - 48) as nat);
    let p = pow2((h - 48) as nat);
    assert((10 * p) / 10 == p);
}

/// The digit written for the directivity of a digit 0–8 is that digit.
proof fn lemma_directivity_digit(d: nat)
    requires
        spec_directivity_from_digit(d) is Some,
    ensures
        spec_directivity_digit(spec_directivity_from_digit(d)->Some_0) == d,
{
    if 0 < d < 8 {
        assert(((d * 45) % 360) / 45 == d) by (nonlinear_arith)
            requires
                1 <= d < 8,
        ;
    }
}

/// A decoded extension is written as the seven bytes it was read from.
pub proof fn lemma_extension_round_trip(data: Seq<u8>)
    requires
        spec_parse_extension(data) is Some,
    ensures
        extension_encodable(spec_parse_extension(data)->Some_0),
        spec_encode_extension(spec_parse_extension(data)->Some_0) == data.subrange(0, 7),
{
    let b = data.subrange(0, 7);
    let e = spec_parse_extension(data)->Some_0;
    let w = spec_encode_extension(e);
    match e {
        Extension::DirectionSpeed { direction_degrees, speed_knots } => {
            crate::util::lemma_digits_value_lt(b.subrange(0, 3));
            crate::util::lemma_digits_value_lt(b.subrange(4, 7));
            assert(crate::util::pow10(3) == 1000) by {
                reveal_with_fuel(crate::util::pow10, 4);
            }
            crate::util::lemma_digit_string3(b.subrange(0, 3));
            crate::util::lemma_digit_string3(b.subrange(4, 7));
            assert(w =~= b);
        },
        Extension::Rng { range_miles } => {
            crate::util::lemma_digits_value_lt(b.subrange(3, 7));
            assert(crate::util::pow10(4) == 10000) by {
                reveal_with_fuel(crate::util::pow10, 5);
            }
            crate::util::lemma_digit_string4(b.subrange(3, 7));
            assert(w =~= b);
        },
        Extension::Phg { power_watts, antenna_height_feet, antenna_gain_db, directivity } => {
            assert(is_digit(b[3]) && is_digit(b[4]) && is_digit(b[5]) && is_digit(b[6])) by {
                assert(b[3] == b.subrange(3, 7)[0]);
                assert(b[4] == b.subrange(3, 7)[1]);
                assert(b[5] == b.subrange(3, 7)[2]);
                assert(b[6] == b.subrange(3, 7)[3]);
            }
            let d = digit_value(b[3]);
            assert(d * d <= 81) by (nonlinear_arith)
                requires
                    d <= 9,
            ;
            lemma_isqrt_from_square(d, 0);
            assert(power_watts as nat == d * d);
            assert(isqrt(power_watts as nat) == d);
            lemma_height_char(b[4]);
            lemma_directivity_digit(digit_value(b[6]));
            assert(b.subrange(0, 3) == seq![80u8, 72u8, 71u8]);
            assert(b[0] == 80u8 && b[1] == 72u8 && b[2] == 71u8) by {
                assert(b[0] == b.subrange(0, 3)[0]);
                assert(b[1] == b.subrange(0, 3)[1]);
                assert(b[2] == b.subrange(0, 3)[2]);
            }
            assert(w =~= b);
        },
        Extension::Dfs { s_points, antenna_height_feet, antenna_gain_db, directivity } => {
            assert(is_digit(b[3]) && is_digit(b[4]) && is_digit(b[5]) && is_digit(b[6])) by {
                assert(b[3] == b.subrange(3, 7)[0]);
                assert(b[4] == b.subrange(3, 7)[1]);
                assert(b[5] == b.subrange(3, 7)[2]);
                assert(b[6] == b.subrange(3, 7)[3]);
            }
            lemma_height_char(b[4]);
            lemma_directivity_digit(digit_value(b[6]));
            assert(b.subrange(0, 3) == seq![68u8, 70u8, 83u8]);
            assert(b[0] == 68u8 && b[1] == 70u8 && b[2] == 83u8) by {
                assert(b[0] == b.subrange(0, 3)[0]);
                assert(b[1] == b.subrange(0, 3)[1]);
                assert(b[2] == b.subrange(0, 3)[2]);
            }
            assert(w =~= b);
        },
    }
}

} // verus!
