//! APRS weather data — both position-embedded and positionless reports.
//!
//! Every field keeps the native APRS wire unit; conversions to other units
//! are left to the caller.
use crate::error::{AprsError, AprsErrorView};
use crate::util::{
    all_digits, copy_range, dec_pad, digits_value, extend, is_digit, lemma_parse_unsigned_short,
    parse_i16, parse_unsigned, push_dec_pad, spec_parse_i16, spec_parse_unsigned,
};
use vstd::prelude::*;
use vstd::seq_lib::lemma_concat_associative;

verus! {

// ─── Unit newtypes ────────────────────────────────────────────────────────────
/// Wind direction in degrees (0–360; 0 means unknown/variable).
#[derive(Debug, Copy, Clone, PartialEq, Eq, Structural)]
pub struct WindDirection(pub u16);

impl WindDirection {
    pub fn degrees(self) -> (r: u16)
        ensures
            r == self.0,
    {
        self.0
    }
}

/// Wind speed in statute miles per hour (APRS native unit).
#[derive(Debug, Copy, Clone, PartialEq, Eq, Structural)]
pub struct WindSpeed(pub u16);

impl WindSpeed {
    pub fn mph(self) -> (r: u16)
        ensures
            r == self.0,
    {
        self.0
    }
}

/// Temperature in degrees Fahrenheit (APRS native unit).
#[derive(Debug, Copy, Clone, PartialEq, Eq, Structural)]
pub struct Temperature(pub i16);

impl Temperature {
    pub fn fahrenheit(self) -> (r: i16)
        ensures
            r == self.0,
    {
        self.0
    }
}

/// Rainfall in hundredths of an inch (APRS native unit).
#[derive(Debug, Copy, Clone, PartialEq, Eq, Structural)]
pub struct Rainfall(pub u16);

impl Rainfall {
    pub fn hundredths_inch(self) -> (r: u16)
        ensures
            r == self.0,
    {
        self.0
    }
}

/// Relative humidity in percent (0–100; the wire value `00` means 100%).
#[derive(Debug, Copy, Clone, PartialEq, Eq, Structural)]
pub struct Humidity(pub u8);

impl Humidity {
    pub fn percent(self) -> (r: u8)
        ensures
            r == self.0,
    {
        self.0
    }
}

/// Barometric pressure in tenths of a millibar (= hundredths of hPa).
///
/// Example: 10250 → 1025.0 hPa.
#[derive(Debug, Copy, Clone, PartialEq, Eq, Structural)]
pub struct Pressure(pub u32);

impl Pressure {
    pub fn tenths_mbar(self) -> (r: u32)
        ensures
            r == self.0,
    {
        self.0
    }
}

/// Solar luminosity in watts per square metre.
#[derive(Debug, Copy, Clone, PartialEq, Eq, Structural)]
pub struct Luminosity(pub u16);

impl Luminosity {
    pub fn w_per_m2(self) -> (r: u16)
        ensures
            r == self.0,
    {
        self.0
    }
}

/// Snowfall over the last 24 hours in tenths of an inch, as the three-digit
/// wire value `sNNN`.
#[derive(Debug, Copy, Clone, PartialEq, Eq, Structural)]
pub struct Snowfall(pub u16);

impl Snowfall {
    /// The wire value.
    pub fn raw(self) -> (r: u16)
        ensures
            r == self.0,
    {
        self.0
    }
}

// ─── AprsWeatherData ─────────────────────────────────────────────────────────
/// Weather data fields, parsed from either a position packet (symbol `/_`)
/// or a positionless weather report (DTI `_`).
///
/// Every field is an `Option` — not all transmitting stations send all fields.
#[derive(Debug, Copy, Clone, PartialEq, Eq, Structural)]
pub struct AprsWeatherData {
    /// Wind direction (degrees, 0=unknown). Native: degrees.
    pub wind_direction: Option<WindDirection>,
    /// Sustained wind speed. Native: mph.
    pub wind_speed: Option<WindSpeed>,
    /// Peak wind gust in last 5 minutes. Native: mph.
    pub wind_gust: Option<WindSpeed>,
    /// Temperature. Native: °F.
    pub temperature: Option<Temperature>,
    /// Rainfall in the last hour. Native: hundredths of an inch.
    pub rain_last_hour: Option<Rainfall>,
    /// Rainfall in the last 24 hours. Native: hundredths of an inch.
    pub rain_last_24h: Option<Rainfall>,
    /// Rainfall since midnight. Native: hundredths of an inch.
    pub rain_since_midnight: Option<Rainfall>,
    /// Relative humidity 0–100 (wire `00` = 100%). Native: percent.
    pub humidity: Option<Humidity>,
    /// Barometric pressure. Native: tenths of a millibar.
    pub barometric_pressure: Option<Pressure>,
    /// Solar radiation. Native: W/m².
    pub luminosity: Option<Luminosity>,
    /// Snowfall in the last 24 hours (wire value).
    pub snow_last_24h: Option<Snowfall>,
    /// Raw rain counter (implementation-specific).
    pub raw_rain_counter: Option<u16>,
}

/// The report with no field present.
pub open spec fn empty_weather() -> AprsWeatherData {
    AprsWeatherData {
        wind_direction: None,
        wind_speed: None,
        wind_gust: None,
        temperature: None,
        rain_last_hour: None,
        rain_last_24h: None,
        rain_since_midnight: None,
        humidity: None,
        barometric_pressure: None,
        luminosity: None,
        snow_last_24h: None,
        raw_rain_counter: None,
    }
}

impl Default for AprsWeatherData {
    fn default() -> (r: Self)
        ensures
            r == empty_weather(),
    {
        AprsWeatherData {
            wind_direction: None,
            wind_speed: None,
            wind_gust: None,
            temperature: None,
            rain_last_hour: None,
            rain_last_24h: None,
            rain_since_midnight: None,
            humidity: None,
            barometric_pressure: None,
            luminosity: None,
            snow_last_24h: None,
            raw_rain_counter: None,
        }
    }
}

/// A field of only dots and spaces: the value is missing.
pub open spec fn all_blank(s: Seq<u8>) -> bool {
    forall|i: int| 0 <= i < s.len() ==> (#[trigger] s[i] == 46u8 || s[i] == 32u8)
}

/// A field read as a `u16`; `None` when blank or unparseable.
pub open spec fn spec_opt_u16(s: Seq<u8>) -> Option<u16> {
    if all_blank(s) {
        None
    } else {
        match spec_parse_unsigned(s, 0xffff) {
            Some(v) => Some(v as u16),
            None => None,
        }
    }
}

/// A field read as an `i16`; `None` when blank or unparseable.
pub open spec fn spec_opt_i16(s: Seq<u8>) -> Option<i16> {
    if all_blank(s) {
        None
    } else {
        match spec_parse_i16(s) {
            Some(v) => Some(v as i16),
            None => None,
        }
    }
}

/// Width of the value after a field letter, or 0 for a letter that ends the
/// weather block.
pub open spec fn field_len(k: u8) -> nat {
    if k == 103u8 || k == 116u8 || k == 114u8 || k == 112u8 || k == 80u8 || k == 76u8 || k
        == 108u8 || k == 115u8 || k == 35u8 {
        3
    } else if k == 104u8 {
        2
    } else if k == 98u8 {
        5
    } else {
        0
    }
}

/// `w` after reading the value `s` of the field with letter `k`.
pub open spec fn wx_apply(k: u8, s: Seq<u8>, w: AprsWeatherData) -> AprsWeatherData {
    if k == 103u8 {
        AprsWeatherData {
            wind_gust: match spec_opt_u16(s) {
                Some(v) => Some(WindSpeed(v)),
                None => None,
            },
            ..w
        }
    } else if k == 116u8 {
        AprsWeatherData {
            temperature: match spec_opt_i16(s) {
                Some(v) => Some(Temperature(v)),
                None => None,
            },
            ..w
        }
    } else if k == 114u8 {
        AprsWeatherData {
            rain_last_hour: match spec_opt_u16(s) {
                Some(v) => Some(Rainfall(v)),
                None => None,
            },
            ..w
        }
    } else if k == 112u8 {
        AprsWeatherData {
            rain_last_24h: match spec_opt_u16(s) {
                Some(v) => Some(Rainfall(v)),
                None => None,
            },
            ..w
        }
    } else if k == 80u8 {
        AprsWeatherData {
            rain_since_midnight: match spec_opt_u16(s) {
                Some(v) => Some(Rainfall(v)),
                None => None,
            },
            ..w
        }
    } else if k == 104u8 {
        AprsWeatherData {
            humidity: match spec_opt_u16(s) {
                Some(v) => Some(
                    Humidity(
                        if v == 0 {
                            100
                        } else {
                            v as u8
                        },
                    ),
                ),
                None => None,
            },
            ..w
        }
    } else if k == 98u8 {
        AprsWeatherData {
            barometric_pressure: match spec_parse_unsigned(s, 0xffff_ffff) {
                Some(v) => Some(Pressure(v as u32)),
                None => None,
            },
            ..w
        }
    } else if k == 76u8 {
        AprsWeatherData {
            luminosity: match spec_opt_u16(s) {
                Some(v) => Some(Luminosity((v + 1000) as u16)),
                None => None,
            },
            ..w
        }
    } else if k == 108u8 {
        AprsWeatherData {
            luminosity: match spec_opt_u16(s) {
                Some(v) => Some(Luminosity(v)),
                None => None,
            },
            ..w
        }
    } else if k == 115u8 {
        AprsWeatherData {
            snow_last_24h: match spec_opt_u16(s) {
                Some(v) => Some(Snowfall(v)),
                None => None,
            },
            ..w
        }
    } else if k == 35u8 {
        AprsWeatherData { raw_rain_counter: spec_opt_u16(s), ..w }
    } else {
        w
    }
}

/// The lettered fields of `b` from position `i` on, read into `w`. A field
/// letter whose value runs past the end is skipped; an unknown letter ends
/// the block.
pub open spec fn wx_fields(b: Seq<u8>, i: int, w: AprsWeatherData) -> AprsWeatherData
    decreases b.len() - i,
{
    if i < 0 || i >= b.len() || field_len(b[i]) == 0 {
        w
    } else if i + 1 + field_len(b[i]) <= b.len() {
        wx_fields(
            b,
            i + 1 + field_len(b[i]),
            wx_apply(b[i], b.subrange(i + 1, i + 1 + field_len(b[i])), w),
        )
    } else {
        wx_fields(b, i + 1, w)
    }
}

/// The weather block `DDD/SSS` followed by lettered fields.
pub open spec fn spec_parse_weather(b: Seq<u8>) -> Result<AprsWeatherData, AprsErrorView> {
    if b.len() < 7 || b[3] != 47u8 {
        Err(AprsErrorView::TruncatedPacket { expected: 7, got: b.len() as usize })
    } else {
        Ok(
            wx_fields(
                b,
                7,
                AprsWeatherData {
                    wind_direction: match spec_opt_u16(b.subrange(0, 3)) {
                        Some(v) => Some(WindDirection(v)),
                        None => None,
                    },
                    wind_speed: match spec_opt_u16(b.subrange(4, 7)) {
                        Some(v) => Some(WindSpeed(v)),
                        None => None,
                    },
                    ..empty_weather()
                },
            ),
        )
    }
}

/// A weather block with blank wind and one lettered field: `.../...`, the
/// letter `k`, its value `s`.
pub open spec fn lone_weather_field(k: u8, s: Seq<u8>) -> Seq<u8> {
    seq![46u8, 46u8, 46u8, 47u8, 46u8, 46u8, 46u8, k] + s
}

proof fn lemma_lone_weather_field(k: u8, s: Seq<u8>)
    requires
        field_len(k) > 0,
        s.len() == field_len(k),
    ensures
        spec_parse_weather(lone_weather_field(k, s)) == Ok::<AprsWeatherData, AprsErrorView>(
            wx_apply(k, s, empty_weather()),
        ),
{
    let b = lone_weather_field(k, s);
    assert(b.subrange(0, 3) =~= seq![46u8, 46u8, 46u8]);
    assert(b.subrange(4, 7) =~= seq![46u8, 46u8, 46u8]);
    assert(all_blank(seq![46u8, 46u8, 46u8]));
    assert(b[7] == k);
    assert(b.subrange(8, (8 + field_len(k)) as int) =~= s);
    let w0 = AprsWeatherData {
        wind_direction: None,
        wind_speed: None,
        ..empty_weather()
    };
    assert(wx_fields(b, 7, w0) == wx_fields(b, (8 + field_len(k)) as int, wx_apply(k, s, w0)));
    assert(w0 == empty_weather());
}

/// The field letters of a weather report, each read into the field it names:
/// `g` gust, `t` temperature, `r` rain in the last hour, `p` rain in the
/// last 24 hours, `P` rain since midnight, `h` humidity (two digits, `00`
/// being 100%), `b` pressure (five digits), `L` luminosity of 1000 W/m² and
/// more, `l` luminosity under 1000, `s` snowfall, `#` the raw rain counter.
pub proof fn lemma_weather_field_letters(s: Seq<u8>)
    ensures
        s.len() == 3 ==> spec_parse_weather(lone_weather_field(103u8, s)) == Ok::<AprsWeatherData, AprsErrorView>(
            AprsWeatherData { wind_gust: (match spec_opt_u16(s) { Some(v) => Some(WindSpeed(v)), None => None }), ..empty_weather() },
        ),
        s.len() == 3 ==> spec_parse_weather(lone_weather_field(116u8, s)) == Ok::<AprsWeatherData, AprsErrorView>(
            AprsWeatherData { temperature: (match spec_opt_i16(s) { Some(v) => Some(Temperature(v)), None => None }), ..empty_weather() },
        ),
        s.len() == 3 ==> spec_parse_weather(lone_weather_field(114u8, s)) == Ok::<AprsWeatherData, AprsErrorView>(
            AprsWeatherData { rain_last_hour: (match spec_opt_u16(s) { Some(v) => Some(Rainfall(v)), None => None }), ..empty_weather() },
        ),
        s.len() == 3 ==> spec_parse_weather(lone_weather_field(112u8, s)) == Ok::<AprsWeatherData, AprsErrorView>(
            AprsWeatherData { rain_last_24h: (match spec_opt_u16(s) { Some(v) => Some(Rainfall(v)), None => None }), ..empty_weather() },
        ),
        s.len() == 3 ==> spec_parse_weather(lone_weather_field(80u8, s)) == Ok::<AprsWeatherData, AprsErrorView>(
            AprsWeatherData { rain_since_midnight: (match spec_opt_u16(s) { Some(v) => Some(Rainfall(v)), None => None }), ..empty_weather() },
        ),
        s.len() == 2 ==> spec_parse_weather(lone_weather_field(104u8, s)) == Ok::<AprsWeatherData, AprsErrorView>(
            AprsWeatherData { humidity: (match spec_opt_u16(s) { Some(v) => Some(Humidity(if v == 0 { 100 } else { v as u8 })), None => None }), ..empty_weather() },
        ),
        s.len() == 5 ==> spec_parse_weather(lone_weather_field(98u8, s)) == Ok::<AprsWeatherData, AprsErrorView>(
            AprsWeatherData { barometric_pressure: (match spec_parse_unsigned(s, 0xffff_ffff) { Some(v) => Some(Pressure(v as u32)), None => None }), ..empty_weather() },
        ),
        s.len() == 3 ==> spec_parse_weather(lone_weather_field(76u8, s)) == Ok::<AprsWeatherData, AprsErrorView>(
            AprsWeatherData { luminosity: (match spec_opt_u16(s) { Some(v) => Some(Luminosity((v + 1000) as u16)), None => None }), ..empty_weather() },
        ),
        s.len() == 3 ==> spec_parse_weather(lone_weather_field(108u8, s)) == Ok::<AprsWeatherData, AprsErrorView>(
            AprsWeatherData { luminosity: (match spec_opt_u16(s) { Some(v) => Some(Luminosity(v)), None => None }), ..empty_weather() },
        ),
        s.len() == 3 ==> spec_parse_weather(lone_weather_field(115u8, s)) == Ok::<AprsWeatherData, AprsErrorView>(
            AprsWeatherData { snow_last_24h: (match spec_opt_u16(s) { Some(v) => Some(Snowfall(v)), None => None }), ..empty_weather() },
        ),
        s.len() == 3 ==> spec_parse_weather(lone_weather_field(35u8, s)) == Ok::<AprsWeatherData, AprsErrorView>(
            AprsWeatherData { raw_rain_counter: (spec_opt_u16(s)), ..empty_weather() },
        ),
{
    if s.len() == 3 {
        lemma_lone_weather_field(103u8, s);
    }
    if s.len() == 3 {
        lemma_lone_weather_field(116u8, s);
    }
    if s.len() == 3 {
        lemma_lone_weather_field(114u8, s);
    }
    if s.len() == 3 {
        lemma_lone_weather_field(112u8, s);
    }
    if s.len() == 3 {
        lemma_lone_weather_field(80u8, s);
    }
    if s.len() == 2 {
        lemma_lone_weather_field(104u8, s);
    }
    if s.len() == 5 {
        lemma_lone_weather_field(98u8, s);
    }
    if s.len() == 3 {
        lemma_lone_weather_field(76u8, s);
    }
    if s.len() == 3 {
        lemma_lone_weather_field(108u8, s);
    }
    if s.len() == 3 {
        lemma_lone_weather_field(115u8, s);
    }
    if s.len() == 3 {
        lemma_lone_weather_field(35u8, s);
    }
}

/// `{:0w$}` of a signed value: a minus sign counts toward the width.
pub open spec fn signed_pad(v: int, w: nat) -> Seq<u8> {
    if v < 0 {
        seq![45u8] + dec_pad((-v) as nat, (w - 1) as nat)
    } else {
        dec_pad(v as nat, w)
    }
}

/// A letter followed by a zero-padded value, or nothing.
pub open spec fn opt_field(letter: u8, v: Option<nat>, w: nat) -> Seq<u8> {
    match v {
        Some(x) => seq![letter] + dec_pad(x, w),
        None => Seq::empty(),
    }
}

/// A three-digit value, or `...` when missing.
pub open spec fn dots_or_pad(v: Option<nat>) -> Seq<u8> {
    match v {
        Some(x) => dec_pad(x, 3),
        None => seq![46u8, 46u8, 46u8],
    }
}

pub open spec fn speed_val(o: Option<WindSpeed>) -> Option<nat> {
    match o {
        Some(v) => Some(v.0 as nat),
        None => None,
    }
}

pub open spec fn rain_val(o: Option<Rainfall>) -> Option<nat> {
    match o {
        Some(v) => Some(v.0 as nat),
        None => None,
    }
}

/// Humidity on the wire: 100% is written `00`.
pub open spec fn humidity_val(o: Option<Humidity>) -> Option<nat> {
    match o {
        Some(h) => Some(
            if h.0 == 100 {
                0
            } else {
                h.0 as nat
            },
        ),
        None => None,
    }
}

pub open spec fn pressure_val(o: Option<Pressure>) -> Option<nat> {
    match o {
        Some(v) => Some(v.0 as nat),
        None => None,
    }
}

pub open spec fn snow_val(o: Option<Snowfall>) -> Option<nat> {
    match o {
        Some(v) => Some(v.0 as nat),
        None => None,
    }
}

pub open spec fn counter_val(o: Option<u16>) -> Option<nat> {
    match o {
        Some(v) => Some(v as nat),
        None => None,
    }
}

/// `DDD/SSS`.
pub open spec fn encode_wind(wx: AprsWeatherData) -> Seq<u8> {
    dots_or_pad(
        match wx.wind_direction {
            Some(d) => Some(d.0 as nat),
            None => None,
        },
    ) + seq![47u8] + dots_or_pad(speed_val(wx.wind_speed))
}

/// `tNNN`, with a minus sign counting toward the three places.
pub open spec fn encode_temperature(o: Option<Temperature>) -> Seq<u8> {
    match o {
        Some(t) => seq![116u8] + signed_pad(t.0 as int, 3),
        None => Seq::empty(),
    }
}

/// `LNNN` for 1000 W/m² and more, else `lNNN`.
pub open spec fn encode_luminosity(o: Option<Luminosity>) -> Seq<u8> {
    match o {
        Some(l) => if l.0 >= 1000 {
            seq![76u8] + dec_pad((l.0 - 1000) as nat, 3)
        } else {
            seq![108u8] + dec_pad(l.0 as nat, 3)
        },
        None => Seq::empty(),
    }
}

/// The wire form of a weather report.
pub open spec fn spec_encode_weather(wx: AprsWeatherData) -> Seq<u8> {
    encode_wind(wx) + opt_field(103u8, speed_val(wx.wind_gust), 3) + encode_temperature(
        wx.temperature,
    ) + opt_field(114u8, rain_val(wx.rain_last_hour), 3) + opt_field(
        112u8,
        rain_val(wx.rain_last_24h),
        3,
    ) + opt_field(80u8, rain_val(wx.rain_since_midnight), 3) + opt_field(
        104u8,
        humidity_val(wx.humidity),
        2,
    ) + opt_field(98u8, pressure_val(wx.barometric_pressure), 5) + encode_luminosity(
        wx.luminosity,
    ) + opt_field(115u8, snow_val(wx.snow_last_24h), 3) + opt_field(
        35u8,
        counter_val(wx.raw_rain_counter),
        3,
    )
}

fn blank(b: &[u8]) -> (r: bool)
    ensures
        r == all_blank(b@),
{
    let mut i: usize = 0;
    while i < b.len()
        invariant
            i <= b.len(),
            forall|j: int| 0 <= j < i ==> (b@[j] == 46u8 || b@[j] == 32u8),
        decreases b.len() - i,
    {
        if b[i] != '.' as u8 && b[i] != ' ' as u8 {
            return false;
        }
        i = i + 1;
    }
    true
}

/// Parse a 2–5 byte field as u16, returning None for all-spaces or all-dots.
fn parse_opt_u16(b: &[u8]) -> (r: Option<u16>)
    ensures
        r == spec_opt_u16(b@),
{
    if blank(b) {
        return None;
    }
    match parse_unsigned(b, 0xffff) {
        Some(v) => Some(v as u16),
        None => None,
    }
}

/// Parse a 3-byte field as i16 (handles negative temperatures like `-10`).
fn parse_opt_i16(b: &[u8]) -> (r: Option<i16>)
    ensures
        r == spec_opt_i16(b@),
{
    if blank(b) {
        return None;
    }
    parse_i16(b)
}

fn field_len_exec(k: u8) -> (r: usize)
    ensures
        r == field_len(k),
{
    if k == 'g' as u8 || k == 't' as u8 || k == 'r' as u8 || k == 'p' as u8 || k == 'P' as u8 || k
        == 'L' as u8 || k == 'l' as u8 || k == 's' as u8 || k == '#' as u8 {
        3
    } else if k == 'h' as u8 {
        2
    } else if k == 'b' as u8 {
        5
    } else {
        0
    }
}

fn wx_apply_exec(k: u8, s: &[u8], w: &mut AprsWeatherData)
    requires
        s@.len() == field_len(k),
    ensures
        *final(w) == wx_apply(k, s@, *old(w)),
{
    if k == 'g' as u8 {
        w.wind_gust = match parse_opt_u16(s) {
            Some(v) => Some(WindSpeed(v)),
            None => None,
        };
    } else if k == 't' as u8 {
        w.temperature = match parse_opt_i16(s) {
            Some(v) => Some(Temperature(v)),
            None => None,
        };
    } else if k == 'r' as u8 {
        w.rain_last_hour = match parse_opt_u16(s) {
            Some(v) => Some(Rainfall(v)),
            None => None,
        };
    } else if k == 'p' as u8 {
        w.rain_last_24h = match parse_opt_u16(s) {
            Some(v) => Some(Rainfall(v)),
            None => None,
        };
    } else if k == 'P' as u8 {
        w.rain_since_midnight = match parse_opt_u16(s) {
            Some(v) => Some(Rainfall(v)),
            None => None,
        };
    } else if k == 'h' as u8 {
        w.humidity = match parse_opt_u16(s) {
            Some(v) => Some(
                Humidity(
                    if v == 0 {
                        100
                    } else {
                        v as u8
                    },
                ),
            ),
            None => None,
        };
    } else if k == 'b' as u8 {
        w.barometric_pressure = match parse_unsigned(s, 0xffff_ffff) {
            Some(v) => Some(Pressure(v as u32)),
            None => None,
        };
    } else if k == 'L' as u8 {
        proof {
            lemma_parse_unsigned_short(s@, 0xffff);
        }
        w.luminosity = match parse_opt_u16(s) {
            Some(v) => Some(Luminosity(v + 1000)),
            None => None,
        };
    } else if k == 'l' as u8 {
        w.luminosity = match parse_opt_u16(s) {
            Some(v) => Some(Luminosity(v)),
            None => None,
        };
    } else if k == 's' as u8 {
        w.snow_last_24h = match parse_opt_u16(s) {
            Some(v) => Some(Snowfall(v)),
            None => None,
        };
    } else if k == '#' as u8 {
        w.raw_rain_counter = parse_opt_u16(s);
    }
}

fn push_signed_pad(out: &mut Vec<u8>, v: i16, w: usize)
    requires
        w >= 1,
    ensures
        final(out)@ == old(out)@ + signed_pad(v as int, w as nat),
{
    if v < 0 {
        out.push('-' as u8);
        let a: i32 = -(v as i32);
        push_dec_pad(out, a as u64, w - 1);
    } else {
        push_dec_pad(out, v as u64, w);
    }
    assert(final(out)@ =~= old(out)@ + signed_pad(v as int, w as nat));
}

fn push_opt_field(out: &mut Vec<u8>, letter: u8, v: Option<u64>, w: usize)
    ensures
        final(out)@ == old(out)@ + opt_field(
            letter,
            match v {
                Some(x) => Some(x as nat),
                None => None,
            },
            w as nat,
        ),
{
    match v {
        Some(x) => {
            out.push(letter);
            push_dec_pad(out, x, w);
        },
        None => {},
    }
    assert(final(out)@ =~= old(out)@ + opt_field(
        letter,
        match v {
            Some(x) => Some(x as nat),
            None => None,
        },
        w as nat,
    ));
}

impl AprsWeatherData {
    /// Parse the weather field block.
    ///
    /// Expected start: `DDD/SSS` (wind direction / wind speed), then lettered
    /// single-char fields: `g` `t` `r` `p` `P` `h` `b` `l` `L` `s` `#`.
    ///
    /// Example: `220/004g005t077r000p000P000h50b09900`
    pub fn parse(b: &[u8]) -> (r: Result<Self, AprsError>)
        ensures
            match (r, spec_parse_weather(b@)) {
                (Ok(w), Ok(v)) => w == v,
                (Err(e), Err(v)) => e@ == v,
                _ => false,
            },
    {
        if b.len() < 7 {
            return Err(AprsError::TruncatedPacket { expected: 7, got: b.len() });
        }
        let wind_direction = match parse_opt_u16(vstd::slice::slice_subrange(b, 0, 3)) {
            Some(v) => Some(WindDirection(v)),
            None => None,
        };
        if b[3] != '/' as u8 {
            return Err(AprsError::TruncatedPacket { expected: 7, got: b.len() });
        }
        let wind_speed = match parse_opt_u16(vstd::slice::slice_subrange(b, 4, 7)) {
            Some(v) => Some(WindSpeed(v)),
            None => None,
        };
        let mut w = AprsWeatherData::default();
        w.wind_direction = wind_direction;
        w.wind_speed = wind_speed;
        let ghost w0 = w;
        let mut i: usize = 7;
        while i < b.len()
            invariant
                7 <= i <= b@.len(),
                wx_fields(b@, 7, w0) == wx_fields(b@, i as int, w),
            ensures
                wx_fields(b@, 7, w0) == w,
            decreases b.len() - i,
        {
            let k = b[i];
            let n = field_len_exec(k);
            if n == 0 {
                break ;
            }
            let j = i + 1;
            if n <= b.len() - j {
                wx_apply_exec(k, vstd::slice::slice_subrange(b, j, j + n), &mut w);
                i = j + n;
            } else {
                i = j;
            }
        }
        Ok(w)
    }

    /// Encode weather fields to bytes (without any header).
    pub fn encode(&self, out: &mut Vec<u8>)
        ensures
            final(out)@ == old(out)@ + spec_encode_weather(*self),
    {
        let ghost s0 = out@;
        self.encode_wind(out);
        let ghost s1 = out@;
        push_opt_field(out, 'g' as u8, wx_speed(self.wind_gust), 3);
        let ghost s2 = out@;
        encode_temperature_exec(out, self.temperature);
        let ghost s3 = out@;
        push_opt_field(out, 'r' as u8, wx_rain(self.rain_last_hour), 3);
        let ghost s4 = out@;
        push_opt_field(out, 'p' as u8, wx_rain(self.rain_last_24h), 3);
        let ghost s5 = out@;
        push_opt_field(out, 'P' as u8, wx_rain(self.rain_since_midnight), 3);
        let ghost s6 = out@;
        let hum = match self.humidity {
            Some(h) => Some(
                if h.percent() == 100 {
                    0
                } else {
                    h.percent() as u64
                },
            ),
            None => None,
        };
        push_opt_field(out, 'h' as u8, hum, 2);
        let ghost s7 = out@;
        let press = match self.barometric_pressure {
            Some(p) => Some(p.tenths_mbar() as u64),
            None => None,
        };
        push_opt_field(out, 'b' as u8, press, 5);
        let ghost s8 = out@;
        encode_luminosity_exec(out, self.luminosity);
        let ghost s9 = out@;
        let snow = match self.snow_last_24h {
            Some(s) => Some(s.raw() as u64),
            None => None,
        };
        push_opt_field(out, 's' as u8, snow, 3);
        let ghost s10 = out@;
        let raw = match self.raw_rain_counter {
            Some(r) => Some(r as u64),
            None => None,
        };
        push_opt_field(out, '#' as u8, raw, 3);
        proof {
            let w = *self;
            let p1 = encode_wind(w);
            let p2 = p1 + opt_field(103u8, speed_val(w.wind_gust), 3);
            let p3 = p2 + encode_temperature(w.temperature);
            let p4 = p3 + opt_field(114u8, rain_val(w.rain_last_hour), 3);
            let p5 = p4 + opt_field(112u8, rain_val(w.rain_last_24h), 3);
            let p6 = p5 + opt_field(80u8, rain_val(w.rain_since_midnight), 3);
            let p7 = p6 + opt_field(104u8, humidity_val(w.humidity), 2);
            let p8 = p7 + opt_field(98u8, pressure_val(w.barometric_pressure), 5);
            let p9 = p8 + encode_luminosity(w.luminosity);
            let p10 = p9 + opt_field(115u8, snow_val(w.snow_last_24h), 3);
            let p11 = p10 + opt_field(35u8, counter_val(w.raw_rain_counter), 3);
            lemma_concat_associative(s0, p1, opt_field(103u8, speed_val(w.wind_gust), 3));
            lemma_concat_associative(s0, p2, encode_temperature(w.temperature));
            lemma_concat_associative(s0, p3, opt_field(114u8, rain_val(w.rain_last_hour), 3));
            lemma_concat_associative(s0, p4, opt_field(112u8, rain_val(w.rain_last_24h), 3));
            lemma_concat_associative(
                s0,
                p5,
                opt_field(80u8, rain_val(w.rain_since_midnight), 3),
            );
            lemma_concat_associative(s0, p6, opt_field(104u8, humidity_val(w.humidity), 2));
            lemma_concat_associative(
                s0,
                p7,
                opt_field(98u8, pressure_val(w.barometric_pressure), 5),
            );
            lemma_concat_associative(s0, p8, encode_luminosity(w.luminosity));
            lemma_concat_associative(s0, p9, opt_field(115u8, snow_val(w.snow_last_24h), 3));
            lemma_concat_associative(
                s0,
                p10,
                opt_field(35u8, counter_val(w.raw_rain_counter), 3),
            );
            assert(p11 == spec_encode_weather(w));
        }
    }

    fn encode_wind(&self, out: &mut Vec<u8>)
        ensures
            final(out)@ == old(out)@ + encode_wind(*self),
    {
        match self.wind_direction {
            Some(d) => push_dec_pad(out, d.degrees() as u64, 3),
            None => {
                out.push('.' as u8);
                out.push('.' as u8);
                out.push('.' as u8);
            },
        }
        out.push('/' as u8);
        let ghost mid = out@;
        match self.wind_speed {
            Some(s) => push_dec_pad(out, s.mph() as u64, 3),
            None => {
                out.push('.' as u8);
                out.push('.' as u8);
                out.push('.' as u8);
            },
        }
        assert(final(out)@ =~= old(out)@ + encode_wind(*self));
    }
}

fn wx_speed(o: Option<WindSpeed>) -> (r: Option<u64>)
    ensures
        match r {
            Some(x) => Some(x as nat),
            None => None,
        } == speed_val(o),
{
    match o {
        Some(v) => Some(v.mph() as u64),
        None => None,
    }
}

fn wx_rain(o: Option<Rainfall>) -> (r: Option<u64>)
    ensures
        match r {
            Some(x) => Some(x as nat),
            None => None,
        } == rain_val(o),
{
    match o {
        Some(v) => Some(v.hundredths_inch() as u64),
        None => None,
    }
}

fn encode_temperature_exec(out: &mut Vec<u8>, o: Option<Temperature>)
    ensures
        final(out)@ == old(out)@ + encode_temperature(o),
{
    match o {
        Some(t) => {
            out.push('t' as u8);
            push_signed_pad(out, t.fahrenheit(), 3);
        },
        None => {},
    }
    assert(final(out)@ =~= old(out)@ + encode_temperature(o));
}

fn encode_luminosity_exec(out: &mut Vec<u8>, o: Option<Luminosity>)
    ensures
        final(out)@ == old(out)@ + encode_luminosity(o),
{
    match o {
        Some(l) => {
            if l.w_per_m2() >= 1000 {
                out.push('L' as u8);
                push_dec_pad(out, (l.w_per_m2() - 1000) as u64, 3);
            } else {
                out.push('l' as u8);
                push_dec_pad(out, l.w_per_m2() as u64, 3);
            }
        },
        None => {},
    }
    assert(final(out)@ =~= old(out)@ + encode_luminosity(o));
}

// ─── AprsPositionlessWeather ──────────────────────────────────────────────────
/// A positionless weather report. DTI: `_`.
///
/// Format: `_MMDDHHMM` (local-time timestamp) + weather fields.
/// The timestamp is stored as raw bytes since the MMDDHHMM format is distinct
/// from the DDHHMM/HHMMSS formats used in other APRS packets.
#[derive(Debug)]
pub struct AprsPositionlessWeather {
    /// 8-byte MMDDHHMM timestamp in local time.
    pub timestamp: Vec<u8>,
    pub weather: AprsWeatherData,
    pub comment: Vec<u8>,
}

/// Mathematical model of [`AprsPositionlessWeather`].
pub struct AprsPositionlessWeatherView {
    pub timestamp: Seq<u8>,
    pub weather: AprsWeatherData,
    pub comment: Seq<u8>,
}

impl View for AprsPositionlessWeather {
    type V = AprsPositionlessWeatherView;

    open spec fn view(&self) -> AprsPositionlessWeatherView {
        AprsPositionlessWeatherView {
            timestamp: self.timestamp@,
            weather: self.weather,
            comment: self.comment@,
        }
    }
}

/// A positionless weather information field `_MMDDHHMM...`; what follows the
/// weather block is not kept.
pub open spec fn spec_parse_positionless_weather(info: Seq<u8>) -> Result<
    AprsPositionlessWeatherView,
    AprsErrorView,
> {
    if info.len() < 9 {
        Err(AprsErrorView::TruncatedPacket { expected: 9, got: info.len() as usize })
    } else {
        match spec_parse_weather(info.subrange(9, info.len() as int)) {
            Err(e) => Err(e),
            Ok(w) => Ok(
                AprsPositionlessWeatherView {
                    timestamp: info.subrange(1, 9),
                    weather: w,
                    comment: Seq::empty(),
                },
            ),
        }
    }
}

/// The wire form of a positionless weather report.
pub open spec fn spec_encode_positionless_weather(p: AprsPositionlessWeatherView) -> Seq<u8> {
    seq![95u8] + p.timestamp + spec_encode_weather(p.weather) + p.comment
}

impl AprsPositionlessWeather {
    /// Decode from the information field (including the leading `_` DTI byte).
    pub fn parse(info: &[u8]) -> (r: Result<Self, AprsError>)
        ensures
            match (r, spec_parse_positionless_weather(info@)) {
                (Ok(w), Ok(v)) => w@ == v,
                (Err(e), Err(v)) => e@ == v,
                _ => false,
            },
    {
        if info.len() < 9 {
            return Err(AprsError::TruncatedPacket { expected: 9, got: info.len() });
        }
        let timestamp = copy_range(info, 1, 9);
        let weather = match AprsWeatherData::parse(
            vstd::slice::slice_subrange(info, 9, info.len()),
        ) {
            Ok(w) => w,
            Err(e) => {
                return Err(e);
            },
        };
        Ok(AprsPositionlessWeather { timestamp, weather, comment: Vec::new() })
    }

    pub fn encode(&self) -> (r: Vec<u8>)
        ensures
            r@ == spec_encode_positionless_weather(self@),
    {
        let mut out: Vec<u8> = Vec::new();
        out.push('_' as u8);
        extend(&mut out, self.timestamp.as_slice());
        self.weather.encode(&mut out);
        extend(&mut out, self.comment.as_slice());
        assert(out@ =~= spec_encode_positionless_weather(self@));
        out
    }
}

/// Weather values that the wire form can write: the widths of their fields
/// bound them.
pub open spec fn weather_representable(w: AprsWeatherData) -> bool {
    &&& w.wind_direction matches Some(d) ==> d.0 <= 999
    &&& w.wind_speed matches Some(s) ==> s.0 <= 999
    &&& w.wind_gust matches Some(s) ==> s.0 <= 999
    &&& w.temperature matches Some(t) ==> -99 <= t.0 <= 999
    &&& w.rain_last_hour matches Some(r) ==> r.0 <= 999
    &&& w.rain_last_24h matches Some(r) ==> r.0 <= 999
    &&& w.rain_since_midnight matches Some(r) ==> r.0 <= 999
    &&& w.humidity matches Some(h) ==> 1 <= h.0 <= 100
    &&& w.barometric_pressure matches Some(p) ==> p.0 <= 99999
    &&& w.luminosity matches Some(l) ==> l.0 <= 1999
    &&& w.snow_last_24h matches Some(s) ==> s.0 <= 999
    &&& w.raw_rain_counter matches Some(c) ==> c <= 999
}

/// A field value of width up to five parses below 10 to that width.
proof fn lemma_unsigned_width(s: Seq<u8>, max: nat)
    requires
        s.len() <= 5,
    ensures
        spec_parse_unsigned(s, max) matches Some(v) ==> v < crate::util::pow10(s.len()),
{
    let d = if s.len() > 0 && s[0] == 43u8 {
        s.drop_first()
    } else {
        s
    };
    if d.len() > 0 && all_digits(d) {
        crate::util::lemma_digits_value_lt(d);
        reveal_with_fuel(crate::util::pow10, 6);
        if d.len() < s.len() {
            assert(crate::util::pow10(d.len()) <= crate::util::pow10(s.len()));
        }
    }
}

/// Applying a field keeps the values within what the wire form can write.
proof fn lemma_wx_apply_representable(k: u8, s: Seq<u8>, w: AprsWeatherData)
    requires
        weather_representable(w),
        s.len() == field_len(k),
        field_len(k) > 0,
    ensures
        weather_representable(wx_apply(k, s, w)),
{
    reveal_with_fuel(crate::util::pow10, 6);
    lemma_unsigned_width(s, 0xffff);
    lemma_unsigned_width(s, 0xffff_ffff);
    lemma_unsigned_width(s, 32767);
    if s.len() > 0 && s[0] == 45u8 {
        let d = s.drop_first();
        if d.len() > 0 && all_digits(d) {
            crate::util::lemma_digits_value_lt(d);
        }
    }
}

proof fn lemma_wx_fields_representable(b: Seq<u8>, i: int, w: AprsWeatherData)
    requires
        weather_representable(w),
    ensures
        weather_representable(wx_fields(b, i, w)),
    decreases b.len() - i,
{
    if i < 0 || i >= b.len() || field_len(b[i]) == 0 {
    } else if i + 1 + field_len(b[i]) <= b.len() {
        lemma_wx_apply_representable(b[i], b.subrange(i + 1, i + 1 + field_len(b[i])), w);
        lemma_wx_fields_representable(
            b,
            i + 1 + field_len(b[i]),
            wx_apply(b[i], b.subrange(i + 1, i + 1 + field_len(b[i])), w),
        );
    } else {
        lemma_wx_fields_representable(b, i + 1, w);
    }
}

/// A weather report that decodes holds values that the wire form can write.
pub proof fn lemma_parse_weather_representable(b: Seq<u8>)
    requires
        spec_parse_weather(b) is Ok,
    ensures
        weather_representable(spec_parse_weather(b)->Ok_0),
{
    reveal_with_fuel(crate::util::pow10, 4);
    lemma_unsigned_width(b.subrange(0, 3), 0xffff);
    lemma_unsigned_width(b.subrange(4, 7), 0xffff);
    let w0 = AprsWeatherData {
        wind_direction: match spec_opt_u16(b.subrange(0, 3)) {
            Some(v) => Some(WindDirection(v)),
            None => None,
        },
        wind_speed: match spec_opt_u16(b.subrange(4, 7)) {
            Some(v) => Some(WindSpeed(v)),
            None => None,
        },
        ..empty_weather()
    };
    lemma_wx_fields_representable(b, 7, w0);
}

/// A value written zero-padded to its width reads back as that value.
proof fn lemma_pad_reads_back(x: nat, w: nat)
    requires
        1 <= w <= 5,
        x < crate::util::pow10(w),
    ensures
        dec_pad(x, w).len() == w,
        !all_blank(dec_pad(x, w)),
        spec_parse_unsigned(dec_pad(x, w), 0xffff_ffff) == Some(x),
        x <= 0xffff ==> spec_parse_unsigned(dec_pad(x, w), 0xffff) == Some(x),
        x <= 32767 ==> spec_parse_unsigned(dec_pad(x, w), 32767) == Some(x),
        dec_pad(x, w)[0] != 45u8,
{
    reveal_with_fuel(crate::util::pow10, 6);
    crate::util::lemma_dec_pad(x, w);
    let s = dec_pad(x, w);
    assert(is_digit(s[0]));
    if w == 1 {
        assert(dec_pad(x, w).len() == 1);
    } else if w == 2 {
        assert(dec_pad(x, w).len() == 2);
    } else if w == 3 {
        assert(dec_pad(x, w).len() == 3);
    } else if w == 4 {
        assert(dec_pad(x, w).len() == 4);
    } else {
        assert(dec_pad(x, w).len() == 5);
    }
}

/// The weather after reading one written field, or nothing for an empty
/// segment.
pub open spec fn apply_seg(seg: Seq<u8>, acc: AprsWeatherData) -> AprsWeatherData {
    if seg.len() == 0 {
        acc
    } else {
        wx_apply(seg[0], seg.subrange(1, seg.len() as int), acc)
    }
}

proof fn lemma_wx_seg(b: Seq<u8>, i: int, seg: Seq<u8>, acc: AprsWeatherData)
    requires
        0 <= i,
        i + seg.len() <= b.len(),
        b.subrange(i, i + seg.len()) == seg,
        seg.len() > 0 ==> field_len(seg[0]) + 1 == seg.len(),
        seg.len() > 0 ==> field_len(seg[0]) > 0,
    ensures
        wx_fields(b, i, acc) == wx_fields(b, i + seg.len(), apply_seg(seg, acc)),
{
    if seg.len() > 0 {
        assert(b[i] == b.subrange(i, i + seg.len())[0]);
        assert(b[i] == seg[0]);
        let fl = field_len(b[i]);
        assert(fl + 1 == seg.len());
        assert(b.subrange(i + 1, i + seg.len()) =~= seg.subrange(1, seg.len() as int)) by {
            assert forall|j: int| 0 <= j < seg.len() - 1 implies b.subrange(i + 1, i + seg.len())[j]
                == seg.subrange(1, seg.len() as int)[j] by {
                assert(b[i + 1 + j] == b.subrange(i, i + seg.len())[j + 1]);
            }
        }
        assert(wx_fields(b, i, acc) == wx_fields(
            b,
            i + 1 + fl,
            wx_apply(b[i], b.subrange(i + 1, i + 1 + fl), acc),
        ));
    }
}

/// A three-digit counted field written for `o` reads back as `o`.
proof fn lemma_seg3(letter: u8, o: Option<nat>) -> (v: Option<u16>)
    requires
        o matches Some(x) ==> x <= 999,
    ensures
        v == (match o {
            Some(x) => Some(x as u16),
            None => None,
        }),
        (opt_field(letter, o, 3).len() > 0 ==> (o is Some)),
        (o is Some ==> opt_field(letter, o, 3).subrange(1, 4) == dec_pad(o->Some_0, 3)),
        (o is Some ==> opt_field(letter, o, 3)[0] == letter),
        (o is Some ==> spec_opt_u16(dec_pad(o->Some_0, 3)) == v),
        (o is Some ==> opt_field(letter, o, 3).len() == 4),
        (o is None ==> opt_field(letter, o, 3).len() == 0),
{
    reveal_with_fuel(crate::util::pow10, 4);
    match o {
        Some(x) => {
            lemma_pad_reads_back(x, 3);
            assert(opt_field(letter, o, 3).subrange(1, 4) =~= dec_pad(x, 3));
            Some(x as u16)
        },
        None => None,
    }
}

/// The gust, temperature and rain segments of a written report.
proof fn lemma_wx_segments_a(w: AprsWeatherData, acc: AprsWeatherData)
    requires
        weather_representable(w),
        acc.wind_gust is None,
        acc.temperature is None,
        acc.rain_last_hour is None,
        acc.rain_last_24h is None,
        acc.rain_since_midnight is None,
    ensures
        apply_seg(
            opt_field(80u8, rain_val(w.rain_since_midnight), 3),
            apply_seg(
                opt_field(112u8, rain_val(w.rain_last_24h), 3),
                apply_seg(
                    opt_field(114u8, rain_val(w.rain_last_hour), 3),
                    apply_seg(
                        encode_temperature(w.temperature),
                        apply_seg(opt_field(103u8, speed_val(w.wind_gust), 3), acc),
                    ),
                ),
            ),
        ) == (AprsWeatherData {
            wind_gust: w.wind_gust,
            temperature: w.temperature,
            rain_last_hour: w.rain_last_hour,
            rain_last_24h: w.rain_last_24h,
            rain_since_midnight: w.rain_since_midnight,
            ..acc
        }),
{
    lemma_seg3(103u8, speed_val(w.wind_gust));
    lemma_seg3(114u8, rain_val(w.rain_last_hour));
    lemma_seg3(112u8, rain_val(w.rain_last_24h));
    lemma_seg3(80u8, rain_val(w.rain_since_midnight));
    match w.temperature {
        Some(t) => {
            let seg = encode_temperature(w.temperature);
            reveal_with_fuel(crate::util::pow10, 4);
            if t.0 < 0 {
                lemma_pad_reads_back((-t.0) as nat, 2);
                let s = seg.subrange(1, seg.len() as int);
                assert(s =~= seq![45u8] + dec_pad((-t.0) as nat, 2));
                assert(s.drop_first() =~= dec_pad((-t.0) as nat, 2));
                assert(!all_blank(s)) by {
                    assert(s[0] == 45u8);
                }
                assert(digits_value(dec_pad((-t.0) as nat, 2)) == (-t.0) as nat) by {
                    crate::util::lemma_dec_pad((-t.0) as nat, 2);
                }
                crate::util::lemma_dec_pad((-t.0) as nat, 2);
            } else {
                lemma_pad_reads_back(t.0 as nat, 3);
                assert(seg.subrange(1, seg.len() as int) =~= dec_pad(t.0 as nat, 3));
            }
        },
        None => {},
    }
}

/// The humidity, pressure, luminosity, snow and rain counter segments of a
/// written report.
proof fn lemma_wx_segments_b(w: AprsWeatherData, acc: AprsWeatherData)
    requires
        weather_representable(w),
        acc.humidity is None,
        acc.barometric_pressure is None,
        acc.luminosity is None,
        acc.snow_last_24h is None,
        acc.raw_rain_counter is None,
    ensures
        apply_seg(
            opt_field(35u8, counter_val(w.raw_rain_counter), 3),
            apply_seg(
                opt_field(115u8, snow_val(w.snow_last_24h), 3),
                apply_seg(
                    encode_luminosity(w.luminosity),
                    apply_seg(
                        opt_field(98u8, pressure_val(w.barometric_pressure), 5),
                        apply_seg(opt_field(104u8, humidity_val(w.humidity), 2), acc),
                    ),
                ),
            ),
        ) == (AprsWeatherData {
            humidity: w.humidity,
            barometric_pressure: w.barometric_pressure,
            luminosity: w.luminosity,
            snow_last_24h: w.snow_last_24h,
            raw_rain_counter: w.raw_rain_counter,
            ..acc
        }),
{
    lemma_seg3(115u8, snow_val(w.snow_last_24h));
    lemma_seg3(35u8, counter_val(w.raw_rain_counter));
    reveal_with_fuel(crate::util::pow10, 6);
    match w.humidity {
        Some(h) => {
            let x = humidity_val(w.humidity)->Some_0;
            lemma_pad_reads_back(x, 2);
            let seg = opt_field(104u8, humidity_val(w.humidity), 2);
            assert(seg.subrange(1, seg.len() as int) =~= dec_pad(x, 2));
        },
        None => {},
    }
    match w.barometric_pressure {
        Some(p) => {
            lemma_pad_reads_back(p.0 as nat, 5);
            let seg = opt_field(98u8, pressure_val(w.barometric_pressure), 5);
            assert(seg.subrange(1, seg.len() as int) =~= dec_pad(p.0 as nat, 5));
        },
        None => {},
    }
    match w.luminosity {
        Some(l) => {
            let seg = encode_luminosity(w.luminosity);
            if l.0 >= 1000 {
                lemma_pad_reads_back((l.0 - 1000) as nat, 3);
                assert(seg.subrange(1, seg.len() as int) =~= dec_pad((l.0 - 1000) as nat, 3));
            } else {
                lemma_pad_reads_back(l.0 as nat, 3);
                assert(seg.subrange(1, seg.len() as int) =~= dec_pad(l.0 as nat, 3));
            }
        },
        None => {},
    }
}

/// The lengths and first bytes of the segments of a written report.
proof fn lemma_wx_segment_shapes(w: AprsWeatherData)
    requires
        weather_representable(w),
    ensures
        forall|seg: Seq<u8>|
            #![trigger wx_segments(w).contains(seg)]
            wx_segments(w).contains(seg) ==> (seg.len() > 0 ==> field_len(seg[0]) + 1 == seg.len()
                && field_len(seg[0]) > 0),
{
    reveal_with_fuel(crate::util::pow10, 6);
    lemma_seg3(103u8, speed_val(w.wind_gust));
    lemma_seg3(114u8, rain_val(w.rain_last_hour));
    lemma_seg3(112u8, rain_val(w.rain_last_24h));
    lemma_seg3(80u8, rain_val(w.rain_since_midnight));
    lemma_seg3(115u8, snow_val(w.snow_last_24h));
    lemma_seg3(35u8, counter_val(w.raw_rain_counter));
    if let Some(t) = w.temperature {
        if t.0 < 0 {
            crate::util::lemma_dec_pad((-t.0) as nat, 2);
            assert(dec_pad((-t.0) as nat, 2).len() == 2);
        } else {
            crate::util::lemma_dec_pad(t.0 as nat, 3);
        }
    }
    if let Some(h) = w.humidity {
        crate::util::lemma_dec_pad(humidity_val(w.humidity)->Some_0, 2);
    }
    if let Some(p) = w.barometric_pressure {
        crate::util::lemma_dec_pad(p.0 as nat, 5);
    }
    if let Some(l) = w.luminosity {
        if l.0 >= 1000 {
            crate::util::lemma_dec_pad((l.0 - 1000) as nat, 3);
        } else {
            crate::util::lemma_dec_pad(l.0 as nat, 3);
        }
    }
    let s = wx_segments(w);
    assert forall|seg: Seq<u8>|
        #![trigger wx_segments(w).contains(seg)]
        wx_segments(w).contains(seg) implies (seg.len() > 0 ==> field_len(seg[0]) + 1 == seg.len()
            && field_len(seg[0]) > 0) by {
        let j = choose|j: int| 0 <= j < s.len() && s[j] == seg;
        assert(0 <= j < 10);
    }
}

/// The lettered segments of a written report, in order.
pub open spec fn wx_segments(w: AprsWeatherData) -> Seq<Seq<u8>> {
    seq![
        opt_field(103u8, speed_val(w.wind_gust), 3),
        encode_temperature(w.temperature),
        opt_field(114u8, rain_val(w.rain_last_hour), 3),
        opt_field(112u8, rain_val(w.rain_last_24h), 3),
        opt_field(80u8, rain_val(w.rain_since_midnight), 3),
        opt_field(104u8, humidity_val(w.humidity), 2),
        opt_field(98u8, pressure_val(w.barometric_pressure), 5),
        encode_luminosity(w.luminosity),
        opt_field(115u8, snow_val(w.snow_last_24h), 3),
        opt_field(35u8, counter_val(w.raw_rain_counter), 3),
    ]
}

/// Segments one after another.
pub open spec fn concat_segs(segs: Seq<Seq<u8>>) -> Seq<u8>
    decreases segs.len(),
{
    if segs.len() == 0 {
        Seq::empty()
    } else {
        segs[0] + concat_segs(segs.drop_first())
    }
}

/// The weather after reading segments one after another.
pub open spec fn apply_segs(segs: Seq<Seq<u8>>, acc: AprsWeatherData) -> AprsWeatherData
    decreases segs.len(),
{
    if segs.len() == 0 {
        acc
    } else {
        apply_segs(segs.drop_first(), apply_seg(segs[0], acc))
    }
}

proof fn lemma_wx_chain(b: Seq<u8>, i: int, segs: Seq<Seq<u8>>, acc: AprsWeatherData)
    requires
        0 <= i <= b.len(),
        b.subrange(i, b.len() as int) == concat_segs(segs),
        forall|j: int|
            0 <= j < segs.len() ==> (#[trigger] segs[j]).len() > 0 ==> field_len(segs[j][0]) + 1
                == segs[j].len() && field_len(segs[j][0]) > 0,
    ensures
        wx_fields(b, i, acc) == apply_segs(segs, acc),
    decreases segs.len(),
{
    if segs.len() == 0 {
        assert(b.subrange(i, b.len() as int).len() == 0);
    } else {
        let seg = segs[0];
        let rest = segs.drop_first();
        assert(seg.len() > 0 ==> field_len(seg[0]) + 1 == seg.len() && field_len(seg[0]) > 0);
        assert(b.subrange(i, b.len() as int) == seg + concat_segs(rest));
        assert(b.subrange(i, i + seg.len()) =~= seg) by {
            assert forall|j: int| 0 <= j < seg.len() implies b.subrange(i, i + seg.len())[j]
                == seg[j] by {
                assert(b.subrange(i, b.len() as int)[j] == (seg + concat_segs(rest))[j]);
            }
        }
        lemma_wx_seg(b, i, seg, acc);
        assert(b.subrange(i + seg.len(), b.len() as int) =~= concat_segs(rest)) by {
            assert forall|j: int| 0 <= j < concat_segs(rest).len() implies b.subrange(
                i + seg.len(),
                b.len() as int,
            )[j] == concat_segs(rest)[j] by {
                assert(b.subrange(i, b.len() as int)[j + seg.len()] == (seg + concat_segs(
                    rest,
                ))[j + seg.len()]);
            }
        }
        assert forall|j: int|
            0 <= j < rest.len() implies (#[trigger] rest[j]).len() > 0 ==> field_len(rest[j][0])
                + 1 == rest[j].len() && field_len(rest[j][0]) > 0 by {
            assert(rest[j] == segs[j + 1]);
        }
        lemma_wx_chain(b, i + seg.len(), rest, apply_seg(seg, acc));
    }
}

/// The weather with only the wind of `w`.
pub open spec fn wind_only(w: AprsWeatherData) -> AprsWeatherData {
    AprsWeatherData { wind_direction: w.wind_direction, wind_speed: w.wind_speed, ..empty_weather() }
}

proof fn lemma_wx_apply_all(w: AprsWeatherData)
    requires
        weather_representable(w),
    ensures
        apply_segs(wx_segments(w), wind_only(w)) == w,
{
    let segs = wx_segments(w);
    let w0 = wind_only(w);
    assert(apply_segs(segs, w0) == apply_seg(segs[9], apply_seg(segs[8], apply_seg(
        segs[7],
        apply_seg(segs[6], apply_seg(segs[5], apply_seg(segs[4], apply_seg(
            segs[3],
            apply_seg(segs[2], apply_seg(segs[1], apply_seg(segs[0], w0))),
        )))),
    )))) by {
        reveal_with_fuel(apply_segs, 11);
    }
    lemma_wx_segments_a(w, w0);
    let mid = AprsWeatherData {
        wind_gust: w.wind_gust,
        temperature: w.temperature,
        rain_last_hour: w.rain_last_hour,
        rain_last_24h: w.rain_last_24h,
        rain_since_midnight: w.rain_since_midnight,
        ..w0
    };
    lemma_wx_segments_b(w, mid);
}

proof fn lemma_concat_step(s: Seq<Seq<u8>>)
    requires
        s.len() > 0,
    ensures
        concat_segs(s) == s[0] + concat_segs(s.drop_first()),
{
}

proof fn lemma_concat10(
    w: Seq<u8>,
    a0: Seq<u8>,
    a1: Seq<u8>,
    a2: Seq<u8>,
    a3: Seq<u8>,
    a4: Seq<u8>,
    a5: Seq<u8>,
    a6: Seq<u8>,
    a7: Seq<u8>,
    a8: Seq<u8>,
    a9: Seq<u8>,
)
    ensures
        w + concat_segs(seq![a0, a1, a2, a3, a4, a5, a6, a7, a8, a9]) == w + a0 + a1 + a2 + a3 + a4
            + a5 + a6 + a7 + a8 + a9,
{
    let s0 = seq![a0, a1, a2, a3, a4, a5, a6, a7, a8, a9];
    let s1 = s0.drop_first();
    let s2 = s1.drop_first();
    let s3 = s2.drop_first();
    let s4 = s3.drop_first();
    let s5 = s4.drop_first();
    let s6 = s5.drop_first();
    let s7 = s6.drop_first();
    let s8 = s7.drop_first();
    let s9 = s8.drop_first();
    let s10 = s9.drop_first();
    lemma_concat_step(s0);
    lemma_concat_step(s1);
    lemma_concat_step(s2);
    lemma_concat_step(s3);
    lemma_concat_step(s4);
    lemma_concat_step(s5);
    lemma_concat_step(s6);
    lemma_concat_step(s7);
    lemma_concat_step(s8);
    lemma_concat_step(s9);
    assert(s10 =~= Seq::<Seq<u8>>::empty());
    assert(concat_segs(s10) =~= Seq::<u8>::empty());
    let c9 = a9;
    assert(concat_segs(s9) =~= c9);
    let c8 = a8 + c9;
    let c7 = a7 + c8;
    let c6 = a6 + c7;
    let c5 = a5 + c6;
    let c4 = a4 + c5;
    let c3 = a3 + c4;
    let c2 = a2 + c3;
    let c1 = a1 + c2;
    let c0 = a0 + c1;
    assert(concat_segs(s0) == c0);
    lemma_concat_associative(w, a0, c1);
    lemma_concat_associative(w + a0, a1, c2);
    lemma_concat_associative(w + a0 + a1, a2, c3);
    lemma_concat_associative(w + a0 + a1 + a2, a3, c4);
    lemma_concat_associative(w + a0 + a1 + a2 + a3, a4, c5);
    lemma_concat_associative(w + a0 + a1 + a2 + a3 + a4, a5, c6);
    lemma_concat_associative(w + a0 + a1 + a2 + a3 + a4 + a5, a6, c7);
    lemma_concat_associative(w + a0 + a1 + a2 + a3 + a4 + a5 + a6, a7, c8);
    lemma_concat_associative(w + a0 + a1 + a2 + a3 + a4 + a5 + a6 + a7, a8, c9);
}

proof fn lemma_wx_concat(w: AprsWeatherData)
    ensures
        spec_encode_weather(w) == encode_wind(w) + concat_segs(wx_segments(w)),
{
    let segs = wx_segments(w);
    lemma_concat10(
        encode_wind(w),
        segs[0],
        segs[1],
        segs[2],
        segs[3],
        segs[4],
        segs[5],
        segs[6],
        segs[7],
        segs[8],
        segs[9],
    );
    assert(segs =~= seq![
        segs[0],
        segs[1],
        segs[2],
        segs[3],
        segs[4],
        segs[5],
        segs[6],
        segs[7],
        segs[8],
        segs[9],
    ]);
}

proof fn lemma_wx_wind(w: AprsWeatherData)
    requires
        weather_representable(w),
    ensures
        encode_wind(w).len() == 7,
        encode_wind(w)[3] == 47u8,
        (match spec_opt_u16(encode_wind(w).subrange(0, 3)) {
            Some(v) => Some(WindDirection(v)),
            None => None,
        }) == w.wind_direction,
        (match spec_opt_u16(encode_wind(w).subrange(4, 7)) {
            Some(v) => Some(WindSpeed(v)),
            None => None,
        }) == w.wind_speed,
{
    reveal_with_fuel(crate::util::pow10, 4);
    let dir = match w.wind_direction {
        Some(d) => Some(d.0 as nat),
        None => None,
    };
    let spd = speed_val(w.wind_speed);
    match dir {
        Some(x) => {
            lemma_pad_reads_back(x, 3);
        },
        None => {
            assert(all_blank(seq![46u8, 46u8, 46u8]));
        },
    }
    match spd {
        Some(x) => {
            lemma_pad_reads_back(x, 3);
        },
        None => {
            assert(all_blank(seq![46u8, 46u8, 46u8]));
        },
    }
    let wind = encode_wind(w);
    assert(wind.subrange(0, 3) =~= dots_or_pad(dir));
    assert(wind.subrange(4, 7) =~= dots_or_pad(spd));
}

/// A weather value that the wire form can write decodes back from its
/// written form.
pub proof fn lemma_weather_round_trip(w: AprsWeatherData)
    requires
        weather_representable(w),
    ensures
        spec_parse_weather(spec_encode_weather(w)) == Ok::<AprsWeatherData, AprsErrorView>(w),
        spec_encode_weather(w).len() >= 7,
{
    let segs = wx_segments(w);
    let e = spec_encode_weather(w);
    lemma_wx_concat(w);
    lemma_wx_wind(w);
    let wind = encode_wind(w);
    assert(e.subrange(0, 3) =~= wind.subrange(0, 3));
    assert(e.subrange(4, 7) =~= wind.subrange(4, 7));
    assert(e[3] == wind[3]);
    assert(e.subrange(7, e.len() as int) =~= concat_segs(segs));
    lemma_wx_segment_shapes(w);
    assert forall|j: int|
        0 <= j < segs.len() implies (#[trigger] segs[j]).len() > 0 ==> field_len(segs[j][0]) + 1
            == segs[j].len() && field_len(segs[j][0]) > 0 by {
        assert(segs.contains(segs[j]));
    }
    lemma_wx_chain(e, 7, segs, wind_only(w));
    lemma_wx_apply_all(w);
}

/// A decoded positionless weather report decodes back from its written form.
pub proof fn lemma_positionless_weather_round_trip(info: Seq<u8>)
    requires
        spec_parse_positionless_weather(info) is Ok,
    ensures
        spec_parse_positionless_weather(
            spec_encode_positionless_weather(spec_parse_positionless_weather(info)->Ok_0),
        ) == spec_parse_positionless_weather(info),
        spec_encode_positionless_weather(spec_parse_positionless_weather(info)->Ok_0)[0] == 95u8,
{
    let p = spec_parse_positionless_weather(info)->Ok_0;
    lemma_parse_weather_representable(info.subrange(9, info.len() as int));
    lemma_weather_round_trip(p.weather);
    let e = spec_encode_positionless_weather(p);
    let ew = spec_encode_weather(p.weather);
    assert(e =~= seq![95u8] + p.timestamp + ew);
    assert(e.subrange(9, e.len() as int) =~= ew);
    assert(e.subrange(1, 9) =~= p.timestamp);
}

impl Clone for AprsPositionlessWeather {
    fn clone(&self) -> (r: Self)
        ensures
            r@ == self@,
    {
        AprsPositionlessWeather {
            timestamp: crate::util::copy_vec(&self.timestamp),
            weather: self.weather,
            comment: crate::util::copy_vec(&self.comment),
        }
    }
}


/// A positionless weather report that decodes still decodes with bytes
/// appended.
pub proof fn lemma_positionless_weather_extend(info: Seq<u8>, t: Seq<u8>)
    requires
        spec_parse_positionless_weather(info) is Ok,
    ensures
        spec_parse_positionless_weather(info + t) is Ok,
{
    let c = info + t;
    let b = info.subrange(9, info.len() as int);
    assert(c.subrange(9, c.len() as int) =~= b + t);
    assert((b + t)[3] == b[3]);
}

} // verus!
