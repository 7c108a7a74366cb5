//! MIC-E position reports: latitude and message bits in the destination
//! callsign, longitude, speed and course in the information field.
use crate::callsign::{spec_decode_callsign, Callsign, CallsignView};
use crate::error::{AprsError, AprsErrorView};
use crate::lonlat::{
    lon_ok, spec_dmh, spec_encode_lat_uncompressed, spec_parse_lat_uncompressed, Latitude,
    Longitude, Precision, UNITS_PER_DEGREE, UNITS_PER_HUNDREDTH_MINUTE, UNITS_PER_MINUTE,
};
use crate::text::str_from_utf8;
use crate::util::{
    copy_from, copy_range, ends_with, extend, find_byte, index_of, lemma_index_of,
    lemma_index_of_at, lemma_starts_with_bytes, starts_with,
};
use vstd::prelude::*;
use vstd::string::StringSliceAdditionalSpecFns;
use vstd::utf8::valid_utf8;

verus! {

// ─── MIC-E message type ───────────────────────────────────────────────────────
/// MIC-E message type encoded in the destination callsign.
///
/// Standard types (M0–M6) are defined in APRS101; Custom types (C0–C6)
/// are radio-specific; Emergency is encoded as all-zeros.
#[derive(Debug, Copy, Clone, PartialEq, Eq, Hash, Structural)]
pub enum MicEMessage {
    M0,
    M1,
    M2,
    M3,
    M4,
    M5,
    M6,
    C0,
    C1,
    C2,
    C3,
    C4,
    C5,
    C6,
    Emergency,
    Unknown,
}

/// One message bit of a destination byte: a digit or `L` is 0, `A`–`K` a
/// custom 1, `P`–`Z` a standard 1.
#[derive(Debug, Copy, Clone, PartialEq, Eq, Structural)]
pub enum MsgBit {
    Zero,
    Custom,
    Standard,
}

pub open spec fn spec_msg_bit(c: u8) -> Option<MsgBit> {
    if (48 <= c <= 57) || c == 76 {
        Some(MsgBit::Zero)
    } else if 65 <= c <= 75 {
        Some(MsgBit::Custom)
    } else if 80 <= c <= 90 {
        Some(MsgBit::Standard)
    } else {
        None
    }
}

/// The message type of three message bits.
pub open spec fn spec_message_from_bits(a: MsgBit, b: MsgBit, c: MsgBit) -> MicEMessage {
    match (a, b, c) {
        (MsgBit::Standard, MsgBit::Standard, MsgBit::Standard) => MicEMessage::M0,
        (MsgBit::Custom, MsgBit::Custom, MsgBit::Custom) => MicEMessage::C0,
        (MsgBit::Standard, MsgBit::Standard, MsgBit::Zero) => MicEMessage::M1,
        (MsgBit::Custom, MsgBit::Custom, MsgBit::Zero) => MicEMessage::C1,
        (MsgBit::Standard, MsgBit::Zero, MsgBit::Standard) => MicEMessage::M2,
        (MsgBit::Custom, MsgBit::Zero, MsgBit::Custom) => MicEMessage::C2,
        (MsgBit::Standard, MsgBit::Zero, MsgBit::Zero) => MicEMessage::M3,
        (MsgBit::Custom, MsgBit::Zero, MsgBit::Zero) => MicEMessage::C3,
        (MsgBit::Zero, MsgBit::Standard, MsgBit::Standard) => MicEMessage::M4,
        (MsgBit::Zero, MsgBit::Custom, MsgBit::Custom) => MicEMessage::C4,
        (MsgBit::Zero, MsgBit::Standard, MsgBit::Zero) => MicEMessage::M5,
        (MsgBit::Zero, MsgBit::Custom, MsgBit::Zero) => MicEMessage::C5,
        (MsgBit::Zero, MsgBit::Zero, MsgBit::Standard) => MicEMessage::M6,
        (MsgBit::Zero, MsgBit::Zero, MsgBit::Custom) => MicEMessage::C6,
        (MsgBit::Zero, MsgBit::Zero, MsgBit::Zero) => MicEMessage::Emergency,
        _ => MicEMessage::Unknown,
    }
}

/// The three message bits written for a message type.
pub open spec fn spec_message_to_bits(m: MicEMessage) -> (MsgBit, MsgBit, MsgBit) {
    match m {
        MicEMessage::M0 => (MsgBit::Standard, MsgBit::Standard, MsgBit::Standard),
        MicEMessage::C0 => (MsgBit::Custom, MsgBit::Custom, MsgBit::Custom),
        MicEMessage::M1 => (MsgBit::Standard, MsgBit::Standard, MsgBit::Zero),
        MicEMessage::C1 => (MsgBit::Custom, MsgBit::Custom, MsgBit::Zero),
        MicEMessage::M2 => (MsgBit::Standard, MsgBit::Zero, MsgBit::Standard),
        MicEMessage::C2 => (MsgBit::Custom, MsgBit::Zero, MsgBit::Custom),
        MicEMessage::M3 => (MsgBit::Standard, MsgBit::Zero, MsgBit::Zero),
        MicEMessage::C3 => (MsgBit::Custom, MsgBit::Zero, MsgBit::Zero),
        MicEMessage::M4 => (MsgBit::Zero, MsgBit::Standard, MsgBit::Standard),
        MicEMessage::C4 => (MsgBit::Zero, MsgBit::Custom, MsgBit::Custom),
        MicEMessage::M5 => (MsgBit::Zero, MsgBit::Standard, MsgBit::Zero),
        MicEMessage::C5 => (MsgBit::Zero, MsgBit::Custom, MsgBit::Zero),
        MicEMessage::M6 => (MsgBit::Zero, MsgBit::Zero, MsgBit::Standard),
        MicEMessage::C6 => (MsgBit::Zero, MsgBit::Zero, MsgBit::Custom),
        MicEMessage::Emergency => (MsgBit::Zero, MsgBit::Zero, MsgBit::Zero),
        MicEMessage::Unknown => (MsgBit::Standard, MsgBit::Custom, MsgBit::Standard),
    }
}

impl MsgBit {
    pub fn from_byte(c: u8) -> (r: Option<Self>)
        ensures
            r == spec_msg_bit(c),
    {
        if (48 <= c && c <= 57) || c == 76 {
            Some(MsgBit::Zero)
        } else if 65 <= c && c <= 75 {
            Some(MsgBit::Custom)
        } else if 80 <= c && c <= 90 {
            Some(MsgBit::Standard)
        } else {
            None
        }
    }
}

impl MicEMessage {
    pub fn from_bits(a: MsgBit, b: MsgBit, c: MsgBit) -> (r: Self)
        ensures
            r == spec_message_from_bits(a, b, c),
    {
        match (a, b, c) {
            (MsgBit::Standard, MsgBit::Standard, MsgBit::Standard) => MicEMessage::M0,
            (MsgBit::Custom, MsgBit::Custom, MsgBit::Custom) => MicEMessage::C0,
            (MsgBit::Standard, MsgBit::Standard, MsgBit::Zero) => MicEMessage::M1,
            (MsgBit::Custom, MsgBit::Custom, MsgBit::Zero) => MicEMessage::C1,
            (MsgBit::Standard, MsgBit::Zero, MsgBit::Standard) => MicEMessage::M2,
            (MsgBit::Custom, MsgBit::Zero, MsgBit::Custom) => MicEMessage::C2,
            (MsgBit::Standard, MsgBit::Zero, MsgBit::Zero) => MicEMessage::M3,
            (MsgBit::Custom, MsgBit::Zero, MsgBit::Zero) => MicEMessage::C3,
            (MsgBit::Zero, MsgBit::Standard, MsgBit::Standard) => MicEMessage::M4,
            (MsgBit::Zero, MsgBit::Custom, MsgBit::Custom) => MicEMessage::C4,
            (MsgBit::Zero, MsgBit::Standard, MsgBit::Zero) => MicEMessage::M5,
            (MsgBit::Zero, MsgBit::Custom, MsgBit::Zero) => MicEMessage::C5,
            (MsgBit::Zero, MsgBit::Zero, MsgBit::Standard) => MicEMessage::M6,
            (MsgBit::Zero, MsgBit::Zero, MsgBit::Custom) => MicEMessage::C6,
            (MsgBit::Zero, MsgBit::Zero, MsgBit::Zero) => MicEMessage::Emergency,
            _ => MicEMessage::Unknown,
        }
    }

    pub fn to_bits(self) -> (r: (MsgBit, MsgBit, MsgBit))
        ensures
            r == spec_message_to_bits(self),
    {
        match self {
            MicEMessage::M0 => (MsgBit::Standard, MsgBit::Standard, MsgBit::Standard),
            MicEMessage::C0 => (MsgBit::Custom, MsgBit::Custom, MsgBit::Custom),
            MicEMessage::M1 => (MsgBit::Standard, MsgBit::Standard, MsgBit::Zero),
            MicEMessage::C1 => (MsgBit::Custom, MsgBit::Custom, MsgBit::Zero),
            MicEMessage::M2 => (MsgBit::Standard, MsgBit::Zero, MsgBit::Standard),
            MicEMessage::C2 => (MsgBit::Custom, MsgBit::Zero, MsgBit::Custom),
            MicEMessage::M3 => (MsgBit::Standard, MsgBit::Zero, MsgBit::Zero),
            MicEMessage::C3 => (MsgBit::Custom, MsgBit::Zero, MsgBit::Zero),
            MicEMessage::M4 => (MsgBit::Zero, MsgBit::Standard, MsgBit::Standard),
            MicEMessage::C4 => (MsgBit::Zero, MsgBit::Custom, MsgBit::Custom),
            MicEMessage::M5 => (MsgBit::Zero, MsgBit::Standard, MsgBit::Zero),
            MicEMessage::C5 => (MsgBit::Zero, MsgBit::Custom, MsgBit::Zero),
            MicEMessage::M6 => (MsgBit::Zero, MsgBit::Zero, MsgBit::Standard),
            MicEMessage::C6 => (MsgBit::Zero, MsgBit::Zero, MsgBit::Custom),
            MicEMessage::Emergency => (MsgBit::Zero, MsgBit::Zero, MsgBit::Zero),
            MicEMessage::Unknown => (MsgBit::Standard, MsgBit::Custom, MsgBit::Standard),
        }
    }
}

/// Every message type but `Unknown` survives a trip through its bits.
pub proof fn lemma_message_bits_round_trip(m: MicEMessage)
    requires
        m != MicEMessage::Unknown,
    ensures
        ({
            let (a, b, c) = spec_message_to_bits(m);
            spec_message_from_bits(a, b, c) == m
        }),
{
}

/// A message bit read as a binary digit: a zero bit is 0, a custom or a
/// standard one is 1.
pub open spec fn msg_bit_digit(b: MsgBit) -> int {
    match b {
        MsgBit::Zero => 0,
        MsgBit::Custom => 1,
        MsgBit::Standard => 1,
    }
}

/// Three message bits read as a binary number, the first the most significant.
pub open spec fn msg_bits_value(a: MsgBit, b: MsgBit, c: MsgBit) -> int {
    4 * msg_bit_digit(a) + 2 * msg_bit_digit(b) + msg_bit_digit(c)
}

/// The number `n` of a standard message type `Mn`.
pub open spec fn standard_message_number(m: MicEMessage) -> Option<int> {
    match m {
        MicEMessage::M0 => Some(0),
        MicEMessage::M1 => Some(1),
        MicEMessage::M2 => Some(2),
        MicEMessage::M3 => Some(3),
        MicEMessage::M4 => Some(4),
        MicEMessage::M5 => Some(5),
        MicEMessage::M6 => Some(6),
        _ => None,
    }
}

/// The number `n` of a custom message type `Cn`.
pub open spec fn custom_message_number(m: MicEMessage) -> Option<int> {
    match m {
        MicEMessage::C0 => Some(0),
        MicEMessage::C1 => Some(1),
        MicEMessage::C2 => Some(2),
        MicEMessage::C3 => Some(3),
        MicEMessage::C4 => Some(4),
        MicEMessage::C5 => Some(5),
        MicEMessage::C6 => Some(6),
        _ => None,
    }
}

/// The message table: three bits with no custom one and not all zero name
/// the standard message `Mn` with `n` = 7 minus their binary value (so
/// 111 is M0, 110 is M1, 101 is M2, ..., 001 is M6); with no standard one and
/// not all zero, the custom message `Cn` by the same rule; all zero is the
/// emergency; standard and custom ones mixed are unknown.
pub proof fn lemma_message_from_bits_table(a: MsgBit, b: MsgBit, c: MsgBit)
    ensures
        a != MsgBit::Custom && b != MsgBit::Custom && c != MsgBit::Custom && msg_bits_value(a, b, c)
            > 0 ==> standard_message_number(spec_message_from_bits(a, b, c)) == Some(
            7 - msg_bits_value(a, b, c),
        ),
        a != MsgBit::Standard && b != MsgBit::Standard && c != MsgBit::Standard && msg_bits_value(
            a,
            b,
            c,
        ) > 0 ==> custom_message_number(spec_message_from_bits(a, b, c)) == Some(
            7 - msg_bits_value(a, b, c),
        ),
        a == MsgBit::Zero && b == MsgBit::Zero && c == MsgBit::Zero ==> spec_message_from_bits(
            a,
            b,
            c,
        ) == MicEMessage::Emergency,
        (a == MsgBit::Standard || b == MsgBit::Standard || c == MsgBit::Standard) && (a
            == MsgBit::Custom || b == MsgBit::Custom || c == MsgBit::Custom) ==> spec_message_from_bits(
            a,
            b,
            c,
        ) == MicEMessage::Unknown,
{
}

/// The bits written for a message type follow the same table: `Mn` is
/// written with standard ones and zeros whose binary value is 7 - n, `Cn`
/// with custom ones and zeros of that value, the emergency with three zeros.
pub proof fn lemma_message_to_bits_table(m: MicEMessage)
    ensures
        ({
            let (a, b, c) = spec_message_to_bits(m);
            &&& standard_message_number(m) matches Some(n) ==> a != MsgBit::Custom && b
                != MsgBit::Custom && c != MsgBit::Custom && msg_bits_value(a, b, c) == 7 - n
            &&& custom_message_number(m) matches Some(n) ==> a != MsgBit::Standard && b
                != MsgBit::Standard && c != MsgBit::Standard && msg_bits_value(a, b, c) == 7 - n
            &&& m == MicEMessage::Emergency ==> a == MsgBit::Zero && b == MsgBit::Zero && c
                == MsgBit::Zero
        }),
{
}

// ─── Speed / Course ───────────────────────────────────────────────────────────
/// Speed in knots (0–799).
#[derive(Debug, Copy, Clone, PartialEq, Eq, Structural)]
pub struct MicESpeed(pub u32);

impl MicESpeed {
    pub fn knots(self) -> (r: u32)
        ensures
            r == self.0,
    {
        self.0
    }
}

/// Course in degrees (0 = unknown/not applicable, 1–360).
#[derive(Debug, Copy, Clone, PartialEq, Eq, Structural)]
pub struct MicECourse(pub u32);

impl MicECourse {
    /// The course that means "unknown / not applicable".
    pub fn unknown() -> (r: Self)
        ensures
            r.0 == 0,
    {
        MicECourse(0)
    }

    pub fn degrees(self) -> (r: u32)
        ensures
            r == self.0,
    {
        self.0
    }
}

// ─── Device ID ───────────────────────────────────────────────────────────────
/// Manufacturer and model of the radio that generated this MIC-E packet,
/// decoded from the manufacturer prefix/suffix bytes in the info field.
#[derive(Debug, PartialEq, Eq)]
pub struct MicEDevice {
    pub manufacturer: String,
    pub model: String,
}

/// Mathematical model of [`MicEDevice`].
pub struct MicEDeviceView {
    pub manufacturer: Seq<char>,
    pub model: Seq<char>,
}

impl View for MicEDevice {
    type V = MicEDeviceView;

    open spec fn view(&self) -> MicEDeviceView {
        MicEDeviceView { manufacturer: self.manufacturer@, model: self.model@ }
    }
}

pub open spec fn dev(m: &str, d: &str) -> MicEDeviceView {
    MicEDeviceView { manufacturer: m@, model: d@ }
}

/// The radio named by a manufacturer prefix, per the table of known prefixes
/// (Kenwood `>=`, `>^`, `>`, `]=`, `]`; Yaesu `_` and a second byte); the
/// first entry that `prefix` starts with wins.
pub open spec fn spec_lookup_device(prefix: Seq<u8>) -> Option<MicEDeviceView> {
    if starts_with(prefix, seq![62u8, 61u8]) {
        Some(dev("Kenwood", "TH-D72"))
    } else if starts_with(prefix, seq![62u8, 94u8]) {
        Some(dev("Kenwood", "TH-D74"))
    } else if starts_with(prefix, seq![62u8]) {
        Some(dev("Kenwood", "TH-D7A"))
    } else if starts_with(prefix, seq![93u8, 61u8]) {
        Some(dev("Kenwood", "TM-D710"))
    } else if starts_with(prefix, seq![93u8]) {
        Some(dev("Kenwood", "TM-D700"))
    } else if starts_with(prefix, seq![95u8, 32u8]) {
        Some(dev("Yaesu", "VX-8"))
    } else if starts_with(prefix, seq![95u8, 34u8]) {
        Some(dev("Yaesu", "FTM-350"))
    } else if starts_with(prefix, seq![95u8, 35u8]) {
        Some(dev("Yaesu", "VX-8G"))
    } else if starts_with(prefix, seq![95u8, 36u8]) {
        Some(dev("Yaesu", "FT1D"))
    } else if starts_with(prefix, seq![95u8, 37u8]) {
        Some(dev("Yaesu", "FTM-400DR"))
    } else if starts_with(prefix, seq![95u8, 41u8]) {
        Some(dev("Yaesu", "FTM-100D"))
    } else if starts_with(prefix, seq![95u8, 51u8]) {
        Some(dev("Yaesu", "FT5D"))
    } else if starts_with(prefix, seq![95u8, 56u8]) {
        Some(dev("Yaesu", "FT3D"))
    } else {
        None
    }
}

/// The manufacturer table by its bytes: after `_`, the second byte names the
/// Yaesu radio (space VX-8, `"` FTM-350, `#` VX-8G, `$` FT1D, `%` FTM-400DR,
/// `)` FTM-100D, `3` FT5D, `8` FT3D); after `>` it is the Kenwood TH-D72 for
/// `=`, TH-D74 for `^` and TH-D7A otherwise; after `]` the TM-D710 for `=`
/// and TM-D700 otherwise. Any other first byte, or a lone `_`, names no radio.
pub proof fn lemma_device_table(p: Seq<u8>)
    ensures
        p.len() >= 2 && p[0] == 95u8 ==> spec_lookup_device(p) == (if p[1] == 32u8 {
            Some(dev("Yaesu", "VX-8"))
        } else if p[1] == 34u8 {
            Some(dev("Yaesu", "FTM-350"))
        } else if p[1] == 35u8 {
            Some(dev("Yaesu", "VX-8G"))
        } else if p[1] == 36u8 {
            Some(dev("Yaesu", "FT1D"))
        } else if p[1] == 37u8 {
            Some(dev("Yaesu", "FTM-400DR"))
        } else if p[1] == 41u8 {
            Some(dev("Yaesu", "FTM-100D"))
        } else if p[1] == 51u8 {
            Some(dev("Yaesu", "FT5D"))
        } else if p[1] == 56u8 {
            Some(dev("Yaesu", "FT3D"))
        } else {
            None
        }),
        p.len() >= 1 && p[0] == 62u8 ==> spec_lookup_device(p) == (if p.len() >= 2 && p[1]
            == 61u8 {
            Some(dev("Kenwood", "TH-D72"))
        } else if p.len() >= 2 && p[1] == 94u8 {
            Some(dev("Kenwood", "TH-D74"))
        } else {
            Some(dev("Kenwood", "TH-D7A"))
        }),
        p.len() >= 1 && p[0] == 93u8 ==> spec_lookup_device(p) == (if p.len() >= 2 && p[1]
            == 61u8 {
            Some(dev("Kenwood", "TM-D710"))
        } else {
            Some(dev("Kenwood", "TM-D700"))
        }),
        p.len() == 0 || (p[0] != 62u8 && p[0] != 93u8 && p[0] != 95u8) || (p.len() == 1 && p[0]
            == 95u8) ==> spec_lookup_device(p) is None,
{
    lemma_starts_with_bytes(p, seq![62u8, 61u8]);
    lemma_starts_with_bytes(p, seq![62u8, 94u8]);
    lemma_starts_with_bytes(p, seq![62u8]);
    lemma_starts_with_bytes(p, seq![93u8, 61u8]);
    lemma_starts_with_bytes(p, seq![93u8]);
    lemma_starts_with_bytes(p, seq![95u8, 32u8]);
    lemma_starts_with_bytes(p, seq![95u8, 34u8]);
    lemma_starts_with_bytes(p, seq![95u8, 35u8]);
    lemma_starts_with_bytes(p, seq![95u8, 36u8]);
    lemma_starts_with_bytes(p, seq![95u8, 37u8]);
    lemma_starts_with_bytes(p, seq![95u8, 41u8]);
    lemma_starts_with_bytes(p, seq![95u8, 51u8]);
    lemma_starts_with_bytes(p, seq![95u8, 56u8]);
}

/// A Byonics TinyTrak suffix `|3` or `|4` at the end of a comment: the
/// device and the comment without it.
pub open spec fn spec_byonics_suffix(comment: Seq<u8>) -> Option<(MicEDeviceView, Seq<u8>)> {
    if ends_with(comment, seq![124u8, 51u8]) {
        Some((dev("Byonics", "TinyTrak3"), comment.subrange(0, comment.len() - 2)))
    } else if ends_with(comment, seq![124u8, 52u8]) {
        Some((dev("Byonics", "TinyTrak4"), comment.subrange(0, comment.len() - 2)))
    } else {
        None
    }
}

/// A comment that ends `|3` was sent by a Byonics TinyTrak3 and one ending
/// `|4` by a TinyTrak4, the comment being what stands before those two
/// bytes; a comment ending otherwise names no Byonics device.
pub proof fn lemma_byonics_table(comment: Seq<u8>)
    ensures
        ({
            let n = comment.len();
            let tagged = n >= 2 && comment[n - 2] == 124u8;
            &&& tagged && comment[n - 1] == 51u8 ==> spec_byonics_suffix(comment) == Some(
                (dev("Byonics", "TinyTrak3"), comment.subrange(0, n - 2)),
            )
            &&& tagged && comment[n - 1] == 52u8 ==> spec_byonics_suffix(comment) == Some(
                (dev("Byonics", "TinyTrak4"), comment.subrange(0, n - 2)),
            )
            &&& !(tagged && (comment[n - 1] == 51u8 || comment[n - 1] == 52u8))
                ==> spec_byonics_suffix(comment) is None
        }),
{
    let n = comment.len();
    if n >= 2 {
        let t = comment.subrange(n - 2, n as int);
        assert(t[0] == comment[n - 2] && t[1] == comment[n - 1]);
        if t[0] == 124u8 && t[1] == 51u8 {
            assert(t =~= seq![124u8, 51u8]);
        }
        if t[0] == 124u8 && t[1] == 52u8 {
            assert(t =~= seq![124u8, 52u8]);
        }
    }
}

fn make_device(m: &str, d: &str) -> (r: MicEDevice)
    ensures
        r@ == dev(m, d),
{
    MicEDevice { manufacturer: m.to_owned(), model: d.to_owned() }
}

fn prefix2(p: &[u8], a: u8, b: u8) -> (r: bool)
    ensures
        r == starts_with(p@, seq![a, b]),
{
    let r = p.len() >= 2 && p[0] == a && p[1] == b;
    proof {
        if p@.len() >= 2 {
            assert(p@.subrange(0, 2)[0] == p@[0]);
            assert(p@.subrange(0, 2)[1] == p@[1]);
            if r {
                assert(p@.subrange(0, 2) =~= seq![a, b]);
            }
        }
    }
    r
}

fn prefix1(p: &[u8], a: u8) -> (r: bool)
    ensures
        r == starts_with(p@, seq![a]),
{
    let r = p.len() >= 1 && p[0] == a;
    proof {
        if p@.len() >= 1 {
            assert(p@.subrange(0, 1)[0] == p@[0]);
            if r {
                assert(p@.subrange(0, 1) =~= seq![a]);
            }
        }
    }
    r
}

/// The radio named by a manufacturer prefix.
pub fn lookup_device(prefix: &[u8]) -> (r: Option<MicEDevice>)
    ensures
        match (r, spec_lookup_device(prefix@)) {
            (Some(d), Some(v)) => d@ == v,
            (None, None) => true,
            _ => false,
        },
{
    if prefix2(prefix, '>' as u8, '=' as u8) {
        Some(make_device("Kenwood", "TH-D72"))
    } else if prefix2(prefix, '>' as u8, '^' as u8) {
        Some(make_device("Kenwood", "TH-D74"))
    } else if prefix1(prefix, '>' as u8) {
        Some(make_device("Kenwood", "TH-D7A"))
    } else if prefix2(prefix, ']' as u8, '=' as u8) {
        Some(make_device("Kenwood", "TM-D710"))
    } else if prefix1(prefix, ']' as u8) {
        Some(make_device("Kenwood", "TM-D700"))
    } else if prefix2(prefix, '_' as u8, ' ' as u8) {
        Some(make_device("Yaesu", "VX-8"))
    } else if prefix2(prefix, '_' as u8, '"' as u8) {
        Some(make_device("Yaesu", "FTM-350"))
    } else if prefix2(prefix, '_' as u8, '#' as u8) {
        Some(make_device("Yaesu", "VX-8G"))
    } else if prefix2(prefix, '_' as u8, '$' as u8) {
        Some(make_device("Yaesu", "FT1D"))
    } else if prefix2(prefix, '_' as u8, '%' as u8) {
        Some(make_device("Yaesu", "FTM-400DR"))
    } else if prefix2(prefix, '_' as u8, ')' as u8) {
        Some(make_device("Yaesu", "FTM-100D"))
    } else if prefix2(prefix, '_' as u8, '3' as u8) {
        Some(make_device("Yaesu", "FT5D"))
    } else if prefix2(prefix, '_' as u8, '8' as u8) {
        Some(make_device("Yaesu", "FT3D"))
    } else {
        None
    }
}

fn suffix2(c: &[u8], a: u8, b: u8) -> (r: bool)
    ensures
        r == ends_with(c@, seq![a, b]),
{
    let n = c.len();
    let r = n >= 2 && c[n - 2] == a && c[n - 1] == b;
    proof {
        if c@.len() >= 2 {
            let t = c@.subrange(c@.len() - 2, c@.len() as int);
            assert(t[0] == c@[n - 2]);
            assert(t[1] == c@[n - 1]);
            if r {
                assert(t =~= seq![a, b]);
            }
        }
    }
    r
}

/// A Byonics TinyTrak suffix at the end of a comment.
pub fn lookup_byonics_suffix(comment: &[u8]) -> (r: Option<(MicEDevice, &[u8])>)
    ensures
        match (r, spec_byonics_suffix(comment@)) {
            (Some((d, rest)), Some((v, vrest))) => d@ == v && rest@ == vrest,
            (None, None) => true,
            _ => false,
        },
{
    if suffix2(comment, '|' as u8, '3' as u8) {
        return Some(
            (
                make_device("Byonics", "TinyTrak3"),
                vstd::slice::slice_subrange(comment, 0, comment.len() - 2),
            ),
        );
    }
    if suffix2(comment, '|' as u8, '4' as u8) {
        return Some(
            (
                make_device("Byonics", "TinyTrak4"),
                vstd::slice::slice_subrange(comment, 0, comment.len() - 2),
            ),
        );
    }
    None
}

// ─── Destination decoding ─────────────────────────────────────────────────────
/// The latitude digit carried by a destination byte (a space for ambiguity).
pub open spec fn spec_lat_digit(c: u8) -> Option<u8> {
    if 48 <= c <= 57 {
        Some(c)
    } else if 65 <= c <= 74 {
        Some((c - 17) as u8)
    } else if c == 75 || c == 76 || c == 90 {
        Some(32u8)
    } else if 80 <= c <= 89 {
        Some((c - 32) as u8)
    } else {
        None
    }
}

/// The hemisphere carried by destination byte 3.
pub open spec fn spec_lat_dir(c: u8) -> Option<u8> {
    if (48 <= c <= 57) || c == 76 {
        Some(83u8)
    } else if 80 <= c <= 90 {
        Some(78u8)
    } else {
        None
    }
}

/// What a six-byte destination call carries: latitude (units), precision,
/// message type, the +100° longitude offset, and whether the longitude is
/// east.
#[verifier::opaque]
pub open spec fn spec_decode_dest(d: Seq<u8>) -> Option<(int, Precision, MicEMessage, bool, bool)> {
    if d.len() != 6 {
        None
    } else {
        match (
            spec_lat_digit(d[0]),
            spec_lat_digit(d[1]),
            spec_lat_digit(d[2]),
            spec_lat_digit(d[3]),
            spec_lat_digit(d[4]),
            spec_lat_digit(d[5]),
            spec_lat_dir(d[3]),
        ) {
            (Some(a), Some(b), Some(c), Some(e), Some(f), Some(g), Some(h)) => {
                match spec_parse_lat_uncompressed(seq![a, b, c, e, 46u8, f, g, h]) {
                    Ok((lat, prec)) => match (
                        spec_msg_bit(d[0]),
                        spec_msg_bit(d[1]),
                        spec_msg_bit(d[2]),
                    ) {
                        (Some(x), Some(y), Some(z)) => Some(
                            (
                                lat,
                                prec,
                                spec_message_from_bits(x, y, z),
                                80 <= d[4] <= 90,
                                (48 <= d[5] <= 57) || d[5] == 76,
                            ),
                        ),
                        _ => None,
                    },
                    Err(_) => None,
                }
            },
            _ => None,
        }
    }
}

/// What one destination byte carries: `0`–`9` the digit with a zero message
/// bit; `A`–`J` the digits 0–9 with a custom one bit; `P`–`Y` the digits 0–9
/// with a standard one bit; `K`, `L` and `Z` an ambiguous (blank) digit with a
/// custom, zero and standard bit. No other byte carries a digit or a bit.
pub proof fn lemma_dest_byte_table(c: u8)
    ensures
        48 <= c <= 57 ==> spec_lat_digit(c) == Some(c) && spec_msg_bit(c) == Some(MsgBit::Zero),
        65 <= c <= 74 ==> spec_lat_digit(c) == Some((48 + (c - 65)) as u8) && spec_msg_bit(c)
            == Some(MsgBit::Custom),
        80 <= c <= 89 ==> spec_lat_digit(c) == Some((48 + (c - 80)) as u8) && spec_msg_bit(c)
            == Some(MsgBit::Standard),
        c == 75 ==> spec_lat_digit(c) == Some(32u8) && spec_msg_bit(c) == Some(MsgBit::Custom),
        c == 76 ==> spec_lat_digit(c) == Some(32u8) && spec_msg_bit(c) == Some(MsgBit::Zero),
        c == 90 ==> spec_lat_digit(c) == Some(32u8) && spec_msg_bit(c) == Some(MsgBit::Standard),
        !(48 <= c <= 57 || 65 <= c <= 76 || 80 <= c <= 90) ==> spec_lat_digit(c) is None
            && spec_msg_bit(c) is None,
        spec_lat_dir(c) == (if 48 <= c <= 57 || c == 76 {
            Some(83u8)
        } else if 80 <= c <= 90 {
            Some(78u8)
        } else {
            None
        }),
{
}

/// A decoded destination takes its message type from the bits of its first
/// three bytes, adds 100° to the longitude when its fifth byte is `P`–`Z`,
/// and puts the longitude east when its sixth byte is a digit or `L`.
pub proof fn lemma_dest_flags(d: Seq<u8>)
    requires
        spec_decode_dest(d) is Some,
    ensures
        d.len() == 6,
        ({
            let (lat, prec, msg, off100, east) = spec_decode_dest(d)->0;
            &&& spec_msg_bit(d[0]) is Some && spec_msg_bit(d[1]) is Some && spec_msg_bit(d[2]) is Some
            &&& msg == spec_message_from_bits(
                spec_msg_bit(d[0])->0,
                spec_msg_bit(d[1])->0,
                spec_msg_bit(d[2])->0,
            )
            &&& off100 <==> (80 <= d[4] <= 90)
            &&& east <==> (48 <= d[5] <= 57 || d[5] == 76)
        }),
{
    reveal(spec_decode_dest);
}

fn lat_digit(c: u8) -> (r: Option<u8>)
    ensures
        r == spec_lat_digit(c),
{
    if 48 <= c && c <= 57 {
        Some(c)
    } else if 65 <= c && c <= 74 {
        Some(c - 17)
    } else if c == 75 || c == 76 || c == 90 {
        Some(32)
    } else if 80 <= c && c <= 89 {
        Some(c - 32)
    } else {
        None
    }
}

fn lat_dir_byte(c: u8) -> (r: Option<u8>)
    ensures
        r == spec_lat_dir(c),
{
    if (48 <= c && c <= 57) || c == 76 {
        Some(83)
    } else if 80 <= c && c <= 90 {
        Some(78)
    } else {
        None
    }
}

fn decode_dest(data: &[u8]) -> (r: Option<(Latitude, Precision, MicEMessage, bool, bool)>)
    ensures
        match (r, spec_decode_dest(data@)) {
            (Some((l, p, m, o, e)), Some((vl, vp, vm, vo, ve))) => l@ == vl && p == vp && m == vm
                && o == vo && e == ve,
            (None, None) => true,
            _ => false,
        },
{
    proof {
        reveal(spec_decode_dest);
    }
    if data.len() != 6 {
        return None;
    }
    let (a, b, c, e, f, g, h) = match (
        lat_digit(data[0]),
        lat_digit(data[1]),
        lat_digit(data[2]),
        lat_digit(data[3]),
        lat_digit(data[4]),
        lat_digit(data[5]),
        lat_dir_byte(data[3]),
    ) {
        (Some(a), Some(b), Some(c), Some(e), Some(f), Some(g), Some(h)) => (a, b, c, e, f, g, h),
        _ => {
            return None;
        },
    };
    let lat_bytes: [u8; 8] = [a, b, c, e, '.' as u8, f, g, h];
    assert(lat_bytes@ =~= seq![a, b, c, e, 46u8, f, g, h]);
    let (lat, prec) = match Latitude::parse_uncompressed(lat_bytes.as_slice()) {
        Ok(x) => x,
        Err(_) => {
            return None;
        },
    };
    let (x, y, z) = match (
        MsgBit::from_byte(data[0]),
        MsgBit::from_byte(data[1]),
        MsgBit::from_byte(data[2]),
    ) {
        (Some(x), Some(y), Some(z)) => (x, y, z),
        _ => {
            return None;
        },
    };
    let msg = MicEMessage::from_bits(x, y, z);
    let lon_offset_100 = 80 <= data[4] && data[4] <= 90;
    let lon_east = (48 <= data[5] && data[5] <= 57) || data[5] == 76;
    Some((lat, prec, msg, lon_offset_100, lon_east))
}

// ─── Longitude decoding ───────────────────────────────────────────────────────
/// The longitude (units) written by the three longitude bytes, or `None`
/// when a byte is below 28, the degrees overflow a byte, or the value is out
/// of range.
pub open spec fn spec_decode_longitude(b: Seq<u8>, offset_100: bool, is_east: bool) -> Option<int> {
    if b[0] < 28 || b[1] < 28 || b[2] < 28 {
        None
    } else {
        let d0 = b[0] - 28;
        if offset_100 && d0 + 100 > 255 {
            None
        } else {
            let d1 = if offset_100 {
                d0 + 100
            } else {
                d0
            };
            let d = if 180 <= d1 <= 189 {
                d1 - 80
            } else if 190 <= d1 <= 199 {
                d1 - 190
            } else {
                d1
            };
            let m0 = b[1] - 28;
            let m = if m0 >= 60 {
                m0 - 60
            } else {
                m0
            };
            let h = b[2] - 28;
            let v = d * UNITS_PER_DEGREE + m * UNITS_PER_MINUTE + h * UNITS_PER_HUNDREDTH_MINUTE;
            if !lon_ok(v) {
                None
            } else if is_east {
                Some(v)
            } else {
                Some(-v)
            }
        }
    }
}

fn decode_longitude(b: &[u8], offset_100: bool, is_east: bool) -> (r: Option<Longitude>)
    requires
        b@.len() >= 3,
    ensures
        match (r, spec_decode_longitude(b@, offset_100, is_east)) {
            (Some(l), Some(v)) => l@ == v,
            (None, None) => true,
            _ => false,
        },
{
    if b[0] < 28 || b[1] < 28 || b[2] < 28 {
        return None;
    }
    let mut d = b[0] - 28;
    if offset_100 {
        if d > 155 {
            return None;
        }
        d = d + 100;
    }
    if 180 <= d && d <= 189 {
        d = d - 80;
    } else if 190 <= d && d <= 199 {
        d = d - 190;
    }
    let mut m = b[1] - 28;
    if m >= 60 {
        m = m - 60;
    }
    let h = b[2] - 28;
    let v = d as i64 * UNITS_PER_DEGREE + m as i64 * UNITS_PER_MINUTE + h as i64
        * UNITS_PER_HUNDREDTH_MINUTE;
    let lon = match Longitude::from_units(v) {
        Some(l) => l,
        None => {
            return None;
        },
    };
    if is_east {
        Some(lon)
    } else {
        Longitude::from_units(-v)
    }
}

/// The three longitude bytes of a longitude.
pub open spec fn spec_encode_longitude(u: int) -> Seq<u8> {
    let (d, m, h, _) = spec_dmh(u);
    seq![
        (if d <= 9 {
            d + 118int
        } else if d <= 99 {
            d + 28int
        } else {
            d - 72int
        }) as u8,
        (if m < 10 {
            m + 88int
        } else {
            m + 28int
        }) as u8,
        (h + 28) as u8,
    ]
}

fn encode_longitude(lon: Longitude, out: &mut Vec<u8>)
    ensures
        final(out)@ == old(out)@ + spec_encode_longitude(lon@),
{
    let (d, m, h, _) = lon.dmh();
    let d = d as u8;
    let m = m as u8;
    let h = h as u8;
    let enc_d = if d <= 9 {
        d + 118
    } else if d <= 99 {
        d + 28
    } else {
        d - 72
    };
    out.push(enc_d);
    out.push(
        if m < 10 {
            m + 88
        } else {
            m + 28
        },
    );
    out.push(h + 28);
    assert(final(out)@ =~= old(out)@ + spec_encode_longitude(lon@));
}

// ─── Speed / Course ───────────────────────────────────────────────────────────
/// Speed (knots) and course (degrees) written by the three speed/course bytes.
pub open spec fn spec_decode_speed_course(b: Seq<u8>) -> Option<(u32, u32)> {
    if b[0] < 28 || b[1] < 28 || b[2] < 28 {
        None
    } else {
        let sp = (b[0] - 28) as nat;
        let dc = (b[1] - 28) as nat;
        let se = (b[2] - 28) as nat;
        let s = sp * 10 + dc / 10;
        let c = (dc % 10) * 100 + se;
        Some(
            (
                (if s >= 800 {
                    s - 800
                } else {
                    s as int
                }) as u32,
                (if c >= 400 {
                    c - 400
                } else {
                    c as int
                }) as u32,
            ),
        )
    }
}

/// Speed and course from the three speed/course bytes of a MIC-E field.
pub fn decode_speed_course(b: &[u8]) -> (r: Option<(MicESpeed, MicECourse)>)
    requires
        b@.len() >= 3,
    ensures
        match (r, spec_decode_speed_course(b@)) {
            (Some((s, c)), Some((vs, vc))) => s.0 == vs && c.0 == vc,
            (None, None) => true,
            _ => false,
        },
{
    if b[0] < 28 || b[1] < 28 || b[2] < 28 {
        return None;
    }
    let sp = (b[0] - 28) as u32;
    let dc = (b[1] - 28) as u32;
    let se = (b[2] - 28) as u32;
    let mut speed = sp * 10 + dc / 10;
    if speed >= 800 {
        speed = speed - 800;
    }
    let mut course = (dc % 10) * 100 + se;
    if course >= 400 {
        course = course - 400;
    }
    Some((MicESpeed(speed), MicECourse(course)))
}

/// Speed and course that the three bytes can hold.
pub open spec fn speed_course_encodable(knots: u32, deg: u32) -> bool {
    let tens = (knots / 10) % 256;
    &&& tens < 20 || tens + 28 <= 255
    &&& (knots % 10) * 10 + (deg / 100) % 256 + 4 + 28 <= 255
}

/// The three speed/course bytes.
pub open spec fn spec_encode_speed_course(knots: u32, deg: u32) -> Seq<u8> {
    let tens = (knots / 10) % 256;
    let sp: int = if tens < 20 {
        tens + 80
    } else {
        tens as int
    };
    let dc = (knots % 10) * 10 + (deg / 100) % 256 + 4;
    seq![(sp + 28) as u8, (dc + 28) as u8, ((deg % 100) + 28) as u8]
}

fn encode_speed_course(speed: MicESpeed, course: MicECourse, out: &mut Vec<u8>)
    requires
        speed_course_encodable(speed.0, course.0),
    ensures
        final(out)@ == old(out)@ + spec_encode_speed_course(speed.0, course.0),
{
    let knots = speed.knots();
    let deg = course.degrees();
    let tens = ((knots / 10) % 256) as u8;
    let units = (knots % 10) as u8;
    let h_course = ((deg / 100) % 256) as u8;
    let u_course = (deg % 100) as u8;
    let sp = if tens < 20 {
        tens + 80
    } else {
        tens
    };
    let dc = units * 10 + h_course + 4;
    out.push(sp + 28);
    out.push(dc + 28);
    out.push(u_course + 28);
    assert(final(out)@ =~= old(out)@ + spec_encode_speed_course(speed.0, course.0));
}

// ─── Altitude in status field ────────────────────────────────────────────────
/// A byte's base-91 digit, 0 below `!`.
pub open spec fn digit91(b: u8) -> int {
    if b >= 33 {
        b - 33
    } else {
        0
    }
}

/// What follows the eight fixed bytes: the manufacturer prefix (when
/// non-empty) and the altitude in metres, both only when a `}` stands at
/// index 3 or later (the three bytes before it are the altitude plus 10000
/// in base 91), and the comment.
pub open spec fn spec_parse_rest(rest: Seq<u8>) -> (Option<Seq<u8>>, Option<i32>, Seq<u8>) {
    let idx = index_of(rest, 125u8);
    if idx >= 3 {
        let mfg = rest.subrange(0, idx - 3);
        let alt = (digit91(rest[idx - 3]) * 91 + digit91(rest[idx - 2])) * 91 + digit91(
            rest[idx - 1],
        );
        (
            if mfg.len() == 0 {
                None
            } else {
                Some(mfg)
            },
            Some((alt - 10000) as i32),
            rest.subrange(idx + 1, rest.len() as int),
        )
    } else {
        (None, None, rest)
    }
}

fn sat33(b: u8) -> (r: i32)
    ensures
        r == digit91(b),
{
    if b >= 33 {
        (b - 33) as i32
    } else {
        0
    }
}

fn parse_rest(rest: &[u8]) -> (r: (Option<Vec<u8>>, Option<i32>, &[u8]))
    ensures
        ({
            let (m, a, c) = spec_parse_rest(rest@);
            &&& match (r.0, m) {
                (Some(x), Some(y)) => x@ == y,
                (None, None) => true,
                _ => false,
            }
            &&& r.1 == a
            &&& r.2@ == c
        }),
{
    proof {
        lemma_index_of(rest@, 125u8);
    }
    match find_byte(rest, '}' as u8) {
        Some(idx) => {
            if idx >= 3 {
                let alt_val = (sat33(rest[idx - 3]) * 91 + sat33(rest[idx - 2])) * 91 + sat33(
                    rest[idx - 1],
                );
                let raw_mfg = if idx == 3 {
                    None
                } else {
                    Some(copy_range(rest, 0, idx - 3))
                };
                return (
                    raw_mfg,
                    Some(alt_val - 10000),
                    vstd::slice::slice_subrange(rest, idx + 1, rest.len()),
                );
            }
            (None, None, rest)
        },
        None => (None, None, rest),
    }
}

/// The four altitude bytes: the altitude plus 10000 (0 when that is negative)
/// in three base-91 digits, then `}`.
pub open spec fn spec_encode_altitude(alt_m: i32) -> Seq<u8> {
    let val = if alt_m + 10000 < 0 {
        0
    } else {
        alt_m + 10000
    };
    seq![
        (val / 91 / 91 % 91 + 33) as u8,
        (val / 91 % 91 + 33) as u8,
        (val % 91 + 33) as u8,
        125u8,
    ]
}

fn encode_altitude(alt_m: i32, out: &mut Vec<u8>)
    ensures
        final(out)@ == old(out)@ + spec_encode_altitude(alt_m),
{
    let v: i64 = alt_m as i64 + 10000;
    let val: u64 = if v < 0 {
        0
    } else {
        v as u64
    };
    out.push((val / 91 / 91 % 91) as u8 + 33);
    out.push((val / 91 % 91) as u8 + 33);
    out.push((val % 91) as u8 + 33);
    out.push('}' as u8);
    assert(final(out)@ =~= old(out)@ + spec_encode_altitude(alt_m));
}

// ─── AprsMicE ────────────────────────────────────────────────────────────────
/// A decoded MIC-E (Mic Encoder) position report.
///
/// DTI bytes: `` ` `` (current), `'` (old/TM-D700), `\x1C` (old), `\x1D` (current)
///
/// MIC-E encodes latitude and message type in the AX.25 destination callsign,
/// and longitude/speed/course in the first 8 bytes of the information field.
#[derive(Debug, PartialEq, Eq)]
pub struct AprsMicE {
    pub latitude: Latitude,
    pub longitude: Longitude,
    pub precision: Precision,
    pub message: MicEMessage,
    pub speed: MicESpeed,
    pub course: MicECourse,
    pub symbol_code: char,
    pub symbol_table: char,
    /// Comment text (after manufacturer prefix and altitude have been stripped).
    pub comment: Vec<u8>,
    /// Whether this is "current" position (`true`) or "old" (`false`).
    pub is_current: bool,
    /// Altitude in metres above sea level, if encoded in the status field.
    pub altitude_m: Option<i32>,
    /// Decoded manufacturer/device info, if recognized.
    pub device: Option<MicEDevice>,
    /// Raw manufacturer prefix bytes (before altitude), preserved for round-trip.
    pub raw_mfg: Option<Vec<u8>>,
}

/// Mathematical model of [`AprsMicE`].
pub struct AprsMicEView {
    pub latitude: int,
    pub longitude: int,
    pub precision: Precision,
    pub message: MicEMessage,
    pub speed: MicESpeed,
    pub course: MicECourse,
    pub symbol_code: char,
    pub symbol_table: char,
    pub comment: Seq<u8>,
    pub is_current: bool,
    pub altitude_m: Option<i32>,
    pub device: Option<MicEDeviceView>,
    pub raw_mfg: Option<Seq<u8>>,
}

impl View for AprsMicE {
    type V = AprsMicEView;

    open spec fn view(&self) -> AprsMicEView {
        AprsMicEView {
            latitude: self.latitude@,
            longitude: self.longitude@,
            precision: self.precision,
            message: self.message,
            speed: self.speed,
            course: self.course,
            symbol_code: self.symbol_code,
            symbol_table: self.symbol_table,
            comment: self.comment@,
            is_current: self.is_current,
            altitude_m: self.altitude_m,
            device: match self.device {
                Some(d) => Some(d@),
                None => None,
            },
            raw_mfg: match self.raw_mfg {
                Some(m) => Some(m@),
                None => None,
            },
        }
    }
}

/// A MIC-E information field with the destination call `to`.
pub open spec fn spec_parse_mic_e(info: Seq<u8>, to: CallsignView) -> Result<
    AprsMicEView,
    AprsErrorView,
> {
    if info.len() == 0 {
        Err(AprsErrorView::EmptyPacket)
    } else {
        match spec_decode_dest(to.call) {
            None => Err(AprsErrorView::InvalidMicEDestination { raw: to.call }),
            Some((lat, prec, msg, off100, east)) => mic_e_body(info, lat, prec, msg, off100, east),
        }
    }
}

/// The report in a MIC-E information field, given what its destination holds.
#[verifier::opaque]
pub open spec fn mic_e_body(
    info: Seq<u8>,
    lat: int,
    prec: Precision,
    msg: MicEMessage,
    off100: bool,
    east: bool,
) -> Result<AprsMicEView, AprsErrorView> {
    let too_short = Err(AprsErrorView::MicETooShort { len: info.len() as usize });
    let b = info.subrange(1, info.len() as int);
    if b.len() < 8 {
        too_short
    } else {
        match (
            spec_decode_longitude(b.subrange(0, 3), off100, east),
            spec_decode_speed_course(b.subrange(3, 6)),
        ) {
            (Some(lon), Some((speed, course))) => {
                let (raw_mfg, alt, comment_raw) = spec_parse_rest(b.subrange(8, b.len() as int));
                let device = match raw_mfg {
                    Some(m) => spec_lookup_device(m),
                    None => None,
                };
                let (device, comment) = if device is None {
                    match spec_byonics_suffix(comment_raw) {
                        Some((d, t)) => (Some(d), t),
                        None => (device, comment_raw),
                    }
                } else {
                    (device, comment_raw)
                };
                Ok(
                    AprsMicEView {
                        latitude: lat,
                        longitude: lon,
                        precision: prec,
                        message: msg,
                        speed: MicESpeed(speed),
                        course: MicECourse(course),
                        symbol_code: b[6] as char,
                        symbol_table: b[7] as char,
                        comment,
                        is_current: info[0] == 96u8 || info[0] == 0x1Du8,
                        altitude_m: alt,
                        device,
                        raw_mfg,
                    },
                )
            },
            _ => too_short,
        }
    }
}

/// The information field of a MIC-E report.
/// Whether manufacturer bytes name the device of a report.
pub open spec fn device_named(m: AprsMicEView) -> bool {
    match m.raw_mfg {
        Some(x) => spec_lookup_device(x) is Some,
        None => false,
    }
}

/// What a written MIC-E comment is followed by: the Byonics suffix `|3` or
/// `|4` of a TinyTrak device that no manufacturer bytes name.
pub open spec fn byonics_tail(m: AprsMicEView) -> Seq<u8> {
    if device_named(m) {
        Seq::empty()
    } else if m.device == Some(dev("Byonics", "TinyTrak3")) {
        seq![124u8, 51u8]
    } else if m.device == Some(dev("Byonics", "TinyTrak4")) {
        seq![124u8, 52u8]
    } else {
        Seq::empty()
    }
}

pub open spec fn spec_encode_mic_e(m: AprsMicEView) -> Seq<u8> {
    seq![
        if m.is_current {
            96u8
        } else {
            39u8
        },
    ] + spec_encode_longitude(m.longitude) + spec_encode_speed_course(m.speed.0, m.course.0)
        + seq![m.symbol_code as u8, m.symbol_table as u8] + match m.raw_mfg {
        Some(x) => x,
        None => Seq::empty(),
    } + match m.altitude_m {
        Some(a) => spec_encode_altitude(a),
        None => Seq::empty(),
    } + m.comment + byonics_tail(m)
}

/// A destination byte for a latitude digit and a message bit.
pub open spec fn spec_dest_012(d: u8, bit: MsgBit) -> u8 {
    match (bit, d == 32u8) {
        (MsgBit::Zero, false) => d,
        (MsgBit::Zero, true) => 76u8,
        (MsgBit::Custom, false) => (d + 17) as u8,
        (MsgBit::Custom, true) => 75u8,
        (MsgBit::Standard, false) => (d + 32) as u8,
        (MsgBit::Standard, true) => 90u8,
    }
}

/// A destination byte for a latitude digit and a flag.
pub open spec fn spec_dest_flag(d: u8, flag: bool) -> u8 {
    match (flag, d == 32u8) {
        (true, false) => (d + 32) as u8,
        (true, true) => 90u8,
        (false, false) => d,
        (false, true) => 76u8,
    }
}

/// The six destination bytes for a MIC-E report.
pub open spec fn spec_dest_bytes(m: AprsMicEView) -> Seq<u8> {
    let l = spec_encode_lat_uncompressed(m.latitude, m.precision);
    let (lon_deg, _, _, east) = spec_dmh(m.longitude);
    let (a, b, c) = spec_message_to_bits(m.message);
    seq![
        spec_dest_012(l[0], a),
        spec_dest_012(l[1], b),
        spec_dest_012(l[2], c),
        spec_dest_flag(l[3], m.latitude >= 0),
        spec_dest_flag(l[5], lon_deg == 0 || lon_deg >= 100),
        spec_dest_flag(l[6], !east),
    ]
}

/// The destination callsign for a MIC-E report.
pub open spec fn spec_encode_destination(m: AprsMicEView) -> Result<CallsignView, AprsErrorView> {
    let bytes = spec_dest_bytes(m);
    if !valid_utf8(bytes) {
        Err(AprsErrorView::EncodeError { detail: "MIC-E destination is not ASCII" })
    } else {
        match spec_decode_callsign(bytes) {
            Ok(c) => Ok(c),
            Err(_) => Err(AprsErrorView::EncodeError { detail: "MIC-E destination invalid callsign" }),
        }
    }
}

/// Speed and course, and the latitude digits, that can be written.
pub open spec fn mic_e_encodable(m: AprsMicEView) -> bool {
    speed_course_encodable(m.speed.0, m.course.0)
}

fn dest_012(d: u8, bit: MsgBit) -> (r: u8)
    requires
        d <= 200,
    ensures
        r == spec_dest_012(d, bit),
{
    match (bit, d == ' ' as u8) {
        (MsgBit::Zero, false) => d,
        (MsgBit::Zero, true) => 'L' as u8,
        (MsgBit::Custom, false) => d + 17,
        (MsgBit::Custom, true) => 'K' as u8,
        (MsgBit::Standard, false) => d + 32,
        (MsgBit::Standard, true) => 'Z' as u8,
    }
}

fn dest_flag(d: u8, flag: bool) -> (r: u8)
    requires
        d <= 200,
    ensures
        r == spec_dest_flag(d, flag),
{
    match (flag, d == ' ' as u8) {
        (true, false) => d + 32,
        (true, true) => 'Z' as u8,
        (false, false) => d,
        (false, true) => 'L' as u8,
    }
}

impl AprsMicE {
    /// Decode from the information field (including the leading DTI byte) and
    /// the destination `Callsign` (which carries the latitude and message type).
    pub fn parse(info: &[u8], to: &Callsign) -> (r: Result<Self, AprsError>)
        ensures
            match (r, spec_parse_mic_e(info@, to@)) {
                (Ok(m), Ok(v)) => m@ == v,
                (Err(e), Err(v)) => e@ == v,
                _ => false,
            },
    {
        proof {
            reveal(mic_e_body);
        }
        if info.len() == 0 {
            return Err(AprsError::EmptyPacket);
        }
        let dti = info[0];
        let is_current = dti == '`' as u8 || dti == 0x1D;
        let dest = to.as_str().as_bytes();
        let (latitude, precision, message, lon_offset_100, lon_east) = match decode_dest(dest) {
            Some(x) => x,
            None => {
                let raw = copy_from(dest, 0);
                assert(raw@ =~= to@.call);
                return Err(AprsError::InvalidMicEDestination { raw });
            },
        };
        let b = vstd::slice::slice_subrange(info, 1, info.len());
        if b.len() < 8 {
            return Err(AprsError::MicETooShort { len: info.len() });
        }
        let longitude = match decode_longitude(
            vstd::slice::slice_subrange(b, 0, 3),
            lon_offset_100,
            lon_east,
        ) {
            Some(l) => l,
            None => {
                return Err(AprsError::MicETooShort { len: info.len() });
            },
        };
        let (speed, course) = match decode_speed_course(vstd::slice::slice_subrange(b, 3, 6)) {
            Some(x) => x,
            None => {
                return Err(AprsError::MicETooShort { len: info.len() });
            },
        };
        let symbol_code = b[6] as char;
        let symbol_table = b[7] as char;
        let rest = vstd::slice::slice_subrange(b, 8, b.len());
        let (raw_mfg, altitude_m, comment_raw) = parse_rest(rest);
        let device = match &raw_mfg {
            Some(m) => lookup_device(m.as_slice()),
            None => None,
        };
        let (device, comment) = if device.is_none() {
            match lookup_byonics_suffix(comment_raw) {
                Some((dev, trimmed)) => (Some(dev), copy_from(trimmed, 0)),
                None => (device, copy_from(comment_raw, 0)),
            }
        } else {
            (device, copy_from(comment_raw, 0))
        };
        let m = AprsMicE {
            latitude,
            longitude,
            precision,
            message,
            speed,
            course,
            symbol_code,
            symbol_table,
            comment,
            is_current,
            altitude_m,
            device,
            raw_mfg,
        };
        proof {
            let v = spec_parse_mic_e(info@, to@)->Ok_0;
            assert(m@.comment =~= v.comment);
        }
        Ok(m)
    }

    /// Encode to the information field bytes (starting with the DTI byte).
    pub fn encode(&self) -> (r: Vec<u8>)
        requires
            mic_e_encodable(self@),
        ensures
            r@ == spec_encode_mic_e(self@),
    {
        let mut out: Vec<u8> = Vec::new();
        out.push(
            if self.is_current {
                '`' as u8
            } else {
                '\'' as u8
            },
        );
        encode_longitude(self.longitude, &mut out);
        encode_speed_course(self.speed, self.course, &mut out);
        out.push(self.symbol_code as u8);
        out.push(self.symbol_table as u8);
        match &self.raw_mfg {
            Some(mfg) => extend(&mut out, mfg.as_slice()),
            None => {},
        }
        match self.altitude_m {
            Some(alt) => encode_altitude(alt, &mut out),
            None => {},
        }
        extend(&mut out, self.comment.as_slice());
        let named = match &self.raw_mfg {
            Some(x) => lookup_device(x.as_slice()).is_some(),
            None => false,
        };
        if !named {
            match &self.device {
                Some(d) => {
                    let t3 = make_device("Byonics", "TinyTrak3");
                    let t4 = make_device("Byonics", "TinyTrak4");
                    if d.manufacturer == t3.manufacturer && d.model == t3.model {
                        out.push('|' as u8);
                        out.push('3' as u8);
                    } else if d.manufacturer == t4.manufacturer && d.model == t4.model {
                        out.push('|' as u8);
                        out.push('4' as u8);
                    }
                },
                None => {},
            }
        }
        assert(out@ =~= spec_encode_mic_e(self@));
        out
    }

    /// Encode the destination callsign that carries the latitude + message bits.
    pub fn encode_destination(&self) -> (r: Result<Callsign, AprsError>)
        ensures
            match (r, spec_encode_destination(self@)) {
                (Ok(c), Ok(v)) => c@ == v,
                (Err(e), Err(v)) => e@ == v,
                _ => false,
            },
    {
        let mut lat_buf: Vec<u8> = Vec::new();
        self.latitude.encode_uncompressed(&mut lat_buf, self.precision);
        proof {
            crate::lonlat::lemma_encode_lat_digits(self.latitude@, self.precision);
        }
        if lat_buf.len() != 8 {
            return Err(AprsError::EncodeError { detail: "MIC-E latitude encode failed" });
        }
        let is_north = self.latitude.units() >= 0;
        let (lon_deg, _, _, is_east) = self.longitude.dmh();
        let lon_offset_100 = lon_deg == 0 || lon_deg >= 100;
        let (a, b, c) = self.message.to_bits();
        let bytes: [u8; 6] = [
            dest_012(lat_buf[0], a),
            dest_012(lat_buf[1], b),
            dest_012(lat_buf[2], c),
            dest_flag(lat_buf[3], is_north),
            dest_flag(lat_buf[5], lon_offset_100),
            dest_flag(lat_buf[6], !is_east),
        ];
        assert(bytes@ =~= spec_dest_bytes(self@));
        let s = match str_from_utf8(bytes.as_slice()) {
            Some(s) => s,
            None => {
                return Err(AprsError::EncodeError { detail: "MIC-E destination is not ASCII" });
            },
        };
        match Callsign::decode_textual(s.as_bytes()) {
            Ok(c) => Ok(c),
            Err(_) => Err(AprsError::EncodeError { detail: "MIC-E destination invalid callsign" }),
        }
    }
}

/// A longitude whose degrees the destination's longitude offset flag
/// selects the way the MIC-E encoder writes them (below 10° and from 100°
/// on with the flag), less than 180° from the meridian.
pub open spec fn lon_offset_canonical(u: int, offset_100: bool) -> bool {
    &&& -180 * UNITS_PER_DEGREE < u < 180 * UNITS_PER_DEGREE
    &&& offset_100 == (spec_dmh(u).0 <= 9 || spec_dmh(u).0 >= 100)
}

/// A decoded MIC-E longitude lies on the grid of hundredths of a minute.
proof fn lemma_decoded_lon_grid(b: Seq<u8>, offset_100: bool, is_east: bool) -> (r: (
    nat,
    nat,
    nat,
))
    requires
        b.len() >= 3,
        spec_decode_longitude(b, offset_100, is_east) is Some,
    ensures
        r.1 < 60,
        r.2 < 100,
        spec_decode_longitude(b, offset_100, is_east)->Some_0 == crate::lonlat::signed_units(
            r.0,
            r.1,
            r.2,
            !is_east,
        ),
{
    let d0 = b[0] - 28;
    let d1 = if offset_100 {
        d0 + 100
    } else {
        d0
    };
    let d = if 180 <= d1 <= 189 {
        d1 - 80
    } else if 190 <= d1 <= 199 {
        d1 - 190
    } else {
        d1
    };
    let m0 = b[1] - 28;
    let m = if m0 >= 60 {
        m0 - 60
    } else {
        m0
    };
    let h = b[2] - 28;
    let n = d * 6000 + m * 100 + h;
    let dd = n / 6000;
    let r = n % 6000;
    let mm = r / 100;
    let hh = r % 100;
    assert(n == dd * 6000 + r);
    assert(r == mm * 100 + hh);
    assert(crate::lonlat::dmh_units(dd as nat, mm as nat, hh as nat) == d * UNITS_PER_DEGREE + m
        * UNITS_PER_MINUTE + h * UNITS_PER_HUNDREDTH_MINUTE);
    (dd as nat, mm as nat, hh as nat)
}

/// A decoded MIC-E longitude whose offset flag is the encoder's, written
/// again, decodes to the same longitude.
pub proof fn lemma_mic_e_lon_round_trip(b: Seq<u8>, offset_100: bool, is_east: bool)
    requires
        b.len() >= 3,
        spec_decode_longitude(b, offset_100, is_east) is Some,
        lon_offset_canonical(spec_decode_longitude(b, offset_100, is_east)->Some_0, offset_100),
    ensures
        spec_decode_longitude(
            spec_encode_longitude(spec_decode_longitude(b, offset_100, is_east)->Some_0),
            offset_100,
            is_east,
        ) == spec_decode_longitude(b, offset_100, is_east),
        spec_encode_longitude(spec_decode_longitude(b, offset_100, is_east)->Some_0).len() == 3,
{
    let u = spec_decode_longitude(b, offset_100, is_east)->Some_0;
    let (dd, mm, hh) = lemma_decoded_lon_grid(b, offset_100, is_east);
    crate::lonlat::lemma_dmh_grid(dd, mm, hh, !is_east);
    assert(dd * UNITS_PER_DEGREE <= crate::lonlat::dmh_units(dd, mm, hh));
    assert(dd < 180);
    let e = spec_encode_longitude(u);
    assert(e.len() == 3);
}

/// A decoded speed below 800 knots and course below 600°, written again,
/// decode to the same speed and course.
pub proof fn lemma_speed_course_round_trip(b: Seq<u8>)
    requires
        b.len() >= 3,
        spec_decode_speed_course(b) is Some,
        spec_decode_speed_course(b)->Some_0.0 < 800,
        spec_decode_speed_course(b)->Some_0.1 < 600,
    ensures
        ({
            let (s, c) = spec_decode_speed_course(b)->Some_0;
            &&& speed_course_encodable(s, c)
            &&& spec_encode_speed_course(s, c).len() == 3
            &&& spec_decode_speed_course(spec_encode_speed_course(s, c)) == Some((s, c))
        }),
{
    let (s, c) = spec_decode_speed_course(b)->Some_0;
    let e = spec_encode_speed_course(s, c);
    let tens = (s / 10) % 256;
    assert(tens == s / 10);
    let dc = (s % 10) * 10 + (c / 100) % 256 + 4;
    assert((c / 100) % 256 == c / 100);
    assert(dc / 10 == s % 10);
    assert(dc % 10 == c / 100 + 4);
}

/// The speed/course bytes written for a speed below 800 knots and a course
/// below 400° decode to that speed and course.
pub proof fn lemma_speed_course_encode(s: u32, c: u32)
    requires
        s < 800,
        c < 400,
    ensures
        speed_course_encodable(s, c),
        spec_encode_speed_course(s, c).len() == 3,
        spec_decode_speed_course(spec_encode_speed_course(s, c)) == Some((s, c)),
{
    let e = spec_encode_speed_course(s, c);
    let tens = (s / 10) % 256;
    assert(tens == s / 10);
    let dc = (s % 10) * 10 + (c / 100) % 256 + 4;
    assert((c / 100) % 256 == c / 100);
    assert(dc / 10 == s % 10);
    assert(dc % 10 == c / 100 + 4);
}

/// The altitude written in three base-91 digits and `}` reads back, when it
/// is below the largest that three digits hold.
proof fn lemma_altitude_round_trip(a: i32, mfg: Seq<u8>, comment: Seq<u8>)
    requires
        -10000 <= a,
        a + 10000 < 91 * 91 * 91,
        forall|i: int| 0 <= i < mfg.len() ==> mfg[i] != 125u8,
    ensures
        spec_parse_rest(mfg + spec_encode_altitude(a) + comment) == (
            if mfg.len() == 0 {
                None
            } else {
                Some(mfg)
            },
            Some(a),
            comment,
        ),
{
    let x = mfg + spec_encode_altitude(a) + comment;
    let ea = spec_encode_altitude(a);
    let val = a + 10000;
    let q1 = val / 91;
    let q2 = q1 / 91;
    vstd::arithmetic::div_mod::lemma_div_denominator(val as int, 91, 91);
    assert(q2 < 91) by {
        vstd::arithmetic::div_mod::lemma_div_denominator(val as int, 8281int, 91);
    }
    assert(ea[0] == (q2 % 91 + 33) as u8);
    assert(ea[1] == (q1 % 91 + 33) as u8);
    assert(ea[2] == (val % 91 + 33) as u8);
    assert(ea[3] == 125u8);
    let k: int = mfg.len() as int + 3;
    assert forall|i: int| 0 <= i < k implies x[i] != 125u8 by {
        if i < mfg.len() {
            assert(x[i] == mfg[i]);
        } else {
            assert(x[i] == ea[i - mfg.len()]);
        }
    }
    assert(x[k] == 125u8);
    lemma_index_of_at(x, 125u8, k as int);
    assert(x.subrange(0, k - 3) =~= mfg);
    assert(x.subrange(k + 1, x.len() as int) =~= comment);
    assert(val == q1 * 91 + val % 91);
    assert(q1 == q2 * 91 + q1 % 91);
}

/// A decoded MIC-E report that its written form carries back unchanged:
/// a longitude whose offset flag in the destination is the encoder's, a
/// speed below 800 knots, a course below 600°, and an altitude that three
/// base-91 digits hold.
pub open spec fn mic_e_exact(m: AprsMicEView, to: CallsignView) -> bool {
    &&& spec_decode_dest(to.call) matches Some((_, _, _, off100, _)) && lon_offset_canonical(
        m.longitude,
        off100,
    )
    &&& m.speed.0 < 800
    &&& m.course.0 < 600
    &&& m.altitude_m matches Some(a) ==> a + 10000 < 91 * 91 * 91
}

/// What follows the fixed bytes of a decoded MIC-E report, written again,
/// reads back the same.
proof fn lemma_rest_round_trip(rest: Seq<u8>)
    requires
        spec_parse_rest(rest).1 matches Some(a) ==> a + 10000 < 91 * 91 * 91,
    ensures
        ({
            let (mfg, alt, comment) = spec_parse_rest(rest);
            spec_parse_rest(
                match mfg {
                    Some(x) => x,
                    None => Seq::empty(),
                } + match alt {
                    Some(a) => spec_encode_altitude(a),
                    None => Seq::empty(),
                } + comment,
            ) == spec_parse_rest(rest)
        }),
{
    let (mfg, alt, comment) = spec_parse_rest(rest);
    lemma_index_of(rest, 125u8);
    match alt {
        Some(a) => {
            let idx = index_of(rest, 125u8);
            let mb = rest.subrange(0, idx - 3);
            assert forall|i: int| 0 <= i < mb.len() implies mb[i] != 125u8 by {
                assert(mb[i] == rest[i]);
            }
            let v = (digit91(rest[idx - 3]) * 91 + digit91(rest[idx - 2])) * 91 + digit91(
                rest[idx - 1],
            );
            assert(v >= 0) by (nonlinear_arith)
                requires
                    digit91(rest[idx - 3]) >= 0,
                    digit91(rest[idx - 2]) >= 0,
                    digit91(rest[idx - 1]) >= 0,
                    v == (digit91(rest[idx - 3]) * 91 + digit91(rest[idx - 2])) * 91 + digit91(
                        rest[idx - 1],
                    ),
            ;
            assert(v - 10000 < 91 * 91 * 91 - 10000);
            lemma_altitude_round_trip(a, mb, comment);
            assert(match mfg {
                Some(x) => x,
                None => Seq::<u8>::empty(),
            } =~= mb);
        },
        None => {
            assert(Seq::<u8>::empty() + Seq::<u8>::empty() + comment =~= rest);
        },
    }
}

/// What a decoded MIC-E information field is read from.
proof fn lemma_mic_e_body_parts(
    info: Seq<u8>,
    lat: int,
    prec: Precision,
    msg: MicEMessage,
    off100: bool,
    east: bool,
)
    requires
        info.len() > 0,
        mic_e_body(info, lat, prec, msg, off100, east) is Ok,
    ensures
        ({
            let m = mic_e_body(info, lat, prec, msg, off100, east)->Ok_0;
            let b = info.subrange(1, info.len() as int);
            let (raw_mfg, alt, comment_raw) = spec_parse_rest(b.subrange(8, b.len() as int));
            &&& b.len() >= 8
            &&& info.len() >= 9
            &&& spec_decode_longitude(b.subrange(0, 3), off100, east) == Some(m.longitude)
            &&& spec_decode_speed_course(b.subrange(3, 6)) == Some((m.speed.0, m.course.0))
            &&& m.symbol_code == b[6] as char
            &&& m.symbol_table == b[7] as char
            &&& m.is_current == (info[0] == 96u8 || info[0] == 0x1Du8)
            &&& m.raw_mfg == raw_mfg
            &&& m.altitude_m == alt
            &&& m.comment + byonics_tail(m) == comment_raw
        }),
{
    reveal(mic_e_body);
    reveal_strlit("TinyTrak3");
    reveal_strlit("TinyTrak4");
    let m = mic_e_body(info, lat, prec, msg, off100, east)->Ok_0;
    let b = info.subrange(1, info.len() as int);
    let (raw_mfg, alt, comment_raw) = spec_parse_rest(b.subrange(8, b.len() as int));
    if !device_named(m) {
        match spec_byonics_suffix(comment_raw) {
            Some((d, t)) => {
                assert("TinyTrak3"@[8] != "TinyTrak4"@[8]);
                assert(dev("Byonics", "TinyTrak3") != dev("Byonics", "TinyTrak4"));
                if ends_with(comment_raw, seq![124u8, 51u8]) {
                    assert(comment_raw.subrange(comment_raw.len() - 2, comment_raw.len() as int)
                        =~= seq![124u8, 51u8]);
                } else {
                    assert(comment_raw.subrange(comment_raw.len() - 2, comment_raw.len() as int)
                        =~= seq![124u8, 52u8]);
                }
                assert(m.comment + byonics_tail(m) =~= comment_raw);
            },
            None => {
                assert(m.comment + byonics_tail(m) =~= comment_raw);
            },
        }
    } else {
        assert(m.comment + byonics_tail(m) =~= comment_raw);
    }
}

/// The report of a MIC-E field depends only on what it is read from.
proof fn lemma_mic_e_body_same(
    i1: Seq<u8>,
    i2: Seq<u8>,
    lat: int,
    prec: Precision,
    msg: MicEMessage,
    off100: bool,
    east: bool,
)
    requires
        mic_e_body(i1, lat, prec, msg, off100, east) is Ok,
        i1.len() >= 9,
        i2.len() >= 9,
        spec_decode_longitude(i2.subrange(1, 4), off100, east) == spec_decode_longitude(
            i1.subrange(1, 4),
            off100,
            east,
        ),
        spec_decode_speed_course(i2.subrange(4, 7)) == spec_decode_speed_course(i1.subrange(4, 7)),
        i2[7] == i1[7],
        i2[8] == i1[8],
        (i2[0] == 96u8 || i2[0] == 0x1Du8) == (i1[0] == 96u8 || i1[0] == 0x1Du8),
        spec_parse_rest(i2.subrange(9, i2.len() as int)) == spec_parse_rest(
            i1.subrange(9, i1.len() as int),
        ),
    ensures
        mic_e_body(i2, lat, prec, msg, off100, east) == mic_e_body(i1, lat, prec, msg, off100, east),
{
    reveal(mic_e_body);
    let b1 = i1.subrange(1, i1.len() as int);
    let b2 = i2.subrange(1, i2.len() as int);
    assert(b1.subrange(0, 3) =~= i1.subrange(1, 4));
    assert(b2.subrange(0, 3) =~= i2.subrange(1, 4));
    assert(b1.subrange(3, 6) =~= i1.subrange(4, 7));
    assert(b2.subrange(3, 6) =~= i2.subrange(4, 7));
    assert(b1.subrange(8, b1.len() as int) =~= i1.subrange(9, i1.len() as int));
    assert(b2.subrange(8, b2.len() as int) =~= i2.subrange(9, i2.len() as int));
}

/// The bytes of a written MIC-E field, part by part.
proof fn lemma_mic_e_encode_parts(m: AprsMicEView)
    ensures
        ({
            let e = spec_encode_mic_e(m);
            let tail = match m.raw_mfg {
                Some(x) => x,
                None => Seq::empty(),
            } + match m.altitude_m {
                Some(a) => spec_encode_altitude(a),
                None => Seq::empty(),
            } + (m.comment + byonics_tail(m));
            &&& e.len() >= 9
            &&& e[0] == (if m.is_current {
                96u8
            } else {
                39u8
            })
            &&& e.subrange(1, 4) == spec_encode_longitude(m.longitude)
            &&& e.subrange(4, 7) == spec_encode_speed_course(m.speed.0, m.course.0)
            &&& e[7] == m.symbol_code as u8
            &&& e[8] == m.symbol_table as u8
            &&& e.subrange(9, e.len() as int) == tail
        }),
{
    let e = spec_encode_mic_e(m);
    let el = spec_encode_longitude(m.longitude);
    let es = spec_encode_speed_course(m.speed.0, m.course.0);
    let tail = match m.raw_mfg {
        Some(x) => x,
        None => Seq::empty(),
    } + match m.altitude_m {
        Some(a) => spec_encode_altitude(a),
        None => Seq::empty(),
    } + (m.comment + byonics_tail(m));
    let d: u8 = if m.is_current {
        96u8
    } else {
        39u8
    };
    assert(e =~= seq![d] + el + es + seq![m.symbol_code as u8, m.symbol_table as u8] + tail);
    assert(e.subrange(1, 4) =~= el);
    assert(e.subrange(4, 7) =~= es);
    assert(e.subrange(9, e.len() as int) =~= tail);
}

/// A decoded MIC-E report that its written form carries back unchanged
/// decodes back from that form with the same destination.
pub proof fn lemma_mic_e_round_trip(info: Seq<u8>, to: CallsignView)
    requires
        spec_parse_mic_e(info, to) is Ok,
        mic_e_exact(spec_parse_mic_e(info, to)->Ok_0, to),
    ensures
        spec_parse_mic_e(spec_encode_mic_e(spec_parse_mic_e(info, to)->Ok_0), to) == spec_parse_mic_e(
            info,
            to,
        ),
        spec_encode_mic_e(spec_parse_mic_e(info, to)->Ok_0)[0] == 96u8 || spec_encode_mic_e(
            spec_parse_mic_e(info, to)->Ok_0,
        )[0] == 39u8,
{
    let m = spec_parse_mic_e(info, to)->Ok_0;
    let (lat, prec, msg, off100, east) = spec_decode_dest(to.call)->Some_0;
    assert(spec_parse_mic_e(info, to) == mic_e_body(info, lat, prec, msg, off100, east));
    lemma_mic_e_body_parts(info, lat, prec, msg, off100, east);
    let b = info.subrange(1, info.len() as int);
    lemma_mic_e_lon_round_trip(b.subrange(0, 3), off100, east);
    lemma_speed_course_round_trip(b.subrange(3, 6));
    let rest = b.subrange(8, b.len() as int);
    lemma_rest_round_trip(rest);
    lemma_mic_e_encode_parts(m);
    let e = spec_encode_mic_e(m);
    assert(info.subrange(1, 4) =~= b.subrange(0, 3));
    assert(info.subrange(4, 7) =~= b.subrange(3, 6));
    assert(info.subrange(9, info.len() as int) =~= rest);
    assert(info[7] == b[6] && info[8] == b[7]);
    lemma_mic_e_body_same(info, e, lat, prec, msg, off100, east);
    assert(spec_parse_mic_e(e, to) == mic_e_body(e, lat, prec, msg, off100, east));
}

impl Clone for MicEDevice {
    fn clone(&self) -> (r: Self)
        ensures
            r@ == self@,
    {
        MicEDevice { manufacturer: self.manufacturer.clone(), model: self.model.clone() }
    }
}

impl Clone for AprsMicE {
    fn clone(&self) -> (r: Self)
        ensures
            r@ == self@,
    {
        AprsMicE {
            latitude: self.latitude,
            longitude: self.longitude,
            precision: self.precision,
            message: self.message,
            speed: self.speed,
            course: self.course,
            symbol_code: self.symbol_code,
            symbol_table: self.symbol_table,
            comment: crate::util::copy_vec(&self.comment),
            is_current: self.is_current,
            altitude_m: self.altitude_m,
            device: match &self.device {
                Some(d) => Some(d.clone()),
                None => None,
            },
            raw_mfg: crate::util::copy_opt_vec(&self.raw_mfg),
        }
    }
}


/// A MIC-E report that decodes still decodes with bytes appended.
pub proof fn lemma_mic_e_extend(info: Seq<u8>, to: CallsignView, t: Seq<u8>)
    requires
        spec_parse_mic_e(info, to) is Ok,
    ensures
        spec_parse_mic_e(info + t, to) is Ok,
{
    reveal(mic_e_body);
    let c = info + t;
    let b = info.subrange(1, info.len() as int);
    let b2 = c.subrange(1, c.len() as int);
    assert(b2.subrange(0, 3) =~= b.subrange(0, 3));
    assert(b2.subrange(3, 6) =~= b.subrange(3, 6));
}

} // verus!
