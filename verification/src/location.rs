//! A whole position field: coordinates, symbol, and what the comment after
//! it refines (DAO precision, `/A=` altitude).
use crate::compressed::{
    cs_encodable, spec_encode_cs, spec_parse_cs, Altitude, CompressedCs,
};
use crate::error::{AprsError, AprsErrorView};
use crate::lonlat::{
    lat_ok, lon_ok, spec_encode_lat_compressed, spec_encode_lat_uncompressed,
    spec_encode_lon_compressed, spec_encode_lon_uncompressed, spec_parse_lat_compressed,
    spec_parse_lat_uncompressed, spec_parse_lon_compressed, spec_parse_lon_uncompressed, Latitude,
    lemma_lat_round_trip, lemma_lon_round_trip, lemma_lat_compressed_round_trip,
    lemma_lon_compressed_round_trip, refine, grid_floor, grid_floor_exec, lemma_lat_grid_floor,
    lemma_lon_grid_floor,
    Longitude, Precision, UNITS_PER_HUNDREDTH_MINUTE, UNITS_PER_MINUTE,
};
use crate::symbol::Symbol;
use crate::text::str_from_utf8;
use crate::util::{
    digit, find_seq, find_seq_exec, is_digit, is_lower, is_upper, leading_digits,
    leading_digits_exec, lemma_find_seq_from, lower, parse_unsigned, spec_parse_unsigned, upper,
};
use vstd::prelude::*;
use vstd::utf8::valid_utf8;

verus! {

/// Coordinate units of one thousandth of a minute (a human-readable DAO digit).
pub const UNITS_PER_DAO_DIGIT: i64 = 190_463;

/// Coordinate units of 1/91 of a hundredth of a minute (a base-91 DAO step).
pub const UNITS_PER_DAO_BASE91_STEP: i64 = 20_930;

/// DAO (Datum Ambiguity Override) precision extension parsed from the comment field.
///
/// When present, DAO provides sub-hundredth-of-a-minute precision beyond what the
/// standard DDmm.mm format can encode. The offsets are applied to lat/lon at parse
/// time so callers always receive refined coordinates.
#[derive(Debug, Copy, Clone, PartialEq, Eq, Structural)]
pub enum Dao {
    /// Human-readable form `!WXY!`: X and Y are decimal digits 0–9 encoding an extra
    /// digit of minute resolution (thousandths of a minute ≈ 1.85 m).
    HumanReadable { lat_digit: u8, lon_digit: u8 },
    /// Base-91 form `!wxy!`: two base-91 characters encoding the sub-hundredth position
    /// within the current cell (≈ 0.2 m resolution).
    Base91 { lat_offset: u8, lon_offset: u8 },
}

/// The DAO token that starts at `data[i]`, if one does.
pub open spec fn dao_at(data: Seq<u8>, i: int) -> Option<Dao> {
    if 0 <= i && i + 4 < data.len() && data[i] == 33u8 && data[i + 4] == 33u8 {
        let (prefix, d1, d2) = (data[i + 1], data[i + 2], data[i + 3]);
        if is_upper(prefix) && is_digit(d1) && is_digit(d2) {
            Some(Dao::HumanReadable { lat_digit: (d1 - 48) as u8, lon_digit: (d2 - 48) as u8 })
        } else if is_lower(prefix) && 0x21 <= d1 <= 0x7B && 0x21 <= d2 <= 0x7B {
            Some(Dao::Base91 { lat_offset: (d1 - 33) as u8, lon_offset: (d2 - 33) as u8 })
        } else {
            None
        }
    } else {
        None
    }
}

/// The first DAO token of `data` starting at or after `i`.
pub open spec fn find_dao_from(data: Seq<u8>, i: int) -> Option<Dao>
    decreases data.len() - i,
{
    if i < 0 || i + 4 >= data.len() {
        None
    } else {
        match dao_at(data, i) {
            Some(d) => Some(d),
            None => find_dao_from(data, i + 1),
        }
    }
}

/// The first DAO token in a comment.
pub open spec fn spec_find_dao(data: Seq<u8>) -> Option<Dao> {
    find_dao_from(data, 0)
}

/// Latitude and longitude refinements of a DAO token, in coordinate units.
pub open spec fn spec_dao_offsets(d: Dao) -> (int, int) {
    match d {
        Dao::HumanReadable { lat_digit, lon_digit } => (
            lat_digit * UNITS_PER_DAO_DIGIT,
            lon_digit * UNITS_PER_DAO_DIGIT,
        ),
        Dao::Base91 { lat_offset, lon_offset } => (
            lat_offset * UNITS_PER_DAO_BASE91_STEP,
            lon_offset * UNITS_PER_DAO_BASE91_STEP,
        ),
    }
}

impl Dao {
    /// Latitude and longitude adjustments in coordinate units that refine the
    /// base position. These are always non-negative; the caller applies them in
    /// the direction of the base coordinate's sign.
    pub fn offsets_units(&self) -> (r: (i64, i64))
        ensures
            (r.0 as int, r.1 as int) == spec_dao_offsets(*self),
    {
        match *self {
            Dao::HumanReadable { lat_digit, lon_digit } => (
                lat_digit as i64 * UNITS_PER_DAO_DIGIT,
                lon_digit as i64 * UNITS_PER_DAO_DIGIT,
            ),
            Dao::Base91 { lat_offset, lon_offset } => (
                lat_offset as i64 * UNITS_PER_DAO_BASE91_STEP,
                lon_offset as i64 * UNITS_PER_DAO_BASE91_STEP,
            ),
        }
    }

    fn at(data: &[u8], i: usize) -> (r: Option<Self>)
        requires
            i + 4 < data@.len(),
        ensures
            r == dao_at(data@, i as int),
    {
        if data[i] == '!' as u8 && data[i + 4] == '!' as u8 {
            let prefix = data[i + 1];
            let d1 = data[i + 2];
            let d2 = data[i + 3];
            if upper(prefix) && digit(d1) && digit(d2) {
                return Some(Dao::HumanReadable { lat_digit: d1 - 48, lon_digit: d2 - 48 });
            }
            if lower(prefix) && 0x21 <= d1 && d1 <= 0x7B && 0x21 <= d2 && d2 <= 0x7B {
                return Some(Dao::Base91 { lat_offset: d1 - 33, lon_offset: d2 - 33 });
            }
        }
        None
    }

    /// Scan `data` for the `!X__!` DAO pattern and return the first match.
    pub fn find_in_comment(data: &[u8]) -> (r: Option<Self>)
        ensures
            r == spec_find_dao(data@),
    {
        if data.len() < 5 {
            return None;
        }
        let last = data.len() - 5;
        let mut i: usize = 0;
        loop
            invariant
                i <= last,
                last + 5 == data@.len(),
                spec_find_dao(data@) == find_dao_from(data@, i as int),
            decreases last - i,
        {
            let d = Dao::at(data, i);
            if d.is_some() {
                return d;
            }
            if i == last {
                assert(find_dao_from(data@, i + 1) is None);
                return None;
            }
            i = i + 1;
        }
    }
}

/// `/A=` as bytes.
pub open spec fn altitude_marker() -> Seq<u8> {
    seq![47u8, 65u8, 61u8]
}

/// The altitude written as `/A=NNNNNN` in a comment: the comment must be
/// valid UTF-8, and the digits right after the first `/A=` must form a `u32`.
pub open spec fn spec_altitude_in_comment(data: Seq<u8>) -> Option<Altitude> {
    let k = find_seq(data, altitude_marker());
    if !valid_utf8(data) || k < 0 {
        None
    } else {
        let rest = data.subrange(k + 3, data.len() as int);
        let digits = rest.subrange(0, leading_digits(rest) as int);
        match spec_parse_unsigned(digits, 0xffff_ffff) {
            Some(v) => Some(Altitude::Feet(v as u32)),
            None => None,
        }
    }
}

/// Extract `/A=NNNNNN` altitude from a comment field.
pub fn altitude_in_comment(data: &[u8]) -> (r: Option<Altitude>)
    ensures
        r == spec_altitude_in_comment(data@),
{
    let s = str_from_utf8(data);
    if s.is_none() {
        return None;
    }
    let marker: [u8; 3] = ['/' as u8, 'A' as u8, '=' as u8];
    let m = marker.as_slice();
    assert(m@ =~= altitude_marker());
    let start = match find_seq_exec(data, m) {
        Some(k) => k,
        None => {
            return None;
        },
    };
    proof {
        lemma_find_seq_from(data@, altitude_marker(), 0);
        assert(find_seq(data@, altitude_marker()) == start as int);
        assert(crate::util::matches_at(data@, altitude_marker(), start as int));
    }
    assert(start + 3 <= data.len());
    let rest = vstd::slice::slice_subrange(data, start + 3, data.len());
    let end = leading_digits_exec(rest);
    proof {
        crate::util::lemma_leading_digits(rest@);
    }
    let digits = vstd::slice::slice_subrange(rest, 0, end);
    match parse_unsigned(digits, 0xffff_ffff) {
        Some(v) => Some(Altitude::Feet(v as u32)),
        None => None,
    }
}

/// A parsed APRS position, combining coordinates, symbol, and optional metadata.
///
/// DAO offsets (when present) are applied to `latitude` and `longitude` at parse
/// time — callers receive the most precise available value directly.
#[derive(Debug, Copy, Clone, PartialEq, Eq, Structural)]
pub struct Position {
    pub latitude: Latitude,
    pub longitude: Longitude,
    pub precision: Precision,
    pub symbol: Symbol,
    /// The compressed csT block, or `None` for uncompressed positions.
    pub compressed_cs: Option<CompressedCs>,
    /// Altitude from `/A=NNNNNN` in the comment field, or from a compressed
    /// csT block that carries one.
    pub altitude: Option<Altitude>,
    /// The raw DAO token, kept for round-trip fidelity.
    pub dao: Option<Dao>,
}

/// Mathematical model of [`Position`]: coordinates in units.
pub struct PositionView {
    pub latitude: int,
    pub longitude: int,
    pub precision: Precision,
    pub symbol: Symbol,
    pub compressed_cs: Option<CompressedCs>,
    pub altitude: Option<Altitude>,
    pub dao: Option<Dao>,
}

impl View for Position {
    type V = PositionView;

    open spec fn view(&self) -> PositionView {
        PositionView {
            latitude: self.latitude@,
            longitude: self.longitude@,
            precision: self.precision,
            symbol: self.symbol,
            compressed_cs: self.compressed_cs,
            altitude: self.altitude,
            dao: self.dao,
        }
    }
}

/// The symbol whose table and code are the bytes `t` and `c`.
pub open spec fn byte_symbol(t: u8, c: u8) -> Symbol {
    Symbol { table: t as char, code: c as char }
}

/// An uncompressed position `DDmm.mmN/DDDmm.mmW-` and what its comment adds:
/// the number of bytes it spans (always 19) and the position.
pub open spec fn spec_parse_position_uncompressed(b: Seq<u8>) -> Result<
    (nat, PositionView),
    AprsErrorView,
> {
    if b.len() < 19 {
        Err(AprsErrorView::TruncatedPacket { expected: 19, got: b.len() as usize })
    } else {
        match spec_parse_lat_uncompressed(b.subrange(0, 8)) {
            Err(e) => Err(e),
            Ok((lat, p)) => match spec_parse_lon_uncompressed(b.subrange(9, 18), p) {
                Err(e) => Err(e),
                Ok(lon) => {
                    let comment = b.subrange(19, b.len() as int);
                    let dao = spec_find_dao(comment);
                    let (lat2, lon2) = match dao {
                        Some(d) => {
                            let (dlat, dlon) = spec_dao_offsets(d);
                            (
                                if lat_ok(refine(lat, dlat)) {
                                    refine(lat, dlat)
                                } else {
                                    lat
                                },
                                if lon_ok(refine(lon, dlon)) {
                                    refine(lon, dlon)
                                } else {
                                    lon
                                },
                            )
                        },
                        None => (lat, lon),
                    };
                    Ok(
                        (
                            19,
                            PositionView {
                                latitude: lat2,
                                longitude: lon2,
                                precision: p,
                                symbol: byte_symbol(b[8], b[18]),
                                compressed_cs: None,
                                altitude: spec_altitude_in_comment(comment),
                                dao,
                            },
                        ),
                    )
                },
            },
        }
    }
}

/// A compressed position `/YYYYXXXX$csT`: the number of bytes it spans
/// (always 13) and the position.
pub open spec fn spec_parse_position_compressed(b: Seq<u8>) -> Result<
    (nat, PositionView),
    AprsErrorView,
> {
    if b.len() < 13 {
        Err(AprsErrorView::TruncatedPacket { expected: 13, got: b.len() as usize })
    } else {
        match spec_parse_lat_compressed(b.subrange(1, 5)) {
            Err(e) => Err(e),
            Ok(lat) => match spec_parse_lon_compressed(b.subrange(5, 9)) {
                Err(e) => Err(e),
                Ok(lon) => match spec_parse_cs(b[10], b[11], b[12]) {
                    Err(e) => Err(e),
                    Ok(cs) => Ok(
                        (
                            13,
                            PositionView {
                                latitude: lat,
                                longitude: lon,
                                precision: Precision::HundredthMinute,
                                symbol: byte_symbol(b[0], b[9]),
                                compressed_cs: Some(cs),
                                altitude: match cs {
                                    CompressedCs::Altitude(a, _) => Some(Altitude::Compressed(a)),
                                    _ => None,
                                },
                                dao: None,
                            },
                        ),
                    ),
                },
            },
        }
    }
}

/// A position of either form at the head of `b`: a leading digit selects the
/// uncompressed form.
pub open spec fn spec_parse_position(b: Seq<u8>) -> Result<(nat, PositionView), AprsErrorView> {
    if b.len() == 0 {
        Err(AprsErrorView::UnsupportedPositionFormat)
    } else if is_digit(b[0]) {
        spec_parse_position_uncompressed(b)
    } else {
        spec_parse_position_compressed(b)
    }
}

/// The coordinate written for a position: when a DAO token refines the
/// position, the base on the grid of hundredths of a minute that the token
/// refines (the coordinate truncated toward zero); otherwise the coordinate.
pub open spec fn written_coordinate(u: int, dao: Option<Dao>) -> int {
    if dao is Some {
        grid_floor(u)
    } else {
        u
    }
}

/// The 19 bytes of an uncompressed position.
pub open spec fn spec_encode_position_uncompressed(p: PositionView) -> Seq<u8> {
    spec_encode_lat_uncompressed(written_coordinate(p.latitude, p.dao), p.precision) + seq![
        p.symbol.table as u8,
    ] + spec_encode_lon_uncompressed(written_coordinate(p.longitude, p.dao)) + seq![
        p.symbol.code as u8,
    ]
}

/// The 13 bytes of a compressed position; a missing csT block is written as
/// ` sT`.
pub open spec fn spec_encode_position_compressed(p: PositionView) -> Seq<u8> {
    seq![p.symbol.table as u8] + spec_encode_lat_compressed(p.latitude)
        + spec_encode_lon_compressed(p.longitude) + seq![p.symbol.code as u8] + match p.compressed_cs {
        Some(cs) => spec_encode_cs(cs),
        None => seq![32u8, 115u8, 84u8],
    }
}

/// A csT block, if any, that can be written.
pub open spec fn position_cs_encodable(p: PositionView) -> bool {
    p.compressed_cs matches Some(cs) ==> cs_encodable(cs)
}

fn byte_at(b: &[u8], i: usize) -> (r: char)
    requires
        i < b@.len(),
    ensures
        r == b@[i as int] as char,
{
    b[i] as char
}

fn refine_exec(u: i64, delta: i64) -> (r: i64)
    requires
        -200 * crate::lonlat::UNITS_PER_DEGREE <= u <= 200 * crate::lonlat::UNITS_PER_DEGREE,
        0 <= delta <= UNITS_PER_MINUTE,
    ensures
        r == refine(u as int, delta as int),
{
    if u >= 0 {
        u + delta
    } else {
        u - delta
    }
}

impl Position {
    /// The latitude cell that the precision leaves open: (south edge, north
    /// edge) in coordinate units.
    pub fn latitude_bounding(&self) -> (r: (i64, i64))
        ensures
            r == self.precision.spec_range(self.latitude@),
    {
        self.precision.range(self.latitude.units())
    }

    /// The longitude cell that the precision leaves open: (west edge, east
    /// edge) in coordinate units.
    pub fn longitude_bounding(&self) -> (r: (i64, i64))
        ensures
            r == self.precision.spec_range(self.longitude@),
    {
        self.precision.range(self.longitude.units())
    }

    /// Parse either a compressed or uncompressed position from the head of `b`.
    ///
    /// Returns `(remaining, position)` where `remaining` is the slice following the
    /// parsed position bytes (i.e. the comment field).
    pub fn parse(b: &[u8]) -> (r: Result<(Option<&[u8]>, Self), AprsError>)
        ensures
            match (r, spec_parse_position(b@)) {
                (Ok((rem, p)), Ok((n, v))) => p@ == v && n <= b@.len() && (rem matches Some(s)
                    && s@ == b@.subrange(n as int, b@.len() as int)),
                (Err(e), Err(v)) => e@ == v,
                _ => false,
            },
    {
        if b.len() == 0 {
            return Err(AprsError::UnsupportedPositionFormat);
        }
        if digit(b[0]) {
            Self::parse_uncompressed(b)
        } else {
            Self::parse_compressed(b)
        }
    }

    fn parse_uncompressed(b: &[u8]) -> (r: Result<(Option<&[u8]>, Self), AprsError>)
        ensures
            match (r, spec_parse_position_uncompressed(b@)) {
                (Ok((rem, p)), Ok((n, v))) => p@ == v && n <= b@.len() && (rem matches Some(s)
                    && s@ == b@.subrange(n as int, b@.len() as int)),
                (Err(e), Err(v)) => e@ == v,
                _ => false,
            },
    {
        if b.len() < 19 {
            return Err(AprsError::TruncatedPacket { expected: 19, got: b.len() });
        }
        let (lat, precision) = match Latitude::parse_uncompressed(
            vstd::slice::slice_subrange(b, 0, 8),
        ) {
            Ok(x) => x,
            Err(e) => {
                return Err(e);
            },
        };
        let lon = match Longitude::parse_uncompressed(
            vstd::slice::slice_subrange(b, 9, 18),
            precision,
        ) {
            Ok(x) => x,
            Err(e) => {
                return Err(e);
            },
        };
        let symbol = Symbol::new(byte_at(b, 8), byte_at(b, 18));
        let comment = vstd::slice::slice_subrange(b, 19, b.len());
        let altitude = altitude_in_comment(comment);
        let dao = Dao::find_in_comment(comment);
        let (lat2, lon2) = match dao {
            Some(d) => {
                let (dlat, dlon) = d.offsets_units();
                let lat_u = lat.units();
                let lon_u = lon.units();
                let nl = match Latitude::from_units(refine_exec(lat_u, dlat)) {
                    Some(x) => x,
                    None => lat,
                };
                let nn = match Longitude::from_units(refine_exec(lon_u, dlon)) {
                    Some(x) => x,
                    None => lon,
                };
                (nl, nn)
            },
            None => (lat, lon),
        };
        Ok(
            (
                Some(comment),
                Position {
                    latitude: lat2,
                    longitude: lon2,
                    precision,
                    symbol,
                    compressed_cs: None,
                    altitude,
                    dao,
                },
            ),
        )
    }

    fn parse_compressed(b: &[u8]) -> (r: Result<(Option<&[u8]>, Self), AprsError>)
        ensures
            match (r, spec_parse_position_compressed(b@)) {
                (Ok((rem, p)), Ok((n, v))) => p@ == v && n <= b@.len() && (rem matches Some(s)
                    && s@ == b@.subrange(n as int, b@.len() as int)),
                (Err(e), Err(v)) => e@ == v,
                _ => false,
            },
    {
        if b.len() < 13 {
            return Err(AprsError::TruncatedPacket { expected: 13, got: b.len() });
        }
        let symbol = Symbol::new(byte_at(b, 0), byte_at(b, 9));
        let lat = match Latitude::parse_compressed(vstd::slice::slice_subrange(b, 1, 5)) {
            Ok(x) => x,
            Err(e) => {
                return Err(e);
            },
        };
        let lon = match Longitude::parse_compressed(vstd::slice::slice_subrange(b, 5, 9)) {
            Ok(x) => x,
            Err(e) => {
                return Err(e);
            },
        };
        let cst = match CompressedCs::parse(b[10], b[11], b[12]) {
            Ok(x) => x,
            Err(e) => {
                return Err(e);
            },
        };
        let altitude = match cst {
            CompressedCs::Altitude(a, _) => Some(Altitude::Compressed(a)),
            _ => None,
        };
        Ok(
            (
                Some(vstd::slice::slice_subrange(b, 13, b.len())),
                Position {
                    latitude: lat,
                    longitude: lon,
                    precision: Precision::HundredthMinute,
                    symbol,
                    compressed_cs: Some(cst),
                    altitude,
                    dao: None,
                },
            ),
        )
    }

    /// Encode as uncompressed position bytes (19 bytes: lat + sym_table + lon + sym_code).
    pub fn encode_uncompressed(&self, out: &mut Vec<u8>)
        ensures
            final(out)@ == old(out)@ + spec_encode_position_uncompressed(self@),
    {
        let (lat, lon) = if self.dao.is_some() {
            let lat = match Latitude::from_units(grid_floor_exec(self.latitude.units())) {
                Some(l) => l,
                None => self.latitude,
            };
            let lon = match Longitude::from_units(grid_floor_exec(self.longitude.units())) {
                Some(l) => l,
                None => self.longitude,
            };
            (lat, lon)
        } else {
            (self.latitude, self.longitude)
        };
        assert(lat@ == written_coordinate(self.latitude@, self.dao));
        assert(lon@ == written_coordinate(self.longitude@, self.dao));
        lat.encode_uncompressed(out, self.precision);
        out.push(self.symbol.table as u8);
        lon.encode_uncompressed(out);
        out.push(self.symbol.code as u8);
        assert(final(out)@ =~= old(out)@ + spec_encode_position_uncompressed(self@));
    }

    /// Encode as compressed position bytes (13 bytes: sym_table + lat(4) + lon(4) + sym_code + csT(3)).
    pub fn encode_compressed(&self, out: &mut Vec<u8>)
        requires
            position_cs_encodable(self@),
        ensures
            final(out)@ == old(out)@ + spec_encode_position_compressed(self@),
    {
        out.push(self.symbol.table as u8);
        self.latitude.encode_compressed(out);
        self.longitude.encode_compressed(out);
        out.push(self.symbol.code as u8);
        match self.compressed_cs {
            Some(cst) => cst.encode(out),
            None => {
                out.push(' ' as u8);
                out.push('s' as u8);
                out.push('T' as u8);
            },
        }
        assert(final(out)@ =~= old(out)@ + spec_encode_position_compressed(self@));
    }
}

/// The written form of a position: compressed when it has a csT block.
pub open spec fn spec_encode_position(p: PositionView) -> Seq<u8> {
    if p.compressed_cs is Some {
        spec_encode_position_compressed(p)
    } else {
        spec_encode_position_uncompressed(p)
    }
}

/// A DAO token found in a comment refines each coordinate by less than a
/// hundredth of a minute.
proof fn lemma_find_dao_small(data: Seq<u8>, i: int)
    ensures
        find_dao_from(data, i) matches Some(d) ==> 0 <= spec_dao_offsets(d).0
            < UNITS_PER_HUNDREDTH_MINUTE && 0 <= spec_dao_offsets(d).1
            < UNITS_PER_HUNDREDTH_MINUTE,
    decreases data.len() - i,
{
    if !(i < 0 || i + 4 >= data.len()) && dao_at(data, i) is None {
        lemma_find_dao_small(data, i + 1);
    }
}

proof fn lemma_uncompressed_round_trip(b: Seq<u8>)
    requires
        spec_parse_position_uncompressed(b) is Ok,
    ensures
        ({
            let (n, pos) = spec_parse_position_uncompressed(b)->Ok_0;
            let e = spec_encode_position_uncompressed(pos);
            &&& n == 19
            &&& e.len() == 19
            &&& is_digit(e[0])
            &&& spec_parse_position_uncompressed(e + b.subrange(19, b.len() as int)) == Ok::<
                (nat, PositionView),
                AprsErrorView,
            >((n, pos))
        }),
{
    let (n, pos) = spec_parse_position_uncompressed(b)->Ok_0;
    let (lat, p) = spec_parse_lat_uncompressed(b.subrange(0, 8))->Ok_0;
    let lon = spec_parse_lon_uncompressed(b.subrange(9, 18), p)->Ok_0;
    let comment = b.subrange(19, b.len() as int);
    lemma_find_dao_small(comment, 0);
    let (elat, elon) = match spec_find_dao(comment) {
        Some(d) => {
            let (dlat, dlon) = spec_dao_offsets(d);
            (
                if lat_ok(refine(lat, dlat)) {
                    dlat
                } else {
                    0
                },
                if lon_ok(refine(lon, dlon)) {
                    dlon
                } else {
                    0
                },
            )
        },
        None => (0, 0),
    };
    assert(pos.latitude == refine(lat, elat));
    assert(pos.longitude == refine(lon, elon));
    lemma_lat_grid_floor(b.subrange(0, 8), lat, p, elat);
    lemma_lon_grid_floor(b.subrange(9, 18), p, lon, elon);
    assert(written_coordinate(pos.latitude, pos.dao) == lat);
    assert(written_coordinate(pos.longitude, pos.dao) == lon);
    lemma_lat_round_trip(b.subrange(0, 8), lat, p);
    lemma_lon_round_trip(b.subrange(9, 18), p, lon);
    let el = spec_encode_lat_uncompressed(lat, p);
    let eo = spec_encode_lon_uncompressed(lon);
    let e = spec_encode_position_uncompressed(pos);
    let x = e + comment;
    assert(x.subrange(0, 8) =~= el);
    assert(x.subrange(9, 18) =~= eo);
    assert(x.subrange(19, x.len() as int) =~= comment);
    assert(x[8] == b[8]);
    assert(x[18] == b[18]);
}

proof fn lemma_compressed_round_trip(b: Seq<u8>)
    requires
        spec_parse_position_compressed(b) is Ok,
        position_cs_encodable(spec_parse_position_compressed(b)->Ok_0.1),
    ensures
        ({
            let (n, pos) = spec_parse_position_compressed(b)->Ok_0;
            let e = spec_encode_position_compressed(pos);
            &&& n == 13
            &&& e.len() == 13
            &&& e[0] == b[0]
            &&& spec_parse_position_compressed(e + b.subrange(13, b.len() as int)) == Ok::<
                (nat, PositionView),
                AprsErrorView,
            >((n, pos))
        }),
{
    let (n, pos) = spec_parse_position_compressed(b)->Ok_0;
    let lat = spec_parse_lat_compressed(b.subrange(1, 5))->Ok_0;
    let lon = spec_parse_lon_compressed(b.subrange(5, 9))->Ok_0;
    lemma_lat_compressed_round_trip(b.subrange(1, 5), lat);
    lemma_lon_compressed_round_trip(b.subrange(5, 9), lon);
    crate::compressed::lemma_cs_round_trip(b[10], b[11], b[12]);
    let comment = b.subrange(13, b.len() as int);
    let e = spec_encode_position_compressed(pos);
    let ec = spec_encode_cs(pos.compressed_cs->Some_0);
    let x = e + comment;
    assert(x.subrange(1, 5) =~= spec_encode_lat_compressed(lat));
    assert(x.subrange(5, 9) =~= spec_encode_lon_compressed(lon));
    assert(x[10] == ec[0] && x[11] == ec[1] && x[12] == ec[2]);
    assert(x[0] == b[0]);
    assert(x[9] == b[9]);
}

/// A decoded position whose csT block (if any) can be written is written
/// back in its own form; decoding that form, with the
/// same bytes after it, gives the same position.
pub proof fn lemma_position_round_trip(b: Seq<u8>)
    requires
        spec_parse_position(b) is Ok,
        position_cs_encodable(spec_parse_position(b)->Ok_0.1),
    ensures
        ({
            let (n, pos) = spec_parse_position(b)->Ok_0;
            let e = spec_encode_position(pos);
            &&& n == e.len()
            &&& n <= b.len()
            &&& spec_parse_position(e + b.subrange(n as int, b.len() as int)) == Ok::<
                (nat, PositionView),
                AprsErrorView,
            >((n, pos))
        }),
{
    if is_digit(b[0]) {
        lemma_uncompressed_round_trip(b);
        let e = spec_encode_position_uncompressed(spec_parse_position(b)->Ok_0.1);
        assert((e + b.subrange(19, b.len() as int))[0] == e[0]);
    } else {
        lemma_compressed_round_trip(b);
        let e = spec_encode_position_compressed(spec_parse_position(b)->Ok_0.1);
        assert((e + b.subrange(13, b.len() as int))[0] == e[0]);
    }
}


/// A position that decodes still decodes with bytes appended: only its fixed
/// bytes decide whether it decodes.
pub proof fn lemma_position_extend(b: Seq<u8>, t: Seq<u8>)
    requires
        spec_parse_position(b) is Ok,
    ensures
        spec_parse_position(b + t) is Ok,
        spec_parse_position(b + t)->Ok_0.0 == spec_parse_position(b)->Ok_0.0,
{
    let c = b + t;
    assert(c[0] == b[0]);
    if is_digit(b[0]) {
        assert(c.subrange(0, 8) =~= b.subrange(0, 8));
        assert(c.subrange(9, 18) =~= b.subrange(9, 18));
    } else {
        assert(c.subrange(1, 5) =~= b.subrange(1, 5));
        assert(c.subrange(5, 9) =~= b.subrange(5, 9));
        assert(c[10] == b[10] && c[11] == b[11] && c[12] == b[12]);
    }
}

} // verus!
