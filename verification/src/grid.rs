//! Maidenhead grid locator reports (DTI `[`).
use crate::error::{AprsError, AprsErrorView};
use crate::lonlat::{lat_ok, lon_ok, Latitude, Longitude, UNITS_PER_DEGREE};
use crate::status::after_dti;
use crate::util::{
    alpha, copy_from, copy_range, digit, extend, find_byte, index_of, is_alpha, is_digit,
    is_upper, lemma_index_of, lowercase, to_lower, upper,
};
use vstd::prelude::*;

verus! {

/// An APRS Maidenhead Grid Locator report.
///
/// DTI: `[`
///
/// Format: `[GGGG]` or `[GGGGSS]` where GGGG is a 4-char grid square
/// (2 uppercase letters + 2 digits) and SS is an optional 2-char subsquare
/// (2 letters, case-insensitive). The comment follows the closing `]`.
#[derive(Debug, PartialEq, Eq)]
pub struct AprsGridLocator {
    /// Grid locator: 4 or 6 characters (e.g. `IO91` or `IO91SX`).
    pub grid: Vec<u8>,
    pub comment: Vec<u8>,
}

/// Mathematical model of [`AprsGridLocator`].
pub struct AprsGridLocatorView {
    pub grid: Seq<u8>,
    pub comment: Seq<u8>,
}

impl View for AprsGridLocator {
    type V = AprsGridLocatorView;

    open spec fn view(&self) -> AprsGridLocatorView {
        AprsGridLocatorView { grid: self.grid@, comment: self.comment@ }
    }
}

/// A well-formed locator: two uppercase letters, two digits, and optionally
/// two more letters of either case.
pub open spec fn grid_ok(g: Seq<u8>) -> bool {
    &&& (g.len() == 4 || g.len() == 6)
    &&& is_upper(g[0]) && is_upper(g[1]) && is_digit(g[2]) && is_digit(g[3])
    &&& g.len() == 6 ==> is_alpha(g[4]) && is_alpha(g[5])
}

/// A grid information field `[GGGG]comment`.
pub open spec fn spec_parse_grid(info: Seq<u8>) -> Result<AprsGridLocatorView, AprsErrorView> {
    let body = after_dti(info);
    let end = index_of(body, 93u8);
    if end < 0 || !grid_ok(body.subrange(0, end)) {
        Err(AprsErrorView::UnsupportedPositionFormat)
    } else {
        Ok(
            AprsGridLocatorView {
                grid: body.subrange(0, end),
                comment: body.subrange(end + 1, body.len() as int),
            },
        )
    }
}

/// The wire form of a grid report.
pub open spec fn spec_encode_grid(g: AprsGridLocatorView) -> Seq<u8> {
    seq![91u8] + g.grid + seq![93u8] + g.comment
}

/// Bytes from which the centre of the cell can be computed.
pub open spec fn grid_computable(g: Seq<u8>) -> bool {
    g.len() >= 4 ==> {
        &&& g[0] >= 65 && g[1] >= 65 && g[2] >= 48 && g[3] >= 48
        &&& g.len() >= 6 ==> to_lower(g[4]) >= 97 && to_lower(g[5]) >= 97
    }
}

/// Centre of the locator's cell, in coordinate units: (latitude, longitude).
pub open spec fn grid_centre(g: Seq<u8>) -> (int, int) {
    let upd = UNITS_PER_DEGREE as int;
    let fl = g[0] - 65;
    let fa = g[1] - 65;
    let sl = g[2] - 48;
    let sa = g[3] - 48;
    if g.len() >= 6 {
        let ssl = to_lower(g[4]) - 97;
        let ssa = to_lower(g[5]) - 97;
        (
            fa * 10 * upd + sa * upd + ssa * (upd / 24) + upd / 48 - 90 * upd,
            fl * 20 * upd + sl * 2 * upd + ssl * (upd / 12) + upd / 24 - 180 * upd,
        )
    } else {
        (fa * 10 * upd + sa * upd + upd / 2 - 90 * upd, fl * 20 * upd + sl * 2 * upd + upd - 180
            * upd)
    }
}

impl AprsGridLocator {
    /// Decode from the information field (including the leading `[` DTI byte).
    pub fn parse(info: &[u8]) -> (r: Result<Self, AprsError>)
        ensures
            match (r, spec_parse_grid(info@)) {
                (Ok(g), Ok(v)) => g@ == v,
                (Err(e), Err(v)) => e@ == v,
                _ => false,
            },
    {
        let body = if info.len() >= 1 {
            vstd::slice::slice_subrange(info, 1, info.len())
        } else {
            vstd::slice::slice_subrange(info, 0, 0)
        };
        assert(body@ =~= after_dti(info@));
        proof {
            lemma_index_of(body@, 93u8);
        }
        let end = match find_byte(body, ']' as u8) {
            Some(e) => e,
            None => {
                return Err(AprsError::UnsupportedPositionFormat);
            },
        };
        let grid = copy_range(body, 0, end);
        if grid.len() != 4 && grid.len() != 6 {
            return Err(AprsError::UnsupportedPositionFormat);
        }
        if !upper(grid[0]) || !upper(grid[1]) || !digit(grid[2]) || !digit(grid[3]) {
            return Err(AprsError::UnsupportedPositionFormat);
        }
        if grid.len() == 6 && (!alpha(grid[4]) || !alpha(grid[5])) {
            return Err(AprsError::UnsupportedPositionFormat);
        }
        let comment = copy_from(body, end + 1);
        Ok(AprsGridLocator { grid, comment })
    }

    /// Convert the Maidenhead grid square to lat/lon (center of the cell);
    /// `None` for a locator shorter than four bytes or a centre out of range.
    pub fn to_position(&self) -> (r: Option<(Latitude, Longitude)>)
        requires
            grid_computable(self.grid@),
        ensures
            self.grid@.len() < 4 ==> r is None,
            self.grid@.len() >= 4 ==> match r {
                Some((lat, lon)) => lat@ == grid_centre(self.grid@).0 && lon@ == grid_centre(
                    self.grid@,
                ).1,
                None => !lat_ok(grid_centre(self.grid@).0) || !lon_ok(grid_centre(self.grid@).1),
            },
    {
        if self.grid.len() < 4 {
            return None;
        }
        let upd = UNITS_PER_DEGREE;
        let fl = (self.grid[0] - 65) as i64;
        let fa = (self.grid[1] - 65) as i64;
        let sl = (self.grid[2] - 48) as i64;
        let sa = (self.grid[3] - 48) as i64;
        let (lat, lon) = if self.grid.len() >= 6 {
            let ssl = (lowercase(self.grid[4]) - 97) as i64;
            let ssa = (lowercase(self.grid[5]) - 97) as i64;
            (
                fa * 10 * upd + sa * upd + ssa * (upd / 24) + upd / 48 - 90 * upd,
                fl * 20 * upd + sl * 2 * upd + ssl * (upd / 12) + upd / 24 - 180 * upd,
            )
        } else {
            (fa * 10 * upd + sa * upd + upd / 2 - 90 * upd, fl * 20 * upd + sl * 2 * upd + upd
                - 180 * upd)
        };
        let la = match Latitude::from_units(lat) {
            Some(x) => x,
            None => {
                return None;
            },
        };
        let lo = match Longitude::from_units(lon) {
            Some(x) => x,
            None => {
                return None;
            },
        };
        Some((la, lo))
    }

    pub fn encode(&self) -> (r: Vec<u8>)
        ensures
            r@ == spec_encode_grid(self@),
    {
        let mut out: Vec<u8> = Vec::new();
        out.push('[' as u8);
        extend(&mut out, self.grid.as_slice());
        out.push(']' as u8);
        extend(&mut out, self.comment.as_slice());
        assert(out@ =~= spec_encode_grid(self@));
        out
    }
}

/// Encoding a decoded grid report gives back the bytes it was decoded from,
/// the leading `[` included.
pub proof fn lemma_grid_round_trip(info: Seq<u8>)
    requires
        spec_parse_grid(info) is Ok,
    ensures
        spec_encode_grid(spec_parse_grid(info)->Ok_0) == seq![91u8] + after_dti(info),
{
    let body = after_dti(info);
    lemma_index_of(body, 93u8);
    let end = index_of(body, 93u8);
    assert(body =~= body.subrange(0, end) + seq![93u8] + body.subrange(end + 1, body.len() as int));
}

impl Clone for AprsGridLocator {
    fn clone(&self) -> (r: Self)
        ensures
            r@ == self@,
    {
        AprsGridLocator { grid: crate::util::copy_vec(&self.grid), comment: crate::util::copy_vec(&self.comment) }
    }
}


/// A grid report that decodes still decodes with bytes appended.
pub proof fn lemma_grid_extend(info: Seq<u8>, t: Seq<u8>)
    requires
        spec_parse_grid(info) is Ok,
    ensures
        spec_parse_grid(info + t) is Ok,
{
    let c = info + t;
    let body = after_dti(info);
    assert(after_dti(c) =~= body + t);
    lemma_index_of(body, 93u8);
    let end = index_of(body, 93u8);
    assert forall|j: int| 0 <= j < end implies (body + t)[j] != 93u8 by {
        assert((body + t)[j] == body[j]);
    }
    assert((body + t)[end] == body[end]);
    crate::util::lemma_index_of_at(body + t, 93u8, end);
    assert((body + t).subrange(0, end) =~= body.subrange(0, end));
}

} // verus!
