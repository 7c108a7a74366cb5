//! Position reports (DTI `!`, `=`, `/`, `@`).
use crate::error::{AprsError, AprsErrorView};
use crate::extensions::{spec_parse_extension, Extension};
use crate::location::{
    lemma_position_round_trip, position_cs_encodable, spec_encode_position,
    spec_encode_position_compressed, spec_encode_position_uncompressed, spec_parse_position,
    Position, PositionView,
};
use crate::numtext::{extract_frequency_mhz, spec_extract_frequency};
use crate::timestamp::{
    lemma_timestamp_round_trip, spec_encode_timestamp, spec_parse_timestamp, Timestamp,
    TimestampView,
};
use crate::util::{copy_from, extend};
use crate::weather::{spec_parse_weather, AprsWeatherData};
use vstd::prelude::*;

verus! {

/// A decoded APRS position report.
///
/// Covers DTI bytes `!` `=` `/` `@`:
/// - `!` = no timestamp, messaging not supported
/// - `=` = no timestamp, messaging supported
/// - `/` = timestamp present, messaging not supported
/// - `@` = timestamp present, messaging supported
#[derive(Debug, PartialEq, Eq)]
pub struct AprsPosition {
    pub timestamp: Option<Timestamp>,
    pub messaging_supported: bool,
    pub position: Position,
    /// Data extension (course/speed, PHG, RNG, DFS) if one was found in the comment.
    pub extension: Option<Extension>,
    /// Weather data, populated when the symbol is `/_` (weather station).
    pub weather: Option<AprsWeatherData>,
    /// Frequency in MHz (as its number text) from the start of the comment, if present.
    /// The raw comment is preserved in full for round-trip fidelity.
    pub frequency_mhz: Option<Vec<u8>>,
    pub comment: Vec<u8>,
}

/// Mathematical model of [`AprsPosition`].
pub struct AprsPositionView {
    pub timestamp: Option<TimestampView>,
    pub messaging_supported: bool,
    pub position: PositionView,
    pub extension: Option<Extension>,
    pub weather: Option<AprsWeatherData>,
    pub frequency_mhz: Option<Seq<u8>>,
    pub comment: Seq<u8>,
}

impl View for AprsPosition {
    type V = AprsPositionView;

    open spec fn view(&self) -> AprsPositionView {
        AprsPositionView {
            timestamp: match self.timestamp {
                Some(t) => Some(t@),
                None => None,
            },
            messaging_supported: self.messaging_supported,
            position: self.position@,
            extension: self.extension,
            weather: self.weather,
            frequency_mhz: match self.frequency_mhz {
                Some(f) => Some(f@),
                None => None,
            },
            comment: self.comment@,
        }
    }
}

/// The report that follows the timestamp (if any): position, then the
/// comment with what it holds.
#[verifier::opaque]
pub open spec fn spec_position_body(
    b: Seq<u8>,
    timestamp: Option<TimestampView>,
    messaging: bool,
) -> Result<AprsPositionView, AprsErrorView> {
    match spec_parse_position(b) {
        Err(e) => Err(e),
        Ok((n, pos)) => {
            let comment = b.subrange(n as int, b.len() as int);
            Ok(
                AprsPositionView {
                    timestamp,
                    messaging_supported: messaging,
                    position: pos,
                    extension: spec_parse_extension(comment),
                    weather: if pos.symbol.table == '/' && pos.symbol.code == '_' {
                        match spec_parse_weather(comment) {
                            Ok(w) => Some(w),
                            Err(_) => None,
                        }
                    } else {
                        None
                    },
                    frequency_mhz: spec_extract_frequency(comment),
                    comment,
                },
            )
        },
    }
}

/// A position report information field.
pub open spec fn spec_parse_position_report(info: Seq<u8>) -> Result<
    AprsPositionView,
    AprsErrorView,
> {
    if info.len() == 0 {
        Err(AprsErrorView::EmptyPacket)
    } else {
        let dti = info[0];
        let messaging = dti == 61u8 || dti == 64u8;
        if dti == 64u8 || dti == 47u8 {
            if info.len() < 8 {
                Err(AprsErrorView::TruncatedPacket { expected: 8, got: info.len() as usize })
            } else {
                match spec_parse_timestamp(info.subrange(1, 8)) {
                    Err(e) => Err(e),
                    Ok(ts) => spec_position_body(
                        info.subrange(8, info.len() as int),
                        Some(ts),
                        messaging,
                    ),
                }
            }
        } else {
            spec_position_body(info.subrange(1, info.len() as int), None, messaging)
        }
    }
}

/// The type byte of a position report says what it carries: `=` and `@`
/// mark a station that supports messaging, `!` and `/` one that does not;
/// `/` and `@` put a timestamp before the position, `!` and `=` none.
pub proof fn lemma_position_dti_flags(info: Seq<u8>)
    requires
        spec_parse_position_report(info) is Ok,
        info.len() > 0,
        info[0] == 33u8 || info[0] == 61u8 || info[0] == 47u8 || info[0] == 64u8,
    ensures
        spec_parse_position_report(info)->Ok_0.messaging_supported <==> (info[0] == 61u8
            || info[0] == 64u8),
        spec_parse_position_report(info)->Ok_0.timestamp is Some <==> (info[0] == 47u8 || info[0]
            == 64u8),
{
    reveal(spec_position_body);
}

/// The information field of a position report.
pub open spec fn spec_encode_position_report(p: AprsPositionView) -> Seq<u8> {
    seq![
        match (p.timestamp is Some, p.messaging_supported) {
            (true, true) => 64u8,
            (true, false) => 47u8,
            (false, true) => 61u8,
            (false, false) => 33u8,
        },
    ] + match p.timestamp {
        Some(t) => spec_encode_timestamp(t),
        None => Seq::empty(),
    } + if p.position.compressed_cs is Some {
        spec_encode_position_compressed(p.position)
    } else {
        spec_encode_position_uncompressed(p.position)
    } + p.comment
}

fn position_body(b: &[u8], timestamp: Option<Timestamp>, messaging: bool) -> (r: Result<
    AprsPosition,
    AprsError,
>)
    ensures
        match (
            r,
            spec_position_body(
                b@,
                match timestamp {
                    Some(t) => Some(t@),
                    None => None,
                },
                messaging,
            ),
        ) {
            (Ok(p), Ok(v)) => p@ == v,
            (Err(e), Err(v)) => e@ == v,
            _ => false,
        },
{
    proof {
        reveal(spec_position_body);
    }
    let (remaining, position) = match Position::parse(b) {
        Ok(x) => x,
        Err(e) => {
            return Err(e);
        },
    };
    let comment = match remaining {
        Some(r) => copy_from(r, 0),
        None => Vec::new(),
    };
    let extension = Extension::parse(comment.as_slice());
    let weather = if position.symbol.table == '/' && position.symbol.code == '_' {
        match AprsWeatherData::parse(comment.as_slice()) {
            Ok(w) => Some(w),
            Err(_) => None,
        }
    } else {
        None
    };
    let frequency_mhz = extract_frequency_mhz(comment.as_slice());
    let p = AprsPosition {
        timestamp,
        messaging_supported: messaging,
        position,
        extension,
        weather,
        frequency_mhz,
        comment,
    };
    proof {
        let v = spec_position_body(b@, p@.timestamp, messaging)->Ok_0;
        assert(p@.comment =~= v.comment);
    }
    Ok(p)
}

impl AprsPosition {
    /// Decode the information field of a position report (including the leading DTI byte).
    pub fn parse(info: &[u8]) -> (r: Result<Self, AprsError>)
        ensures
            match (r, spec_parse_position_report(info@)) {
                (Ok(p), Ok(v)) => p@ == v,
                (Err(e), Err(v)) => e@ == v,
                _ => false,
            },
    {
        if info.len() == 0 {
            return Err(AprsError::EmptyPacket);
        }
        let dti = info[0];
        let messaging = dti == '=' as u8 || dti == '@' as u8;
        if dti == '@' as u8 || dti == '/' as u8 {
            if info.len() < 8 {
                return Err(AprsError::TruncatedPacket { expected: 8, got: info.len() });
            }
            let ts = match Timestamp::parse(vstd::slice::slice_subrange(info, 1, 8)) {
                Ok(t) => t,
                Err(e) => {
                    return Err(e);
                },
            };
            position_body(vstd::slice::slice_subrange(info, 8, info.len()), Some(ts), messaging)
        } else {
            position_body(vstd::slice::slice_subrange(info, 1, info.len()), None, messaging)
        }
    }

    /// Encode this position report back to its information-field wire bytes.
    pub fn encode(&self) -> (r: Vec<u8>)
        requires
            position_cs_encodable(self.position@),
        ensures
            r@ == spec_encode_position_report(self@),
    {
        let mut out: Vec<u8> = Vec::new();
        let dti: u8 = match (self.timestamp.is_some(), self.messaging_supported) {
            (true, true) => '@' as u8,
            (true, false) => '/' as u8,
            (false, true) => '=' as u8,
            (false, false) => '!' as u8,
        };
        out.push(dti);
        match &self.timestamp {
            Some(ts) => ts.encode(&mut out),
            None => {},
        }
        if self.position.compressed_cs.is_some() {
            self.position.encode_compressed(&mut out);
        } else {
            self.position.encode_uncompressed(&mut out);
        }
        extend(&mut out, self.comment.as_slice());
        assert(out@ =~= spec_encode_position_report(self@));
        out
    }
}

/// The report read from a position depends only on the position and the
/// bytes after it.
proof fn lemma_position_body_same(
    b1: Seq<u8>,
    b2: Seq<u8>,
    ts: Option<TimestampView>,
    messaging: bool,
)
    requires
        spec_parse_position(b1) is Ok,
        spec_parse_position(b1) == spec_parse_position(b2),
        b1.subrange(spec_parse_position(b1)->Ok_0.0 as int, b1.len() as int) == b2.subrange(
            spec_parse_position(b2)->Ok_0.0 as int,
            b2.len() as int,
        ),
    ensures
        spec_position_body(b1, ts, messaging) == spec_position_body(b2, ts, messaging),
{
    reveal(spec_position_body);
}

/// What a position report that decodes holds beside its position.
proof fn lemma_position_body_ok(b: Seq<u8>, ts: Option<TimestampView>, messaging: bool)
    requires
        spec_position_body(b, ts, messaging) is Ok,
    ensures
        spec_parse_position(b) is Ok,
        spec_position_body(b, ts, messaging)->Ok_0.position == spec_parse_position(b)->Ok_0.1,
        spec_position_body(b, ts, messaging)->Ok_0.timestamp == ts,
        spec_position_body(b, ts, messaging)->Ok_0.messaging_supported == messaging,
        spec_position_body(b, ts, messaging)->Ok_0.comment == b.subrange(
            spec_parse_position(b)->Ok_0.0 as int,
            b.len() as int,
        ),
{
    reveal(spec_position_body);
}

/// A decoded position report whose csT block (if any) can be written decodes back from its written form, which
/// starts with the same byte.
pub proof fn lemma_position_report_round_trip(info: Seq<u8>)
    requires
        info.len() > 0,
        info[0] == 33u8 || info[0] == 61u8 || info[0] == 47u8 || info[0] == 64u8,
        spec_parse_position_report(info) is Ok,
        position_cs_encodable(spec_parse_position_report(info)->Ok_0.position),
    ensures
        ({
            let r = spec_parse_position_report(info)->Ok_0;
            let e = spec_encode_position_report(r);
            &&& spec_parse_position_report(e) == Ok::<AprsPositionView, AprsErrorView>(r)
            &&& e.len() > 0
            &&& e[0] == info[0]
        }),
{
    let r = spec_parse_position_report(info)->Ok_0;
    let e = spec_encode_position_report(r);
    let has_ts = info[0] == 64u8 || info[0] == 47u8;
    let b = if has_ts {
        info.subrange(8, info.len() as int)
    } else {
        info.subrange(1, info.len() as int)
    };
    let ts = if has_ts {
        Some(spec_parse_timestamp(info.subrange(1, 8))->Ok_0)
    } else {
        None
    };
    let messaging = info[0] == 61u8 || info[0] == 64u8;
    assert(spec_parse_position_report(info) == spec_position_body(b, ts, messaging));
    lemma_position_body_ok(b, ts, messaging);
    let (n, pos) = spec_parse_position(b)->Ok_0;
    lemma_position_round_trip(b);
    let ep = spec_encode_position(pos);
    let comment = b.subrange(n as int, b.len() as int);
    assert(ep == if r.position.compressed_cs is Some {
        spec_encode_position_compressed(r.position)
    } else {
        spec_encode_position_uncompressed(r.position)
    });
    let body = ep + comment;
    assert((body).subrange(n as int, body.len() as int) =~= comment);
    lemma_position_body_same(b, body, ts, messaging);
    if has_ts {
        let ts = spec_parse_timestamp(info.subrange(1, 8))->Ok_0;
        lemma_timestamp_round_trip(info.subrange(1, 8));
        let et = spec_encode_timestamp(ts);
        assert(et.len() == 7);
        assert(e =~= seq![info[0]] + et + body);
        assert(e.subrange(1, 8) =~= et);
        assert(e.subrange(8, e.len() as int) =~= body);
    } else {
        assert(e =~= seq![info[0]] + body);
        assert(e.subrange(1, e.len() as int) =~= body);
    }
}

impl Clone for AprsPosition {
    fn clone(&self) -> (r: Self)
        ensures
            r@ == self@,
    {
        AprsPosition {
            timestamp: match &self.timestamp {
                Some(t) => Some(t.clone()),
                None => None,
            },
            messaging_supported: self.messaging_supported,
            position: self.position,
            extension: self.extension,
            weather: self.weather,
            frequency_mhz: crate::util::copy_opt_vec(&self.frequency_mhz),
            comment: crate::util::copy_vec(&self.comment),
        }
    }
}


/// A position report that decodes still decodes with bytes appended.
pub proof fn lemma_position_report_extend(info: Seq<u8>, t: Seq<u8>)
    requires
        spec_parse_position_report(info) is Ok,
    ensures
        spec_parse_position_report(info + t) is Ok,
{
    reveal(spec_position_body);
    let c = info + t;
    assert(c[0] == info[0]);
    let k: int = if info[0] == 64u8 || info[0] == 47u8 {
        assert(c.subrange(1, 8) =~= info.subrange(1, 8));
        8
    } else {
        1
    };
    assert(c.subrange(k, c.len() as int) =~= info.subrange(k, info.len() as int) + t);
    crate::location::lemma_position_extend(info.subrange(k, info.len() as int), t);
}

} // verus!
