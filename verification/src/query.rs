//! General queries (DTI `?`).
use crate::numtext::{
    float_field, float_field_text, lemma_float_field_trim, lemma_float_syntax_bytes, number_byte,
    trim_ws,
};
use crate::status::after_dti;
use crate::telemetry::{
    first_field, lemma_skip_cons, nth_field, nth_field_exec, skip_fields, skip_fields_exec,
};
use crate::util::{
    copy_from, copy_range, extend, find_byte, index_of, lacks, lemma_index_of, lemma_index_of_at,
};
use vstd::prelude::*;

verus! {

/// An APRS General Query packet.
///
/// DTI: `?`
///
/// Format: `?TYPE?` or `?TYPE?lat,lon,radius` (with optional geographic footprint).
///
/// Common query types: `APRS`, `IGATE`, `WX`, `VERSION`, `STATUS`.
#[derive(Debug, PartialEq, Eq)]
pub struct AprsQuery {
    /// The query type (between the two `?` characters).
    pub query_type: Vec<u8>,
    /// Optional geographic footprint: latitude°, longitude°, radius km.
    pub footprint: Option<QueryFootprint>,
    /// Any trailing bytes after the footprint (preserved verbatim).
    pub trailing: Vec<u8>,
}

/// A geographic footprint associated with a query, as the number texts that
/// were received (trimmed of whitespace): latitude and longitude in degrees,
/// radius in km.
#[derive(Debug, PartialEq, Eq)]
pub struct QueryFootprint {
    pub latitude: Vec<u8>,
    pub longitude: Vec<u8>,
    pub radius_km: Vec<u8>,
}

/// Mathematical model of [`QueryFootprint`].
pub struct QueryFootprintView {
    pub latitude: Seq<u8>,
    pub longitude: Seq<u8>,
    pub radius_km: Seq<u8>,
}

/// Mathematical model of [`AprsQuery`].
pub struct AprsQueryView {
    pub query_type: Seq<u8>,
    pub footprint: Option<QueryFootprintView>,
    pub trailing: Seq<u8>,
}

impl View for QueryFootprint {
    type V = QueryFootprintView;

    open spec fn view(&self) -> QueryFootprintView {
        QueryFootprintView {
            latitude: self.latitude@,
            longitude: self.longitude@,
            radius_km: self.radius_km@,
        }
    }
}

impl View for AprsQuery {
    type V = AprsQueryView;

    open spec fn view(&self) -> AprsQueryView {
        AprsQueryView {
            query_type: self.query_type@,
            footprint: match self.footprint {
                Some(f) => Some(f@),
                None => None,
            },
            trailing: self.trailing@,
        }
    }
}

/// The footprint `lat,lon,radius[,trailing]` after the second `?`: present
/// when the first three comma-separated fields are all numbers, and then the
/// rest after a third comma is the trailing part; otherwise everything is
/// trailing.
pub open spec fn spec_parse_footprint(b: Seq<u8>) -> (Option<QueryFootprintView>, Seq<u8>) {
    if b.len() == 0 {
        (None, Seq::empty())
    } else {
        match (nth_field(b, 0), nth_field(b, 1), nth_field(b, 2)) {
            (Some(la), Some(lo), Some(ra)) => if float_field(la) && float_field(lo) && float_field(
                ra,
            ) {
                (
                    Some(
                        QueryFootprintView {
                            latitude: trim_ws(la),
                            longitude: trim_ws(lo),
                            radius_km: trim_ws(ra),
                        },
                    ),
                    match skip_fields(b, 3) {
                        Some(t) => t,
                        None => Seq::empty(),
                    },
                )
            } else {
                (None, b)
            },
            _ => (None, b),
        }
    }
}

/// A query information field `?TYPE?footprint`.
pub open spec fn spec_parse_query(info: Seq<u8>) -> AprsQueryView {
    let body = after_dti(info);
    let k = index_of(body, 63u8);
    let (qt, after) = if k < 0 {
        (body, Seq::empty())
    } else {
        (body.subrange(0, k), body.subrange(k + 1, body.len() as int))
    };
    let (fp, trailing) = spec_parse_footprint(after);
    AprsQueryView { query_type: qt, footprint: fp, trailing }
}

/// The wire form of a query; the footprint is written as its number texts.
pub open spec fn spec_encode_query(q: AprsQueryView) -> Seq<u8> {
    seq![63u8] + q.query_type + seq![63u8] + match q.footprint {
        Some(f) => footprint_text(f) + trailing_text(q.trailing),
        None => q.trailing,
    }
}

/// What follows a written footprint: the trailing part after a comma, or
/// nothing.
pub open spec fn trailing_text(t: Seq<u8>) -> Seq<u8> {
    if t.len() > 0 {
        seq![44u8] + t
    } else {
        Seq::empty()
    }
}

fn parse_footprint(b: &[u8]) -> (r: (Option<QueryFootprint>, Vec<u8>))
    ensures
        ({
            let (f, t) = spec_parse_footprint(b@);
            &&& match (r.0, f) {
                (Some(x), Some(y)) => x@ == y,
                (None, None) => true,
                _ => false,
            }
            &&& r.1@ == t
        }),
{
    if b.len() == 0 {
        return (None, Vec::new());
    }
    let whole = copy_from(b, 0);
    assert(whole@ =~= b@);
    let (la, lo, ra) = match (nth_field_exec(b, 0), nth_field_exec(b, 1), nth_field_exec(b, 2)) {
        (Some(la), Some(lo), Some(ra)) => (la, lo, ra),
        _ => {
            return (None, whole);
        },
    };
    let (lat, lon, rad) = match (float_field_text(la), float_field_text(lo), float_field_text(ra)) {
        (Some(x), Some(y), Some(z)) => (x, y, z),
        _ => {
            return (None, whole);
        },
    };
    let trailing = match skip_fields_exec(b, 3) {
        Some(off) => copy_from(b, off),
        None => Vec::new(),
    };
    (Some(QueryFootprint { latitude: lat, longitude: lon, radius_km: rad }), trailing)
}

impl AprsQuery {
    /// Decode from the information field (including the leading `?` DTI byte).
    pub fn parse(info: &[u8]) -> (r: Self)
        ensures
            r@ == spec_parse_query(info@),
    {
        let body = if info.len() >= 1 {
            vstd::slice::slice_subrange(info, 1, info.len())
        } else {
            vstd::slice::slice_subrange(info, 0, 0)
        };
        assert(body@ =~= after_dti(info@));
        proof {
            lemma_index_of(body@, 63u8);
        }
        let (query_type, after) = match find_byte(body, '?' as u8) {
            Some(pos) => (
                copy_range(body, 0, pos),
                vstd::slice::slice_subrange(body, pos + 1, body.len()),
            ),
            None => {
                let q = copy_from(body, 0);
                assert(q@ =~= body@);
                (q, vstd::slice::slice_subrange(body, 0, 0))
            },
        };
        let (footprint, trailing) = parse_footprint(after);
        let q = AprsQuery { query_type, footprint, trailing };
        proof {
            assert(q@.trailing =~= spec_parse_query(info@).trailing);
        }
        q
    }

    pub fn encode(&self) -> (r: Vec<u8>)
        ensures
            r@ == spec_encode_query(self@),
    {
        let mut out: Vec<u8> = Vec::new();
        out.push('?' as u8);
        extend(&mut out, self.query_type.as_slice());
        out.push('?' as u8);
        match &self.footprint {
            Some(fp) => {
                extend(&mut out, fp.latitude.as_slice());
                out.push(',' as u8);
                extend(&mut out, fp.longitude.as_slice());
                out.push(',' as u8);
                extend(&mut out, fp.radius_km.as_slice());
                if self.trailing.len() > 0 {
                    out.push(',' as u8);
                }
            },
            None => {},
        }
        extend(&mut out, self.trailing.as_slice());
        assert(out@ =~= spec_encode_query(self@));
        out
    }
}

/// The footprint text written for a query.
pub open spec fn footprint_text(f: QueryFootprintView) -> Seq<u8> {
    f.latitude + seq![44u8] + f.longitude + seq![44u8] + f.radius_km
}

/// A number field of a footprint, trimmed, is a number field without a
/// comma that trimming leaves unchanged.
proof fn lemma_number_text(p: Seq<u8>)
    requires
        float_field(p),
    ensures
        float_field(trim_ws(p)),
        trim_ws(trim_ws(p)) == trim_ws(p),
        lacks(trim_ws(p), 44u8),
{
    lemma_float_field_trim(p);
    let t = trim_ws(p);
    assert forall|j: int| 0 <= j < t.len() implies #[trigger] t[j] != 44u8 by {
        assert(number_byte(t[j]));
    }
}

/// A footprint written with a trailing part reads back as the same
/// footprint and trailing part.
proof fn lemma_footprint_round_trip(b: Seq<u8>, t: Seq<u8>)
    requires
        spec_parse_footprint(b).0 is Some,
    ensures
        spec_parse_footprint(footprint_text(spec_parse_footprint(b).0->Some_0) + trailing_text(t))
            == (spec_parse_footprint(b).0, t),
{
    let f = spec_parse_footprint(b).0->Some_0;
    let la0 = nth_field(b, 0)->Some_0;
    let lo0 = nth_field(b, 1)->Some_0;
    let ra0 = nth_field(b, 2)->Some_0;
    lemma_number_text(la0);
    lemma_number_text(lo0);
    lemma_number_text(ra0);
    let (la, lo, ra) = (f.latitude, f.longitude, f.radius_km);
    let x = footprint_text(f) + trailing_text(t);
    let r2 = ra + trailing_text(t);
    let r1 = lo + seq![44u8] + r2;
    assert(x =~= la + seq![44u8] + r1);
    lemma_skip_cons(la, r1, 0);
    lemma_skip_cons(la, r1, 1);
    lemma_skip_cons(la, r1, 2);
    lemma_skip_cons(lo, r2, 0);
    lemma_skip_cons(lo, r2, 1);
    lemma_float_syntax_bytes(trim_ws(la0));
    assert(x.len() > 0);
    if t.len() > 0 {
        assert(r2 =~= ra + seq![44u8] + t);
        lemma_skip_cons(ra, t, 0);
        assert(skip_fields(x, 2) == Some(r2));
        assert(skip_fields(x, 3) == Some(t));
        assert(nth_field(x, 2) == Some(ra));
    } else {
        assert(r2 =~= ra);
        lemma_index_of(ra, 44u8);
        assert(skip_fields(x, 2) == Some(ra));
        assert(first_field(ra) =~= ra);
        assert(skip_fields(x, 3) is None);
    }
}

/// A decoded query decodes back from its written form.
pub proof fn lemma_query_round_trip(info: Seq<u8>)
    ensures
        spec_parse_query(spec_encode_query(spec_parse_query(info))) == spec_parse_query(info),
        spec_encode_query(spec_parse_query(info))[0] == 63u8,
{
    let q = spec_parse_query(info);
    let body = after_dti(info);
    let k = index_of(body, 63u8);
    lemma_index_of(body, 63u8);
    let qt = q.query_type;
    assert forall|j: int| 0 <= j < qt.len() implies qt[j] != 63u8 by {
        assert(qt[j] == body[j]);
    }
    let e = spec_encode_query(q);
    let tail = match q.footprint {
        Some(f) => footprint_text(f) + trailing_text(q.trailing),
        None => q.trailing,
    };
    let b2 = qt + seq![63u8] + tail;
    assert(e =~= seq![63u8] + b2);
    assert(after_dti(e) =~= b2);
    lemma_index_of_at(b2, 63u8, qt.len() as int);
    assert(b2.subrange(0, qt.len() as int) =~= qt);
    assert(b2.subrange(qt.len() as int + 1, b2.len() as int) =~= tail);
    let after = if k < 0 {
        Seq::<u8>::empty()
    } else {
        body.subrange(k + 1, body.len() as int)
    };
    match q.footprint {
        Some(f) => {
            lemma_footprint_round_trip(after, q.trailing);
        },
        None => {
            assert(tail =~= q.trailing);
            if k < 0 || after.len() == 0 {
                assert(q.trailing =~= Seq::<u8>::empty());
            }
        },
    }
}

impl Clone for AprsQuery {
    fn clone(&self) -> (r: Self)
        ensures
            r@ == self@,
    {
        AprsQuery {
            query_type: crate::util::copy_vec(&self.query_type),
            footprint: match &self.footprint {
                Some(f) => Some(f.clone()),
                None => None,
            },
            trailing: crate::util::copy_vec(&self.trailing),
        }
    }
}

impl Clone for QueryFootprint {
    fn clone(&self) -> (r: Self)
        ensures
            r@ == self@,
    {
        QueryFootprint {
            latitude: crate::util::copy_vec(&self.latitude),
            longitude: crate::util::copy_vec(&self.longitude),
            radius_km: crate::util::copy_vec(&self.radius_km),
        }
    }
}

} // verus!
