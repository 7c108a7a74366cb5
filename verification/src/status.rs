//! Status reports (DTI `>`).
use crate::error::AprsError;
use crate::timestamp::{
    lemma_timestamp_round_trip, spec_encode_timestamp, spec_parse_timestamp, Timestamp,
    TimestampView,
};
use crate::util::{copy_from, extend};
use vstd::prelude::*;

verus! {

/// An APRS Status Report.
///
/// DTI: `>`
///
/// Announces the station's current mission or status as a single free-text line.
/// APRS101 restricts the timestamp to DDHHMM format, but HHMMSS is also seen in practice.
#[derive(Debug, PartialEq, Eq)]
pub struct AprsStatus {
    /// Optional timestamp. The spec allows only `DDHHMM`; `HHMMSS` is a common extension.
    pub timestamp: Option<Timestamp>,
    pub comment: Vec<u8>,
}

/// Mathematical model of [`AprsStatus`].
pub struct AprsStatusView {
    pub timestamp: Option<TimestampView>,
    pub comment: Seq<u8>,
}

impl View for AprsStatus {
    type V = AprsStatusView;

    open spec fn view(&self) -> AprsStatusView {
        AprsStatusView {
            timestamp: match self.timestamp {
                Some(t) => Some(t@),
                None => None,
            },
            comment: self.comment@,
        }
    }
}

/// What follows the DTI byte (nothing for an empty field).
pub open spec fn after_dti(info: Seq<u8>) -> Seq<u8> {
    if info.len() >= 1 {
        info.subrange(1, info.len() as int)
    } else {
        Seq::empty()
    }
}

/// A status information field: a leading valid 7-byte timestamp is taken
/// as such; everything else is the comment.
pub open spec fn spec_parse_status(info: Seq<u8>) -> AprsStatusView {
    let b = after_dti(info);
    if b.len() >= 7 && spec_parse_timestamp(b.subrange(0, 7)) is Ok {
        AprsStatusView {
            timestamp: Some(spec_parse_timestamp(b.subrange(0, 7))->Ok_0),
            comment: b.subrange(7, b.len() as int),
        }
    } else {
        AprsStatusView { timestamp: None, comment: b }
    }
}

/// The wire form of a status report.
pub open spec fn spec_encode_status(s: AprsStatusView) -> Seq<u8> {
    seq![62u8] + match s.timestamp {
        Some(t) => spec_encode_timestamp(t),
        None => Seq::empty(),
    } + s.comment
}

impl AprsStatus {
    /// Decode from the information field (including the leading `>` DTI byte).
    /// Every input decodes.
    pub fn parse(info: &[u8]) -> (r: Result<Self, AprsError>)
        ensures
            r matches Ok(s) && s@ == spec_parse_status(info@),
    {
        let b = if info.len() >= 1 {
            vstd::slice::slice_subrange(info, 1, info.len())
        } else {
            vstd::slice::slice_subrange(info, 0, 0)
        };
        assert(b@ =~= after_dti(info@));
        let timestamp = if b.len() >= 7 {
            match Timestamp::parse(vstd::slice::slice_subrange(b, 0, 7)) {
                Ok(t) => Some(t),
                Err(_) => None,
            }
        } else {
            None
        };
        let comment = if timestamp.is_some() {
            copy_from(b, 7)
        } else {
            copy_from(b, 0)
        };
        assert(b@.subrange(0, b@.len() as int) =~= b@);
        Ok(AprsStatus { timestamp, comment })
    }

    pub fn encode(&self) -> (r: Vec<u8>)
        ensures
            r@ == spec_encode_status(self@),
    {
        let mut out: Vec<u8> = Vec::new();
        out.push('>' as u8);
        match &self.timestamp {
            Some(ts) => ts.encode(&mut out),
            None => {},
        }
        extend(&mut out, self.comment.as_slice());
        assert(out@ =~= spec_encode_status(self@));
        out
    }
}

/// Re-encoding a decoded status report and decoding the result gives the same
/// report back.
pub proof fn lemma_status_round_trip(info: Seq<u8>)
    ensures
        spec_parse_status(spec_encode_status(spec_parse_status(info))) == spec_parse_status(info),
{
    let s = spec_parse_status(info);
    let e = spec_encode_status(s);
    let b = after_dti(info);
    let b2 = after_dti(e);
    match s.timestamp {
        Some(t) => {
            lemma_timestamp_round_trip(b.subrange(0, 7));
            let te = spec_encode_timestamp(t);
            assert(te.len() == 7) by {
                crate::util::lemma_dec_pad(0, 2);
                match t {
                    TimestampView::Ddhhmm(d, h, m) => {
                        crate::util::lemma_dec_pad(d as nat, 2);
                        crate::util::lemma_dec_pad(h as nat, 2);
                        crate::util::lemma_dec_pad(m as nat, 2);
                    },
                    TimestampView::Hhmmss(h, m, x) => {
                        crate::util::lemma_dec_pad(h as nat, 2);
                        crate::util::lemma_dec_pad(m as nat, 2);
                        crate::util::lemma_dec_pad(x as nat, 2);
                    },
                    TimestampView::Unsupported(raw) => {},
                }
            }
            assert(b2 =~= te + s.comment);
            assert(b2.subrange(0, 7) =~= te);
            assert(b2.subrange(7, b2.len() as int) =~= s.comment);
        },
        None => {
            assert(b2 =~= b);
        },
    }
}

impl Clone for AprsStatus {
    fn clone(&self) -> (r: Self)
        ensures
            r@ == self@,
    {
        AprsStatus {
            timestamp: match &self.timestamp {
                Some(t) => Some(t.clone()),
                None => None,
            },
            comment: crate::util::copy_vec(&self.comment),
        }
    }
}


/// A status report in its written form is written again byte for byte:
/// encoding what a written report decodes to gives the same bytes.
pub proof fn lemma_status_canonical(info: Seq<u8>)
    ensures
        ({
            let e = spec_encode_status(spec_parse_status(info));
            spec_encode_status(spec_parse_status(e)) == e
        }),
{
    lemma_status_round_trip(info);
}

} // verus!
