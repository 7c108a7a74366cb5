//! APRS timestamps (`DDHHMMz`, `HHMMSSh`, and the raw local-time form).
use crate::error::{AprsError, AprsErrorView};
use crate::util::{
    dec_pad, extend, lemma_dec_pad, parse_unsigned, push_dec_pad, spec_parse_unsigned,
};
use vstd::prelude::*;

verus! {

/// An APRS timestamp.
///
/// APRS101 defines three formats; the local-time format (`/`) is kept as
/// `Unsupported` since it is deprecated and ambiguous, and so is any other
/// non-standard designator.
#[derive(Debug, PartialEq, Eq)]
pub enum Timestamp {
    /// Day-of-month (1–31), Hour (0–23), Minute (0–59) in UTC. Suffix `z`.
    Ddhhmm(u8, u8, u8),
    /// Hour (0–23), Minute (0–59), Second (0–59) in UTC. Suffix `h`.
    Hhmmss(u8, u8, u8),
    /// Local-time format (deprecated, suffix `/`) or an unknown designator,
    /// stored as the raw 7 bytes.
    Unsupported(Vec<u8>),
}

/// Model of a [`Timestamp`].
pub enum TimestampView {
    Ddhhmm(u8, u8, u8),
    Hhmmss(u8, u8, u8),
    Unsupported(Seq<u8>),
}

impl View for Timestamp {
    type V = TimestampView;

    open spec fn view(&self) -> TimestampView {
        match self {
            Timestamp::Ddhhmm(d, h, m) => TimestampView::Ddhhmm(*d, *h, *m),
            Timestamp::Hhmmss(h, m, s) => TimestampView::Hhmmss(*h, *m, *s),
            Timestamp::Unsupported(raw) => TimestampView::Unsupported(raw@),
        }
    }
}

/// The two-character field of `b` starting at `i`, read as a `u8`.
pub open spec fn ts_field(b: Seq<u8>, i: int) -> Option<nat> {
    spec_parse_unsigned(b.subrange(i, i + 2), 255)
}

/// The timestamp written in the 7-byte field `b`.
pub open spec fn spec_parse_timestamp(b: Seq<u8>) -> Result<TimestampView, AprsErrorView> {
    if b.len() != 7 {
        Err(AprsErrorView::InvalidTimestampFormat { raw: b })
    } else if b[6] == 47u8 {
        Ok(TimestampView::Unsupported(b))
    } else {
        match (ts_field(b, 0), ts_field(b, 2), ts_field(b, 4)) {
            (Some(f1), Some(f2), Some(f3)) => {
                let (f1, f2, f3) = (f1 as u8, f2 as u8, f3 as u8);
                if b[6] == 122u8 || b[6] == 90u8 {
                    if f1 == 0 || f1 > 31 {
                        Err(AprsErrorView::TimestampDayOutOfRange { day: f1 })
                    } else if f2 > 23 {
                        Err(AprsErrorView::TimestampHourOutOfRange { hour: f2 })
                    } else if f3 > 59 {
                        Err(AprsErrorView::TimestampMinuteOutOfRange { minute: f3 })
                    } else {
                        Ok(TimestampView::Ddhhmm(f1, f2, f3))
                    }
                } else if b[6] == 104u8 || b[6] == 72u8 {
                    if f1 > 23 {
                        Err(AprsErrorView::TimestampHourOutOfRange { hour: f1 })
                    } else if f2 > 59 {
                        Err(AprsErrorView::TimestampMinuteOutOfRange { minute: f2 })
                    } else if f3 > 59 {
                        Err(AprsErrorView::TimestampSecondOutOfRange { second: f3 })
                    } else {
                        Ok(TimestampView::Hhmmss(f1, f2, f3))
                    }
                } else {
                    Ok(TimestampView::Unsupported(b))
                }
            },
            _ => Err(AprsErrorView::InvalidTimestampFormat { raw: b }),
        }
    }
}

/// The designator byte decides the kind of a timestamp: a day-hour-minute
/// stamp is read only from `z` or `Z`, an hour-minute-second stamp only from
/// `h` or `H`, and a stamp ending `/` (local time) is kept as written.
pub proof fn lemma_timestamp_designator(b: Seq<u8>)
    ensures
        spec_parse_timestamp(b) matches Ok(TimestampView::Ddhhmm(_, _, _)) ==> b.len() == 7 && (
        b[6] == 122u8 || b[6] == 90u8),
        spec_parse_timestamp(b) matches Ok(TimestampView::Hhmmss(_, _, _)) ==> b.len() == 7 && (
        b[6] == 104u8 || b[6] == 72u8),
        b.len() == 7 && b[6] == 47u8 ==> spec_parse_timestamp(b) == Ok::<
            TimestampView,
            AprsErrorView,
        >(TimestampView::Unsupported(b)),
{
}

/// The wire form of a timestamp: two-digit (at least) fields and the
/// designator, or the raw bytes.
pub open spec fn spec_encode_timestamp(t: TimestampView) -> Seq<u8> {
    match t {
        TimestampView::Ddhhmm(d, h, m) => dec_pad(d as nat, 2) + dec_pad(h as nat, 2) + dec_pad(
            m as nat,
            2,
        ) + seq![122u8],
        TimestampView::Hhmmss(h, m, s) => dec_pad(h as nat, 2) + dec_pad(m as nat, 2) + dec_pad(
            s as nat,
            2,
        ) + seq![104u8],
        TimestampView::Unsupported(raw) => raw,
    }
}

fn field(b: &[u8], i: usize) -> (r: Option<u8>)
    requires
        i + 2 <= b@.len(),
    ensures
        match (r, ts_field(b@, i as int)) {
            (Some(v), Some(w)) => v == w,
            (None, None) => true,
            _ => false,
        },
{
    assert(i + 2 <= b.len());
    match parse_unsigned(vstd::slice::slice_subrange(b, i, i + 2), 255) {
        Some(v) => Some(v as u8),
        None => None,
    }
}

impl Timestamp {
    /// Parse a 7-byte timestamp field.
    pub fn parse(b: &[u8]) -> (r: Result<Self, AprsError>)
        ensures
            match (r, spec_parse_timestamp(b@)) {
                (Ok(t), Ok(v)) => t@ == v,
                (Err(e), Err(v)) => e@ == v,
                _ => false,
            },
    {
        if b.len() != 7 {
            return Err(AprsError::InvalidTimestampFormat { raw: vstd::slice::slice_to_vec(b) });
        }
        if b[6] == '/' as u8 {
            return Ok(Timestamp::Unsupported(vstd::slice::slice_to_vec(b)));
        }
        let f1 = match field(b, 0) {
            Some(v) => v,
            None => {
                return Err(
                    AprsError::InvalidTimestampFormat { raw: vstd::slice::slice_to_vec(b) },
                );
            },
        };
        let f2 = match field(b, 2) {
            Some(v) => v,
            None => {
                return Err(
                    AprsError::InvalidTimestampFormat { raw: vstd::slice::slice_to_vec(b) },
                );
            },
        };
        let f3 = match field(b, 4) {
            Some(v) => v,
            None => {
                return Err(
                    AprsError::InvalidTimestampFormat { raw: vstd::slice::slice_to_vec(b) },
                );
            },
        };
        let d = b[6];
        if d == 'z' as u8 || d == 'Z' as u8 {
            if f1 == 0 || f1 > 31 {
                return Err(AprsError::TimestampDayOutOfRange { day: f1 });
            }
            if f2 > 23 {
                return Err(AprsError::TimestampHourOutOfRange { hour: f2 });
            }
            if f3 > 59 {
                return Err(AprsError::TimestampMinuteOutOfRange { minute: f3 });
            }
            Ok(Timestamp::Ddhhmm(f1, f2, f3))
        } else if d == 'h' as u8 || d == 'H' as u8 {
            if f1 > 23 {
                return Err(AprsError::TimestampHourOutOfRange { hour: f1 });
            }
            if f2 > 59 {
                return Err(AprsError::TimestampMinuteOutOfRange { minute: f2 });
            }
            if f3 > 59 {
                return Err(AprsError::TimestampSecondOutOfRange { second: f3 });
            }
            Ok(Timestamp::Hhmmss(f1, f2, f3))
        } else {
            // Some trackers emit a non-standard designator such as `#`; the raw
            // bytes are kept so that the position that follows can still be read.
            Ok(Timestamp::Unsupported(vstd::slice::slice_to_vec(b)))
        }
    }

    /// Write the timestamp in its wire format.
    pub fn encode(&self, out: &mut Vec<u8>)
        ensures
            final(out)@ == old(out)@ + spec_encode_timestamp(self@),
    {
        match self {
            Timestamp::Ddhhmm(d, h, m) => {
                push_dec_pad(out, *d as u64, 2);
                push_dec_pad(out, *h as u64, 2);
                push_dec_pad(out, *m as u64, 2);
                out.push('z' as u8);
            },
            Timestamp::Hhmmss(h, m, s) => {
                push_dec_pad(out, *h as u64, 2);
                push_dec_pad(out, *m as u64, 2);
                push_dec_pad(out, *s as u64, 2);
                out.push('h' as u8);
            },
            Timestamp::Unsupported(raw) => extend(out, raw.as_slice()),
        }
        assert(final(out)@ =~= old(out)@ + spec_encode_timestamp(self@));
    }
}

/// A two-digit field written by `dec_pad` reads back as its value.
proof fn lemma_field_round_trip(v: nat, rest1: Seq<u8>, rest2: Seq<u8>)
    requires
        v < 100,
    ensures
        ts_field(rest1 + dec_pad(v, 2) + rest2, rest1.len() as int) == Some(v),
{
    lemma_dec_pad(v, 2);
    let b = rest1 + dec_pad(v, 2) + rest2;
    let f = b.subrange(rest1.len() as int, rest1.len() as int + 2);
    assert(f =~= dec_pad(v, 2));
    assert(crate::util::is_digit(f[0]));
}

/// Encoding a decoded timestamp and decoding the result gives it back.
pub proof fn lemma_timestamp_round_trip(b: Seq<u8>)
    requires
        spec_parse_timestamp(b) is Ok,
    ensures
        spec_parse_timestamp(spec_encode_timestamp(spec_parse_timestamp(b)->Ok_0))
            == spec_parse_timestamp(b),
{
    let t = spec_parse_timestamp(b)->Ok_0;
    let e = spec_encode_timestamp(t);
    match t {
        TimestampView::Ddhhmm(d, h, m) => {
            let e0 = Seq::<u8>::empty();
            lemma_dec_pad(d as nat, 2);
            lemma_dec_pad(h as nat, 2);
            lemma_dec_pad(m as nat, 2);
            assert(e =~= e0 + dec_pad(d as nat, 2) + (dec_pad(h as nat, 2) + dec_pad(m as nat, 2)
                + seq![122u8]));
            lemma_field_round_trip(
                d as nat,
                e0,
                dec_pad(h as nat, 2) + dec_pad(m as nat, 2) + seq![122u8],
            );
            assert(e =~= dec_pad(d as nat, 2) + dec_pad(h as nat, 2) + (dec_pad(m as nat, 2)
                + seq![122u8]));
            lemma_field_round_trip(
                h as nat,
                dec_pad(d as nat, 2),
                dec_pad(m as nat, 2) + seq![122u8],
            );
            lemma_field_round_trip(
                m as nat,
                dec_pad(d as nat, 2) + dec_pad(h as nat, 2),
                seq![122u8],
            );
            assert(e[6] == 122u8);
        },
        TimestampView::Hhmmss(h, m, s) => {
            let e0 = Seq::<u8>::empty();
            lemma_dec_pad(h as nat, 2);
            lemma_dec_pad(m as nat, 2);
            lemma_dec_pad(s as nat, 2);
            assert(e =~= e0 + dec_pad(h as nat, 2) + (dec_pad(m as nat, 2) + dec_pad(s as nat, 2)
                + seq![104u8]));
            lemma_field_round_trip(
                h as nat,
                e0,
                dec_pad(m as nat, 2) + dec_pad(s as nat, 2) + seq![104u8],
            );
            assert(e =~= dec_pad(h as nat, 2) + dec_pad(m as nat, 2) + (dec_pad(s as nat, 2)
                + seq![104u8]));
            lemma_field_round_trip(
                m as nat,
                dec_pad(h as nat, 2),
                dec_pad(s as nat, 2) + seq![104u8],
            );
            lemma_field_round_trip(
                s as nat,
                dec_pad(h as nat, 2) + dec_pad(m as nat, 2),
                seq![104u8],
            );
            assert(e[6] == 104u8);
        },
        TimestampView::Unsupported(raw) => {},
    }
}

impl Clone for Timestamp {
    fn clone(&self) -> (r: Self)
        ensures
            r@ == self@,
    {
        match self {
            Timestamp::Ddhhmm(d, h, m) => Timestamp::Ddhhmm(*d, *h, *m),
            Timestamp::Hhmmss(h, m, s) => Timestamp::Hhmmss(*h, *m, *s),
            Timestamp::Unsupported(raw) => Timestamp::Unsupported(crate::util::copy_vec(raw)),
        }
    }
}

} // verus!
