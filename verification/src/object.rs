//! Object reports (DTI `;`).
use crate::compressed::CompressedCs;
use crate::error::{AprsError, AprsErrorView};
use crate::extensions::{
    extension_encodable, lemma_extension_round_trip, spec_encode_extension,
    spec_parse_extension, Extension,
};
use crate::location::{
    lemma_position_round_trip, position_cs_encodable, spec_encode_position,
    spec_encode_position_compressed, spec_encode_position_uncompressed, spec_parse_position,
    Position, PositionView,
};
use crate::message::addressee_padding;
use crate::numtext::{extract_frequency_mhz, spec_extract_frequency};
use crate::timestamp::{
    lemma_timestamp_round_trip, spec_encode_timestamp, spec_parse_timestamp, Timestamp,
    TimestampView,
};
use crate::util::{copy_from, copy_range, extend, trim_spaces_end, trim_spaces_end_exec};
use vstd::prelude::*;

verus! {

/// The data extension at the head of the comment of an uncompressed
/// position, and the comment without it.
pub open spec fn spec_comment_extension(p: PositionView, raw: Seq<u8>) -> (Option<Extension>, Seq<u8>) {
    if p.compressed_cs is None {
        match spec_parse_extension(raw) {
            Some(e) => (Some(e), if raw.len() >= 7 {
                raw.subrange(7, raw.len() as int)
            } else {
                Seq::empty()
            }),
            None => (None, raw),
        }
    } else {
        (None, raw)
    }
}

/// The position followed by its extension: uncompressed when there is an
/// extension or no csT block, else compressed.
pub open spec fn spec_encode_position_ext(p: PositionView, ext: Option<Extension>) -> Seq<u8> {
    if ext is Some || p.compressed_cs is None {
        spec_encode_position_uncompressed(p) + match ext {
            Some(e) => spec_encode_extension(e),
            None => Seq::empty(),
        }
    } else {
        spec_encode_position_compressed(p)
    }
}

/// A position and extension that can be written.
pub open spec fn position_ext_encodable(p: PositionView, ext: Option<Extension>) -> bool {
    &&& ext matches Some(e) ==> extension_encodable(e)
    &&& !(ext is Some || p.compressed_cs is None) ==> position_cs_encodable(p)
}

/// A decoded position and the extension read after it, when they can be
/// written, are written back into bytes that decode to them, with the same
/// comment.
pub proof fn lemma_position_ext_round_trip(pb: Seq<u8>)
    requires
        spec_parse_position(pb) is Ok,
        ({
            let (n, pos) = spec_parse_position(pb)->Ok_0;
            let (ext, comment) = spec_comment_extension(pos, pb.subrange(n as int, pb.len() as int));
            &&& position_ext_encodable(pos, ext)
        }),
    ensures
        ({
            let (n, pos) = spec_parse_position(pb)->Ok_0;
            let (ext, comment) = spec_comment_extension(pos, pb.subrange(n as int, pb.len() as int));
            let x = spec_encode_position_ext(pos, ext) + comment;
            &&& spec_parse_position(x) == spec_parse_position(pb)
            &&& spec_comment_extension(pos, x.subrange(n as int, x.len() as int)) == (ext, comment)
            &&& spec_encode_position_ext(pos, ext).len() > 0
        }),
{
    let (n, pos) = spec_parse_position(pb)->Ok_0;
    let raw = pb.subrange(n as int, pb.len() as int);
    let (ext, comment) = spec_comment_extension(pos, raw);
    lemma_position_round_trip(pb);
    let ep = spec_encode_position(pos);
    let pe = spec_encode_position_ext(pos, ext);
    let x = pe + comment;
    match ext {
        Some(e) => {
            lemma_extension_round_trip(raw);
            assert(raw =~= raw.subrange(0, 7) + comment);
            assert(x =~= ep + raw);
        },
        None => {
            assert(x =~= ep + raw);
        },
    }
    assert(x.subrange(n as int, x.len() as int) =~= raw);
}

pub(crate) fn comment_extension(p: &Position, raw: &[u8]) -> (r: (Option<Extension>, Vec<u8>))
    ensures
        (r.0, r.1@) == spec_comment_extension(p@, raw@),
{
    if p.compressed_cs.is_none() {
        match Extension::parse(raw) {
            Some(e) => (Some(e), copy_from(raw, 7)),
            None => {
                let c = copy_from(raw, 0);
                assert(c@ =~= raw@);
                (None, c)
            },
        }
    } else {
        let c = copy_from(raw, 0);
        assert(c@ =~= raw@);
        (None, c)
    }
}

pub(crate) fn encode_position_ext(p: &Position, ext: &Option<Extension>, out: &mut Vec<u8>)
    requires
        position_ext_encodable(p@, *ext),
    ensures
        final(out)@ == old(out)@ + spec_encode_position_ext(p@, *ext),
{
    if ext.is_some() || p.compressed_cs.is_none() {
        p.encode_uncompressed(out);
        match ext {
            Some(e) => e.encode(out),
            None => {},
        }
    } else {
        p.encode_compressed(out);
    }
    assert(final(out)@ =~= old(out)@ + spec_encode_position_ext(p@, *ext));
}

/// An APRS Object Report.
///
/// DTI: `;`
///
/// Objects have a fixed 9-character name, a mandatory timestamp, and a position.
/// They are used to report the location of things other than the sending station
/// (storms, marathons, spacecraft, etc.).
#[derive(Debug, PartialEq, Eq)]
pub struct AprsObject {
    /// Object name, trimmed of trailing spaces (the APRS format pads it to 9 chars).
    pub name: Vec<u8>,
    /// `true` if the object is live/active; `false` if it has been killed/removed.
    pub live: bool,
    /// Mandatory timestamp.
    pub timestamp: Timestamp,
    pub position: Position,
    /// Optional data extension (course/speed, PHG, RNG, DFS) from the comment field.
    pub extension: Option<Extension>,
    /// Frequency in MHz (as its number text) from the start of the comment, if present.
    pub frequency_mhz: Option<Vec<u8>>,
    pub comment: Vec<u8>,
}

/// Mathematical model of [`AprsObject`].
pub struct AprsObjectView {
    pub name: Seq<u8>,
    pub live: bool,
    pub timestamp: TimestampView,
    pub position: PositionView,
    pub extension: Option<Extension>,
    pub frequency_mhz: Option<Seq<u8>>,
    pub comment: Seq<u8>,
}

impl View for AprsObject {
    type V = AprsObjectView;

    open spec fn view(&self) -> AprsObjectView {
        AprsObjectView {
            name: self.name@,
            live: self.live,
            timestamp: self.timestamp@,
            position: self.position@,
            extension: self.extension,
            frequency_mhz: match self.frequency_mhz {
                Some(f) => Some(f@),
                None => None,
            },
            comment: self.comment@,
        }
    }
}

/// An object information field `;NNNNNNNNN*DDHHMMzPOSITIONcomment`.
pub open spec fn spec_parse_object(info: Seq<u8>) -> Result<AprsObjectView, AprsErrorView> {
    if info.len() < 18 {
        Err(AprsErrorView::InvalidObject { detail: "packet too short" })
    } else if !(info[10] == 42u8 || info[10] == 95u8 || info[10] == 32u8) {
        Err(AprsErrorView::InvalidObject { detail: "invalid liveness byte" })
    } else {
        match spec_parse_timestamp(info.subrange(11, 18)) {
            Err(e) => Err(e),
            Ok(ts) => {
                let pb = info.subrange(18, info.len() as int);
                match spec_parse_position(pb) {
                    Err(e) => Err(e),
                    Ok((n, pos)) => {
                        let (ext, comment) = spec_comment_extension(
                            pos,
                            pb.subrange(n as int, pb.len() as int),
                        );
                        Ok(
                            AprsObjectView {
                                name: trim_spaces_end(info.subrange(1, 10)),
                                live: info[10] == 42u8,
                                timestamp: ts,
                                position: pos,
                                extension: ext,
                                frequency_mhz: spec_extract_frequency(comment),
                                comment,
                            },
                        )
                    },
                }
            },
        }
    }
}

/// The information field of an object report.
pub open spec fn spec_encode_object(o: AprsObjectView) -> Seq<u8> {
    seq![59u8] + o.name + addressee_padding(o.name) + seq![
        if o.live {
            42u8
        } else {
            95u8
        },
    ] + spec_encode_timestamp(o.timestamp) + spec_encode_position_ext(o.position, o.extension)
        + o.comment
}

impl AprsObject {
    /// Decode from the information field (including the leading `;` DTI byte).
    pub fn parse(info: &[u8]) -> (r: Result<Self, AprsError>)
        ensures
            match (r, spec_parse_object(info@)) {
                (Ok(o), Ok(v)) => o@ == v,
                (Err(e), Err(v)) => e@ == v,
                _ => false,
            },
    {
        if info.len() < 18 {
            return Err(AprsError::InvalidObject { detail: "packet too short" });
        }
        let mut name = copy_range(info, 1, 10);
        trim_spaces_end_exec(&mut name);
        let live = if info[10] == '*' as u8 {
            true
        } else if info[10] == '_' as u8 || info[10] == ' ' as u8 {
            false
        } else {
            return Err(AprsError::InvalidObject { detail: "invalid liveness byte" });
        };
        let timestamp = match Timestamp::parse(vstd::slice::slice_subrange(info, 11, 18)) {
            Ok(t) => t,
            Err(e) => {
                return Err(e);
            },
        };
        let position_bytes = vstd::slice::slice_subrange(info, 18, info.len());
        let (remaining, position) = match Position::parse(position_bytes) {
            Ok(x) => x,
            Err(e) => {
                return Err(e);
            },
        };
        let comment_raw = match remaining {
            Some(r) => r,
            None => vstd::slice::slice_subrange(position_bytes, 0, 0),
        };
        let (extension, comment) = comment_extension(&position, comment_raw);
        let frequency_mhz = extract_frequency_mhz(comment.as_slice());
        Ok(AprsObject { name, live, timestamp, position, extension, frequency_mhz, comment })
    }

    pub fn encode(&self) -> (r: Vec<u8>)
        requires
            position_ext_encodable(self.position@, self.extension),
        ensures
            r@ == spec_encode_object(self@),
    {
        let mut out: Vec<u8> = Vec::new();
        out.push(';' as u8);
        extend(&mut out, self.name.as_slice());
        let mut k: usize = self.name.len();
        let ghost mid = out@;
        while k < 9
            invariant
                self.name@.len() <= k <= 9 || (k == self.name@.len() && k >= 9),
                out@ == mid + Seq::new((k - self.name@.len()) as nat, |i: int| 32u8),
            decreases 9 - k,
        {
            out.push(' ' as u8);
            k = k + 1;
            assert(out@ =~= mid + Seq::new((k - self.name@.len()) as nat, |i: int| 32u8));
        }
        assert(Seq::new((k - self.name@.len()) as nat, |i: int| 32u8) =~= addressee_padding(
            self.name@,
        ));
        out.push(
            if self.live {
                '*' as u8
            } else {
                '_' as u8
            },
        );
        self.timestamp.encode(&mut out);
        encode_position_ext(&self.position, &self.extension, &mut out);
        extend(&mut out, self.comment.as_slice());
        assert(out@ =~= spec_encode_object(self@));
        out
    }
}

/// A decoded object report whose position and extension can be written
/// decodes back from its written form.
pub proof fn lemma_object_round_trip(info: Seq<u8>)
    requires
        spec_parse_object(info) is Ok,
        position_ext_encodable(
            spec_parse_object(info)->Ok_0.position,
            spec_parse_object(info)->Ok_0.extension,
        ),
    ensures
        spec_parse_object(spec_encode_object(spec_parse_object(info)->Ok_0)) == spec_parse_object(
            info,
        ),
        spec_encode_object(spec_parse_object(info)->Ok_0)[0] == 59u8,
{
    let o = spec_parse_object(info)->Ok_0;
    let ts = spec_parse_timestamp(info.subrange(11, 18))->Ok_0;
    let pb = info.subrange(18, info.len() as int);
    lemma_position_ext_round_trip(pb);
    lemma_timestamp_round_trip(info.subrange(11, 18));
    let et = spec_encode_timestamp(ts);
    assert(et.len() == 7);
    let raw_name = info.subrange(1, 10);
    crate::util::lemma_trim_spaces_end(raw_name);
    let name = o.name;
    assert(name.len() <= 9);
    let padded = name + addressee_padding(name);
    crate::util::lemma_trim_spaces_pad(name, (9 - name.len()) as nat);
    assert(addressee_padding(name) =~= Seq::new((9 - name.len()) as nat, |i: int| 32u8));
    let pe = spec_encode_position_ext(o.position, o.extension);
    let live_b: u8 = if o.live {
        42u8
    } else {
        95u8
    };
    let e = spec_encode_object(o);
    assert(e =~= seq![59u8] + padded + seq![live_b] + et + (pe + o.comment));
    assert(e.subrange(1, 10) =~= padded);
    assert(e[10] == live_b);
    assert(e.subrange(11, 18) =~= et);
    assert(e.subrange(18, e.len() as int) =~= pe + o.comment);
}

impl Clone for AprsObject {
    fn clone(&self) -> (r: Self)
        ensures
            r@ == self@,
    {
        AprsObject {
            name: crate::util::copy_vec(&self.name),
            live: self.live,
            timestamp: self.timestamp.clone(),
            position: self.position,
            extension: self.extension,
            frequency_mhz: crate::util::copy_opt_vec(&self.frequency_mhz),
            comment: crate::util::copy_vec(&self.comment),
        }
    }
}


/// An object report that decodes still decodes with bytes appended.
pub proof fn lemma_object_extend(info: Seq<u8>, t: Seq<u8>)
    requires
        spec_parse_object(info) is Ok,
    ensures
        spec_parse_object(info + t) is Ok,
{
    let c = info + t;
    assert(c[10] == info[10]);
    assert(c.subrange(11, 18) =~= info.subrange(11, 18));
    assert(c.subrange(18, c.len() as int) =~= info.subrange(18, info.len() as int) + t);
    crate::location::lemma_position_extend(info.subrange(18, info.len() as int), t);
}

} // verus!
