//! Item reports (DTI `)`).
use crate::error::{AprsError, AprsErrorView};
use crate::extensions::Extension;
use crate::location::{spec_parse_position, Position, PositionView};
use crate::object::{
    comment_extension, encode_position_ext, lemma_position_ext_round_trip, position_ext_encodable,
    spec_comment_extension,
    spec_encode_position_ext,
};
use crate::util::{copy_range, extend};
use vstd::prelude::*;

verus! {

/// An APRS Item Report.
///
/// DTI: `)`
///
/// Items are similar to objects but lack a timestamp and have a variable-length
/// name (3–9 characters). They are intended for inanimate things reported
/// occasionally on a map (checkpoints, aid posts, etc.).
#[derive(Debug, PartialEq, Eq)]
pub struct AprsItem {
    /// Item name (3–9 chars; any char except `!` and ` `).
    pub name: Vec<u8>,
    /// `true` if the item is live/active (`!`); `false` if killed (` `).
    pub live: bool,
    pub position: Position,
    /// Optional data extension (course/speed, PHG, RNG, DFS).
    pub extension: Option<Extension>,
    pub comment: Vec<u8>,
}

/// Mathematical model of [`AprsItem`].
pub struct AprsItemView {
    pub name: Seq<u8>,
    pub live: bool,
    pub position: PositionView,
    pub extension: Option<Extension>,
    pub comment: Seq<u8>,
}

impl View for AprsItem {
    type V = AprsItemView;

    open spec fn view(&self) -> AprsItemView {
        AprsItemView {
            name: self.name@,
            live: self.live,
            position: self.position@,
            extension: self.extension,
            comment: self.comment@,
        }
    }
}

/// Index of the first `!` or space in `s`, or -1.
pub open spec fn first_liveness(s: Seq<u8>) -> int
    decreases s.len(),
{
    if s.len() == 0 {
        -1
    } else if s[0] == 33u8 || s[0] == 32u8 {
        0
    } else if first_liveness(s.drop_first()) < 0 {
        -1
    } else {
        first_liveness(s.drop_first()) + 1
    }
}

/// The bytes after `)` where the name (at most nine bytes) and its
/// terminator are looked for: at most ten.
pub open spec fn name_window(info: Seq<u8>) -> Seq<u8> {
    info.subrange(1, if info.len() < 11 { info.len() as int } else { 11 })
}

/// An item information field `)NAME!POSITIONcomment` (or `)NAME POSITION…`
/// for a killed item).
pub open spec fn spec_parse_item(info: Seq<u8>) -> Result<AprsItemView, AprsErrorView> {
    if info.len() < 5 {
        Err(AprsErrorView::InvalidItem { detail: "packet too short" })
    } else {
        let w = name_window(info);
        let k = first_liveness(w);
        let name = if k < 0 {
            w
        } else {
            w.subrange(0, k)
        };
        if name.len() < 3 {
            Err(AprsErrorView::InvalidItem { detail: "name too short (< 3 chars)" })
        } else if k < 0 {
            Err(AprsErrorView::InvalidItem { detail: "liveness byte not found" })
        } else {
            let pb = info.subrange(k + 2, info.len() as int);
            match spec_parse_position(pb) {
                Err(e) => Err(e),
                Ok((n, pos)) => {
                    let (ext, comment) = spec_comment_extension(
                        pos,
                        pb.subrange(n as int, pb.len() as int),
                    );
                    Ok(
                        AprsItemView {
                            name,
                            live: info[k + 1] == 33u8,
                            position: pos,
                            extension: ext,
                            comment,
                        },
                    )
                },
            }
        }
    }
}

/// The information field of an item report.
pub open spec fn spec_encode_item(it: AprsItemView) -> Seq<u8> {
    seq![41u8] + it.name + seq![
        if it.live {
            33u8
        } else {
            32u8
        },
    ] + spec_encode_position_ext(it.position, it.extension) + it.comment
}

proof fn lemma_first_liveness_at(s: Seq<u8>, i: int)
    requires
        0 <= i <= s.len(),
        forall|j: int| 0 <= j < i ==> !(s[j] == 33u8 || s[j] == 32u8),
        i < s.len() ==> (s[i] == 33u8 || s[i] == 32u8),
    ensures
        first_liveness(s) == (if i < s.len() {
            i
        } else {
            -1
        }),
    decreases i,
{
    if i > 0 {
        assert forall|j: int| 0 <= j < i - 1 implies !(s.drop_first()[j] == 33u8
            || s.drop_first()[j] == 32u8) by {
            assert(s.drop_first()[j] == s[j + 1]);
        }
        if i < s.len() {
            assert(s.drop_first()[i - 1] == s[i]);
        }
        lemma_first_liveness_at(s.drop_first(), i - 1);
        assert(!(s[0] == 33u8 || s[0] == 32u8));
    }
}

impl AprsItem {
    /// Decode from the information field (including the leading `)` DTI byte).
    pub fn parse(info: &[u8]) -> (r: Result<Self, AprsError>)
        ensures
            match (r, spec_parse_item(info@)) {
                (Ok(it), Ok(v)) => it@ == v,
                (Err(e), Err(v)) => e@ == v,
                _ => false,
            },
    {
        if info.len() < 5 {
            return Err(AprsError::InvalidItem { detail: "packet too short" });
        }
        let end: usize = if info.len() < 11 {
            info.len()
        } else {
            11
        };
        let w = vstd::slice::slice_subrange(info, 1, end);
        assert(w@ =~= name_window(info@));
        let mut i: usize = 0;
        while i < w.len() && w[i] != '!' as u8 && w[i] != ' ' as u8
            invariant
                i <= w@.len(),
                forall|j: int| 0 <= j < i ==> !(w@[j] == 33u8 || w@[j] == 32u8),
            decreases w.len() - i,
        {
            i = i + 1;
        }
        proof {
            lemma_first_liveness_at(w@, i as int);
        }
        let name = copy_range(w, 0, i);
        if name.len() < 3 {
            assert(name@ =~= (if i < w@.len() { w@.subrange(0, i as int) } else { w@ }));
            return Err(AprsError::InvalidItem { detail: "name too short (< 3 chars)" });
        }
        if i == w.len() {
            return Err(AprsError::InvalidItem { detail: "liveness byte not found" });
        }
        let live = w[i] == '!' as u8;
        let position_bytes = vstd::slice::slice_subrange(info, i + 2, info.len());
        let (remaining, position) = match Position::parse(position_bytes) {
            Ok(x) => x,
            Err(e) => {
                return Err(e);
            },
        };
        let comment_raw = match remaining {
            Some(r) => r,
            None => vstd::slice::slice_subrange(position_bytes, 0, 0),
        };
        let (extension, comment) = comment_extension(&position, comment_raw);
        Ok(AprsItem { name, live, position, extension, comment })
    }

    pub fn encode(&self) -> (r: Vec<u8>)
        requires
            position_ext_encodable(self.position@, self.extension),
        ensures
            r@ == spec_encode_item(self@),
    {
        let mut out: Vec<u8> = Vec::new();
        out.push(')' as u8);
        extend(&mut out, self.name.as_slice());
        out.push(
            if self.live {
                '!' as u8
            } else {
                ' ' as u8
            },
        );
        encode_position_ext(&self.position, &self.extension, &mut out);
        extend(&mut out, self.comment.as_slice());
        assert(out@ =~= spec_encode_item(self@));
        out
    }
}

proof fn lemma_first_liveness(s: Seq<u8>)
    ensures
        -1 <= first_liveness(s) < s.len(),
        first_liveness(s) >= 0 ==> (s[first_liveness(s)] == 33u8 || s[first_liveness(s)] == 32u8),
        forall|j: int|
            0 <= j < s.len() && (first_liveness(s) < 0 || j < first_liveness(s)) ==> !(s[j] == 33u8
                || s[j] == 32u8),
    decreases s.len(),
{
    if s.len() > 0 && !(s[0] == 33u8 || s[0] == 32u8) {
        lemma_first_liveness(s.drop_first());
        assert forall|j: int|
            0 <= j < s.len() && (first_liveness(s) < 0 || j < first_liveness(s)) implies !(s[j]
                == 33u8 || s[j] == 32u8) by {
            if j > 0 {
                assert(s[j] == s.drop_first()[j - 1]);
            }
        }
    }
}

/// A decoded item report whose position and extension can be written
/// decodes back from its written form.
#[verifier::spinoff_prover]
#[verifier::rlimit(30)]
pub proof fn lemma_item_round_trip(info: Seq<u8>)
    requires
        spec_parse_item(info) is Ok,
        position_ext_encodable(
            spec_parse_item(info)->Ok_0.position,
            spec_parse_item(info)->Ok_0.extension,
        ),
    ensures
        spec_parse_item(spec_encode_item(spec_parse_item(info)->Ok_0)) == spec_parse_item(info),
        spec_encode_item(spec_parse_item(info)->Ok_0)[0] == 41u8,
{
    let it = spec_parse_item(info)->Ok_0;
    let w = name_window(info);
    lemma_first_liveness(w);
    let k = first_liveness(w);
    let pb = info.subrange(k + 2, info.len() as int);
    lemma_position_ext_round_trip(pb);
    let name = it.name;
    assert(name =~= w.subrange(0, k));
    let pe = spec_encode_position_ext(it.position, it.extension);
    let lb: u8 = if it.live {
        33u8
    } else {
        32u8
    };
    let e = spec_encode_item(it);
    assert(e =~= seq![41u8] + name + seq![lb] + (pe + it.comment));
    let w2 = name_window(e);
    assert(k < 10);
    assert forall|j: int| 0 <= j < k implies !(w2[j] == 33u8 || w2[j] == 32u8) by {
        assert(w2[j] == name[j]);
        assert(name[j] == w[j]);
    }
    assert(w2[k] == lb);
    lemma_first_liveness_at(w2, k);
    assert(w2.subrange(0, k) =~= name);
    assert(e.subrange(k + 2, e.len() as int) =~= pe + it.comment);
}

/// A name of three to nine bytes, none of them `!` or a space, followed by
/// `!` (live) or a space (killed) and a position that decodes, is read as an
/// item with that name and liveness.
pub proof fn lemma_item_name_accepted(name: Seq<u8>, lb: u8, rest: Seq<u8>)
    requires
        3 <= name.len() <= 9,
        forall|j: int| 0 <= j < name.len() ==> !(#[trigger] name[j] == 33u8 || name[j] == 32u8),
        lb == 33u8 || lb == 32u8,
        spec_parse_position(rest) is Ok,
    ensures
        spec_parse_item(seq![41u8] + name + seq![lb] + rest) matches Ok(it) && it.name == name
            && it.live == (lb == 33u8),
{
    let info = seq![41u8] + name + seq![lb] + rest;
    let w = name_window(info);
    let k = name.len() as int;
    assert forall|j: int| 0 <= j < k implies !(w[j] == 33u8 || w[j] == 32u8) by {
        assert(w[j] == name[j]);
    }
    assert(w[k] == lb);
    lemma_first_liveness_at(w, k);
    assert(w.subrange(0, k) =~= name);
    assert(info.subrange(k + 2, info.len() as int) =~= rest);
}

impl Clone for AprsItem {
    fn clone(&self) -> (r: Self)
        ensures
            r@ == self@,
    {
        AprsItem {
            name: crate::util::copy_vec(&self.name),
            live: self.live,
            position: self.position,
            extension: self.extension,
            comment: crate::util::copy_vec(&self.comment),
        }
    }
}


/// An item report that decodes still decodes with bytes appended.
pub proof fn lemma_item_extend(info: Seq<u8>, t: Seq<u8>)
    requires
        spec_parse_item(info) is Ok,
    ensures
        spec_parse_item(info + t) is Ok,
{
    let c = info + t;
    let w = name_window(info);
    lemma_first_liveness(w);
    let k = first_liveness(w);
    let pb = info.subrange(k + 2, info.len() as int);
    assert(spec_parse_position(pb) is Ok);
    crate::location::lemma_position_extend(pb, t);
    assert(pb.len() >= 13) by {
        reveal(crate::lonlat::spec_parse_lat_uncompressed);
    }
    assert(info.len() >= 11);
    assert(name_window(c) =~= w);
    assert(c.subrange(k + 2, c.len() as int) =~= pb + t);
    assert(c[k + 1] == info[k + 1]);
}

} // verus!
