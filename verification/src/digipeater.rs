//! The via path of a packet: digipeaters and APRS-IS Q-constructs.
use crate::callsign::{
    callsign_wf, is_call_byte, lemma_callsign_round_trip, lemma_decode_callsign_wf,
    spec_decode_callsign, spec_encode_callsign, unknown_call, Callsign, CallsignView,
};
use crate::error::{AprsError, AprsErrorView};
use crate::text::{string_from_utf8_lossy, utf8_lossy};
use crate::util::{
    copy_from, ends_with, extend, is_upper, join, lacks, lemma_split_join, spec_split, split_exec,
    starts_with,
};
use vstd::prelude::*;
use vstd::string::StringSliceAdditionalSpecFns;
use vstd::utf8::{decode_utf8, encode_utf8, valid_utf8};

verus! {

/// A Q-construct used on APRS-IS to describe how a packet entered the internet.
///
/// Defined in the APRS-IS Q-construct specification.
#[derive(Debug, PartialEq, Eq, Hash)]
pub enum QConstruct {
    /// qAC — server login verified
    Ac,
    /// qAX — no verification (unverified login)
    Ax,
    /// qAO — heard via RF, originated on internet
    Ao,
    /// qAR — via bidirectional internet gateway
    Ar,
    /// qAS — via server without verification
    As,
    /// qAT — traced via internet
    At,
    /// qAI — server-generated packet
    Ai,
    /// qAo — heard directly via RF (lowercase o)
    AoRf,
    /// qAr — received from RF to internet
    ArRf,
    /// qAZ — zero hop (RF or direct)
    Az,
    /// Unknown Q-construct token
    Unknown(String),
}

/// Mathematical model of [`QConstruct`].
pub enum QConstructView {
    Ac,
    Ax,
    Ao,
    Ar,
    As,
    At,
    Ai,
    AoRf,
    ArRf,
    Az,
    Unknown(Seq<char>),
}

impl View for QConstruct {
    type V = QConstructView;

    open spec fn view(&self) -> QConstructView {
        match self {
            QConstruct::Ac => QConstructView::Ac,
            QConstruct::Ax => QConstructView::Ax,
            QConstruct::Ao => QConstructView::Ao,
            QConstruct::Ar => QConstructView::Ar,
            QConstruct::As => QConstructView::As,
            QConstruct::At => QConstructView::At,
            QConstruct::Ai => QConstructView::Ai,
            QConstruct::AoRf => QConstructView::AoRf,
            QConstruct::ArRf => QConstructView::ArRf,
            QConstruct::Az => QConstructView::Az,
            QConstruct::Unknown(s) => QConstructView::Unknown(s@),
        }
    }
}

/// `qA` followed by one byte.
pub open spec fn q_token(c: u8) -> Seq<u8> {
    seq![113u8, 65u8, c]
}

/// The Q-construct written as `bytes`; any token but the ten known ones is
/// kept as text (invalid UTF-8 replaced).
pub open spec fn spec_qconstruct_from(bytes: Seq<u8>) -> QConstructView {
    if bytes == q_token(67) {
        QConstructView::Ac
    } else if bytes == q_token(88) {
        QConstructView::Ax
    } else if bytes == q_token(79) {
        QConstructView::Ao
    } else if bytes == q_token(82) {
        QConstructView::Ar
    } else if bytes == q_token(83) {
        QConstructView::As
    } else if bytes == q_token(84) {
        QConstructView::At
    } else if bytes == q_token(73) {
        QConstructView::Ai
    } else if bytes == q_token(111) {
        QConstructView::AoRf
    } else if bytes == q_token(114) {
        QConstructView::ArRf
    } else if bytes == q_token(90) {
        QConstructView::Az
    } else if valid_utf8(bytes) {
        QConstructView::Unknown(decode_utf8(bytes))
    } else {
        QConstructView::Unknown(utf8_lossy(bytes))
    }
}

/// The wire bytes of a Q-construct.
pub open spec fn spec_qconstruct_bytes(q: QConstructView) -> Seq<u8> {
    match q {
        QConstructView::Ac => q_token(67),
        QConstructView::Ax => q_token(88),
        QConstructView::Ao => q_token(79),
        QConstructView::Ar => q_token(82),
        QConstructView::As => q_token(83),
        QConstructView::At => q_token(84),
        QConstructView::Ai => q_token(73),
        QConstructView::AoRf => q_token(111),
        QConstructView::ArRf => q_token(114),
        QConstructView::Az => q_token(90),
        QConstructView::Unknown(s) => encode_utf8(s),
    }
}

/// The letter that names a known Q-construct after `qA`: `qAC` is `Ac`, `qAX`
/// `Ax`, `qAO` `Ao`, `qAR` `Ar`, `qAS` `As`, `qAT` `At`, `qAI` `Ai`, `qAo`
/// `AoRf`, `qAr` `ArRf`, `qAZ` `Az`.
pub open spec fn q_letter(q: QConstructView) -> Option<u8> {
    match q {
        QConstructView::Ac => Some('C' as u8),
        QConstructView::Ax => Some('X' as u8),
        QConstructView::Ao => Some('O' as u8),
        QConstructView::Ar => Some('R' as u8),
        QConstructView::As => Some('S' as u8),
        QConstructView::At => Some('T' as u8),
        QConstructView::Ai => Some('I' as u8),
        QConstructView::AoRf => Some('o' as u8),
        QConstructView::ArRf => Some('r' as u8),
        QConstructView::Az => Some('Z' as u8),
        QConstructView::Unknown(_) => None,
    }
}

/// A token reads as a known Q-construct exactly when it is `qA` followed by
/// one of the letters `C X O R S T I o r Z`, and then as the construct that
/// letter names.
pub proof fn lemma_qconstruct_from_letter(bytes: Seq<u8>)
    ensures
        !(spec_qconstruct_from(bytes) is Unknown) <==> (bytes.len() == 3 && bytes[0] == 113u8
            && bytes[1] == 65u8 && (bytes[2] == 67u8 || bytes[2] == 88u8 || bytes[2] == 79u8
            || bytes[2] == 82u8 || bytes[2] == 83u8 || bytes[2] == 84u8 || bytes[2] == 73u8
            || bytes[2] == 111u8 || bytes[2] == 114u8 || bytes[2] == 90u8)),
        !(spec_qconstruct_from(bytes) is Unknown) ==> q_letter(spec_qconstruct_from(bytes)) == Some(
            bytes[2],
        ),
{
    if bytes.len() == 3 && bytes[0] == 113u8 && bytes[1] == 65u8 {
        assert(bytes =~= q_token(bytes[2]));
    }
}

/// A known Q-construct is written as `qA` and the letter that names it.
pub proof fn lemma_qconstruct_bytes_letter(q: QConstructView)
    requires
        !(q is Unknown),
    ensures
        q_letter(q) is Some,
        spec_qconstruct_bytes(q) == seq![113u8, 65u8, q_letter(q)->0],
{
}

fn is_q_token(bytes: &[u8], c: u8) -> (r: bool)
    ensures
        r == (bytes@ == q_token(c)),
{
    let r = bytes.len() == 3 && bytes[0] == 'q' as u8 && bytes[1] == 'A' as u8 && bytes[2] == c;
    proof {
        if r {
            assert(bytes@ =~= q_token(c));
        }
    }
    r
}

impl QConstruct {
    /// The Q-construct written as `bytes`.
    pub fn from_bytes(bytes: &[u8]) -> (r: Self)
        ensures
            r@ == spec_qconstruct_from(bytes@),
    {
        if is_q_token(bytes, 'C' as u8) {
            QConstruct::Ac
        } else if is_q_token(bytes, 'X' as u8) {
            QConstruct::Ax
        } else if is_q_token(bytes, 'O' as u8) {
            QConstruct::Ao
        } else if is_q_token(bytes, 'R' as u8) {
            QConstruct::Ar
        } else if is_q_token(bytes, 'S' as u8) {
            QConstruct::As
        } else if is_q_token(bytes, 'T' as u8) {
            QConstruct::At
        } else if is_q_token(bytes, 'I' as u8) {
            QConstruct::Ai
        } else if is_q_token(bytes, 'o' as u8) {
            QConstruct::AoRf
        } else if is_q_token(bytes, 'r' as u8) {
            QConstruct::ArRf
        } else if is_q_token(bytes, 'Z' as u8) {
            QConstruct::Az
        } else {
            QConstruct::Unknown(string_from_utf8_lossy(bytes))
        }
    }

    /// Append the wire bytes of this Q-construct.
    pub fn encode(&self, out: &mut Vec<u8>)
        ensures
            final(out)@ == old(out)@ + spec_qconstruct_bytes(self@),
    {
        let c: u8 = match self {
            QConstruct::Ac => 'C' as u8,
            QConstruct::Ax => 'X' as u8,
            QConstruct::Ao => 'O' as u8,
            QConstruct::Ar => 'R' as u8,
            QConstruct::As => 'S' as u8,
            QConstruct::At => 'T' as u8,
            QConstruct::Ai => 'I' as u8,
            QConstruct::AoRf => 'o' as u8,
            QConstruct::ArRf => 'r' as u8,
            QConstruct::Az => 'Z' as u8,
            QConstruct::Unknown(s) => {
                extend(out, s.as_str().as_bytes());
                return ;
            },
        };
        out.push('q' as u8);
        out.push('A' as u8);
        out.push(c);
        assert(final(out)@ =~= old(out)@ + spec_qconstruct_bytes(self@));
    }

    /// The token as text (`qAR`, …).
    pub fn to_string(&self) -> (r: String)
        ensures
            encode_utf8(r@) == spec_qconstruct_bytes(self@),
    {
        let mut out: Vec<u8> = Vec::new();
        self.encode(&mut out);
        proof {
            match self@ {
                QConstructView::Unknown(s) => {
                    vstd::utf8::encode_utf8_valid_utf8(s);
                    vstd::utf8::encode_utf8_decode_utf8(s);
                },
                _ => {
                    crate::text::lemma_ascii_utf8(out@);
                    vstd::utf8::decode_utf8_encode_utf8(out@);
                },
            }
        }
        string_from_utf8_lossy(out.as_slice())
    }
}

/// One element of the APRS via path (the digipeater list).
#[derive(Debug, PartialEq, Eq, Hash)]
pub enum Digipeater {
    /// A callsign-based digipeater path element, with optional "has-been-heard" flag (`*`).
    Callsign(Callsign, bool),
    /// An APRS-IS Q-construct (e.g. `qAR,IGATE`).
    QConstruct(QConstruct, Callsign),
}

/// Mathematical model of [`Digipeater`].
pub enum DigipeaterView {
    Callsign(CallsignView, bool),
    QConstruct(QConstructView, CallsignView),
}

impl View for Digipeater {
    type V = DigipeaterView;

    open spec fn view(&self) -> DigipeaterView {
        match self {
            Digipeater::Callsign(c, h) => DigipeaterView::Callsign(c@, *h),
            Digipeater::QConstruct(q, g) => DigipeaterView::QConstruct(q@, g@),
        }
    }
}

/// The placeholder gateway `UNKNOWN`.
pub open spec fn unknown_gateway() -> CallsignView {
    CallsignView { call: unknown_call(), ssid: None }
}

pub open spec fn q_prefix() -> Seq<u8> {
    seq![113u8, 65u8]
}

/// One via element written as `input`: a `qA…` token (its gateway unknown),
/// or a callsign with an optional trailing `*` (heard).
pub open spec fn spec_decode_digipeater(input: Seq<u8>) -> Result<DigipeaterView, AprsErrorView> {
    if starts_with(input, q_prefix()) {
        Ok(DigipeaterView::QConstruct(spec_qconstruct_from(input), unknown_gateway()))
    } else {
        let heard = ends_with(input, seq![42u8]);
        let call = if heard {
            input.subrange(0, input.len() - 1)
        } else {
            input
        };
        match spec_decode_callsign(call) {
            Ok(c) => Ok(DigipeaterView::Callsign(c, heard)),
            Err(_) => Err(AprsErrorView::InvalidVia { raw: input }),
        }
    }
}

/// The textual form of a via element.
pub open spec fn spec_encode_digipeater(d: DigipeaterView) -> Seq<u8> {
    match d {
        DigipeaterView::Callsign(c, heard) => spec_encode_callsign(c) + if heard {
            seq![42u8]
        } else {
            Seq::empty()
        },
        DigipeaterView::QConstruct(q, gw) => spec_qconstruct_bytes(q) + seq![44u8]
            + spec_encode_callsign(gw),
    }
}

/// `d` in front of the elements that follow, or the first error.
pub open spec fn prepend(d: DigipeaterView, rest: Result<Seq<DigipeaterView>, AprsErrorView>) -> Result<
    Seq<DigipeaterView>,
    AprsErrorView,
> {
    match rest {
        Ok(s) => Ok(seq![d] + s),
        Err(e) => Err(e),
    }
}

/// The via elements from `elems[i]` on: a `qA…` token takes the element after
/// it as its gateway callsign (`UNKNOWN` when there is none).
pub open spec fn via_from(elems: Seq<Seq<u8>>, i: int) -> Result<Seq<DigipeaterView>, AprsErrorView>
    decreases elems.len() - i,
{
    if i < 0 || i >= elems.len() {
        Ok(Seq::empty())
    } else if starts_with(elems[i], q_prefix()) {
        let q = spec_qconstruct_from(elems[i]);
        if i + 1 < elems.len() {
            match spec_decode_callsign(elems[i + 1]) {
                Err(_) => Err(AprsErrorView::InvalidVia { raw: elems[i + 1] }),
                Ok(gw) => prepend(DigipeaterView::QConstruct(q, gw), via_from(elems, i + 2)),
            }
        } else {
            Ok(seq![DigipeaterView::QConstruct(q, unknown_gateway())])
        }
    } else {
        match spec_decode_digipeater(elems[i]) {
            Err(e) => Err(e),
            Ok(d) => prepend(d, via_from(elems, i + 1)),
        }
    }
}

/// The via list written as `bytes` (the comma-separated portion between
/// `>TO` and `:`).
pub open spec fn spec_parse_via(bytes: Seq<u8>) -> Result<Seq<DigipeaterView>, AprsErrorView> {
    if bytes.len() == 0 {
        Ok(Seq::empty())
    } else {
        via_from(spec_split(bytes, 44u8), 0)
    }
}

/// A via element whose callsigns are well formed.
pub open spec fn digi_wf(d: DigipeaterView) -> bool {
    match d {
        DigipeaterView::Callsign(c, _) => callsign_wf(c),
        DigipeaterView::QConstruct(_, gw) => callsign_wf(gw),
    }
}

pub open spec fn via_wf(vs: Seq<DigipeaterView>) -> bool {
    forall|i: int| 0 <= i < vs.len() ==> digi_wf(#[trigger] vs[i])
}

/// A Q-construct that its written token gives back as a via piece: a known
/// one, or an unrecognised one whose text is written as a `qA…` piece free of
/// `,` and `:` that reads back as the same text.
pub open spec fn q_exact(q: QConstructView) -> bool {
    match q {
        QConstructView::Unknown(s) => {
            let b = encode_utf8(s);
            &&& starts_with(b, q_prefix())
            &&& lacks(b, 44u8)
            &&& lacks(b, 58u8)
            &&& spec_qconstruct_from(b) == q
        },
        _ => true,
    }
}

/// A via element whose Q-construct, if it has one, is given back by its token.
pub open spec fn digi_q_exact(d: DigipeaterView) -> bool {
    d matches DigipeaterView::QConstruct(q, _) ==> q_exact(q)
}

/// Every Q-construct of a via path is given back by its token.
pub open spec fn via_q_exact(vs: Seq<DigipeaterView>) -> bool {
    forall|i: int| 0 <= i < vs.len() ==> digi_q_exact(#[trigger] vs[i])
}

/// The comma-separated pieces that a via element is written as.
pub open spec fn digi_pieces(d: DigipeaterView) -> Seq<Seq<u8>> {
    match d {
        DigipeaterView::Callsign(_, _) => seq![spec_encode_digipeater(d)],
        DigipeaterView::QConstruct(q, gw) => seq![
            spec_qconstruct_bytes(q),
            spec_encode_callsign(gw),
        ],
    }
}

/// The comma-separated pieces that a via path is written as.
pub open spec fn via_pieces(vs: Seq<DigipeaterView>) -> Seq<Seq<u8>>
    decreases vs.len(),
{
    if vs.len() == 0 {
        Seq::empty()
    } else {
        digi_pieces(vs[0]) + via_pieces(vs.drop_first())
    }
}

/// A piece of a written via path: not empty, and free of the bytes that
/// delimit it in the header (`,` and `:`).
pub open spec fn header_piece(p: Seq<u8>) -> bool {
    &&& p.len() > 0
    &&& lacks(p, 44u8)
    &&& lacks(p, 58u8)
}

/// The written form of a well-formed callsign is a header piece.
pub proof fn lemma_callsign_piece(c: CallsignView)
    requires
        callsign_wf(c),
    ensures
        header_piece(spec_encode_callsign(c)),
{
    lemma_callsign_round_trip(c);
    let e = spec_encode_callsign(c);
    assert forall|i: int| 0 <= i < e.len() implies #[trigger] e[i] != 44u8 && e[i] != 58u8
        by {
        assert(is_call_byte(e[i]) || e[i] == 45u8);
    }
}

proof fn lemma_digi_pieces(d: DigipeaterView)
    requires
        digi_wf(d),
        digi_q_exact(d),
    ensures
        forall|i: int| 0 <= i < digi_pieces(d).len() ==> header_piece(#[trigger] digi_pieces(d)[i]),
        join(digi_pieces(d), 44u8) == spec_encode_digipeater(d),
{
    match d {
        DigipeaterView::Callsign(c, h) => {
            lemma_callsign_piece(c);
            let e = spec_encode_digipeater(d);
            let ec = spec_encode_callsign(c);
            assert forall|i: int| 0 <= i < e.len() implies #[trigger] e[i] != 44u8 && e[i] != 58u8
                by {
                if i < ec.len() {
                    assert(e[i] == ec[i]);
                } else {
                    assert(e[i] == 42u8);
                }
            }
            assert(digi_pieces(d).len() == 1);
            assert(digi_pieces(d)[0] == e);
            assert(join(digi_pieces(d), 44u8) == e);
        },
        DigipeaterView::QConstruct(q, gw) => {
            lemma_callsign_piece(gw);
            let qb = spec_qconstruct_bytes(q);
            if q is Unknown {
                assert(qb.len() >= 2);
            } else {
                assert(qb.len() == 3);
                assert forall|i: int| 0 <= i < qb.len() implies #[trigger] qb[i] != 44u8 && qb[i]
                    != 58u8 by {}
            }
            assert(digi_pieces(d).drop_first() =~= seq![spec_encode_callsign(gw)]);
            assert(join(digi_pieces(d).drop_first(), 44u8) == spec_encode_callsign(gw));
            assert(join(digi_pieces(d), 44u8) =~= spec_encode_digipeater(d));
        },
    }
}

/// The pieces of a via path with an element added at the end.
pub proof fn lemma_via_pieces_push(vs: Seq<DigipeaterView>, d: DigipeaterView)
    ensures
        via_pieces(vs.push(d)) == via_pieces(vs) + digi_pieces(d),
    decreases vs.len(),
{
    if vs.len() == 0 {
        assert(vs.push(d).drop_first() =~= Seq::<DigipeaterView>::empty());
        assert(vs.push(d)[0] == d);
        assert(via_pieces(Seq::<DigipeaterView>::empty()) =~= Seq::<Seq<u8>>::empty());
        assert(via_pieces(vs.push(d)) =~= digi_pieces(d));
        assert(via_pieces(vs) =~= Seq::<Seq<u8>>::empty());
    } else {
        lemma_via_pieces_push(vs.drop_first(), d);
        assert(vs.push(d).drop_first() =~= vs.drop_first().push(d));
        assert(via_pieces(vs.push(d)) =~= via_pieces(vs) + digi_pieces(d));
    }
}

/// Every piece of a via path of well-formed elements whose Q-constructs are
/// given back by their tokens is a header piece, and a non-empty path has at
/// least one.
pub proof fn lemma_via_pieces(vs: Seq<DigipeaterView>)
    requires
        via_wf(vs),
        via_q_exact(vs),
    ensures
        forall|i: int| 0 <= i < via_pieces(vs).len() ==> header_piece(#[trigger] via_pieces(vs)[i]),
        vs.len() > 0 ==> via_pieces(vs).len() > 0,
    decreases vs.len(),
{
    if vs.len() > 0 {
        let rest = vs.drop_first();
        assert forall|i: int| 0 <= i < rest.len() implies digi_wf(#[trigger] rest[i]) by {
            assert(rest[i] == vs[i + 1]);
        }
        assert forall|i: int| 0 <= i < rest.len() implies digi_q_exact(#[trigger] rest[i]) by {
            assert(rest[i] == vs[i + 1]);
        }
        lemma_via_pieces(rest);
        assert(digi_wf(vs[0]));
        assert(digi_q_exact(vs[0]));
        lemma_digi_pieces(vs[0]);
        let a = digi_pieces(vs[0]);
        let b = via_pieces(rest);
        assert forall|i: int| 0 <= i < via_pieces(vs).len() implies header_piece(
            #[trigger] via_pieces(vs)[i],
        ) by {
            if i < a.len() {
                assert(via_pieces(vs)[i] == a[i]);
            } else {
                assert(via_pieces(vs)[i] == b[i - a.len()]);
            }
        }
    }
}

proof fn lemma_unknown_gateway_wf()
    ensures
        callsign_wf(unknown_gateway()),
{
    let c = unknown_call();
    assert forall|i: int| 0 <= i < c.len() implies is_call_byte(#[trigger] c[i]) by {
        assert(is_upper(c[i]));
    }
}

/// The via elements that parse from the pieces `elems` are well formed.
proof fn lemma_via_from_wf(elems: Seq<Seq<u8>>, i: int)
    requires
        via_from(elems, i) is Ok,
    ensures
        via_wf(via_from(elems, i)->Ok_0),
    decreases elems.len() - i,
{
    if i < 0 || i >= elems.len() {
    } else if starts_with(elems[i], q_prefix()) {
        if i + 1 < elems.len() {
            lemma_decode_callsign_wf(elems[i + 1]);
            lemma_via_from_wf(elems, i + 2);
            let rest = via_from(elems, i + 2)->Ok_0;
            let all = via_from(elems, i)->Ok_0;
            assert forall|j: int| 0 <= j < all.len() implies digi_wf(#[trigger] all[j]) by {
                if j > 0 {
                    assert(all[j] == rest[j - 1]);
                }
            }
        } else {
            lemma_unknown_gateway_wf();
            let all = via_from(elems, i)->Ok_0;
            assert(all.len() == 1);
        }
    } else {
        let input = elems[i];
        let heard = ends_with(input, seq![42u8]);
        let call = if heard {
            input.subrange(0, input.len() - 1)
        } else {
            input
        };
        lemma_decode_callsign_wf(call);
        lemma_via_from_wf(elems, i + 1);
        let rest = via_from(elems, i + 1)->Ok_0;
        let all = via_from(elems, i)->Ok_0;
        assert forall|j: int| 0 <= j < all.len() implies digi_wf(#[trigger] all[j]) by {
            if j > 0 {
                assert(all[j] == rest[j - 1]);
            }
        }
    }
}

/// A via path that parses is well formed.
pub proof fn lemma_parse_via_wf(bytes: Seq<u8>)
    requires
        spec_parse_via(bytes) is Ok,
    ensures
        via_wf(spec_parse_via(bytes)->Ok_0),
{
    if bytes.len() > 0 {
        lemma_via_from_wf(spec_split(bytes, 44u8), 0);
    }
}

proof fn lemma_via_from_callsign(elems: Seq<Seq<u8>>, i: int, d: DigipeaterView)
    requires
        0 <= i < elems.len(),
        d is Callsign,
        digi_wf(d),
        elems[i] == spec_encode_digipeater(d),
    ensures
        via_from(elems, i) == prepend(d, via_from(elems, i + 1)),
{
    let e = spec_encode_digipeater(d);
    if let DigipeaterView::Callsign(c, h) = d {
        let ec = spec_encode_callsign(c);
        lemma_callsign_round_trip(c);
        assert(is_call_byte(ec[0]));
        if e.len() >= 2 {
            assert(e.subrange(0, 2)[0] == ec[0]);
        }
        assert(!starts_with(e, q_prefix()));
        if h {
            assert(e.subrange(e.len() - 1, e.len() as int) =~= seq![42u8]);
            assert(e.subrange(0, e.len() - 1) =~= ec);
        } else {
            assert(e == ec);
            assert(is_call_byte(ec[ec.len() - 1]) || ec[ec.len() - 1] == 45u8);
            assert(e.subrange(e.len() - 1, e.len() as int)[0] == ec[ec.len() - 1]);
        }
        assert(spec_decode_digipeater(e) == Ok::<DigipeaterView, AprsErrorView>(d));
    }
}

proof fn lemma_via_from_q(elems: Seq<Seq<u8>>, i: int, d: DigipeaterView)
    requires
        0 <= i,
        i + 1 < elems.len(),
        d is QConstruct,
        digi_wf(d),
        digi_q_exact(d),
        elems[i] == digi_pieces(d)[0],
        elems[i + 1] == digi_pieces(d)[1],
    ensures
        via_from(elems, i) == prepend(d, via_from(elems, i + 2)),
{
    if let DigipeaterView::QConstruct(q, gw) = d {
        let qb = spec_qconstruct_bytes(q);
        lemma_callsign_round_trip(gw);
        if !(q is Unknown) {
            assert(qb.subrange(0, 2) =~= q_prefix());
        }
        assert(spec_qconstruct_from(qb) == q);
    }
}

proof fn lemma_via_rest(vs: Seq<DigipeaterView>)
    requires
        vs.len() > 0,
        via_wf(vs),
        via_q_exact(vs),
    ensures
        via_wf(vs.drop_first()),
        via_q_exact(vs.drop_first()),
        digi_wf(vs[0]),
        digi_q_exact(vs[0]),
{
    let rest = vs.drop_first();
    assert forall|k: int| 0 <= k < rest.len() implies digi_wf(#[trigger] rest[k]) by {
        assert(rest[k] == vs[k + 1]);
    }
    assert forall|k: int| 0 <= k < rest.len() implies digi_q_exact(#[trigger] rest[k]) by {
        assert(rest[k] == vs[k + 1]);
    }
}

proof fn lemma_via_from_step(pre: Seq<Seq<u8>>, vs: Seq<DigipeaterView>)
    requires
        vs.len() > 0,
        digi_wf(vs[0]),
        digi_q_exact(vs[0]),
        via_from(pre + digi_pieces(vs[0]) + via_pieces(vs.drop_first()), (pre + digi_pieces(vs[0])).len() as int)
            == Ok::<Seq<DigipeaterView>, AprsErrorView>(vs.drop_first()),
    ensures
        via_from(pre + via_pieces(vs), pre.len() as int) == Ok::<
            Seq<DigipeaterView>,
            AprsErrorView,
        >(vs),
{
    let d = vs[0];
    let rest = vs.drop_first();
    let pre2 = pre + digi_pieces(d);
    let elems = pre + via_pieces(vs);
    let i = pre.len() as int;
    assert(via_pieces(vs) == digi_pieces(d) + via_pieces(rest));
    assert(elems =~= pre2 + via_pieces(rest));
    assert(vs =~= seq![d] + rest);
    if d is Callsign {
        assert(elems[i] == digi_pieces(d)[0]);
        assert(pre2.len() == i + 1);
        lemma_via_from_callsign(elems, i, d);
    } else {
        assert(elems[i] == digi_pieces(d)[0]);
        assert(elems[i + 1] == digi_pieces(d)[1]);
        assert(pre2.len() == i + 2);
        lemma_via_from_q(elems, i, d);
    }
}

/// Parsing the pieces of a via path, after any earlier pieces, gives the path
/// back.
proof fn lemma_via_from_pieces(pre: Seq<Seq<u8>>, vs: Seq<DigipeaterView>)
    requires
        via_wf(vs),
        via_q_exact(vs),
    ensures
        via_from(pre + via_pieces(vs), pre.len() as int) == Ok::<
            Seq<DigipeaterView>,
            AprsErrorView,
        >(vs),
    decreases vs.len(),
{
    if vs.len() == 0 {
        assert(pre + via_pieces(vs) =~= pre);
        assert(vs =~= Seq::<DigipeaterView>::empty());
    } else {
        lemma_via_rest(vs);
        lemma_via_from_pieces(pre + digi_pieces(vs[0]), vs.drop_first());
        lemma_via_from_step(pre, vs);
    }
}

proof fn lemma_via_from_q_exact(elems: Seq<Seq<u8>>, i: int)
    requires
        via_from(elems, i) is Ok,
        forall|j: int| 0 <= j < elems.len() ==> valid_utf8(#[trigger] elems[j]),
        forall|j: int| 0 <= j < elems.len() ==> lacks(#[trigger] elems[j], 44u8),
        forall|j: int| 0 <= j < elems.len() ==> lacks(#[trigger] elems[j], 58u8),
    ensures
        via_q_exact(via_from(elems, i)->Ok_0),
    decreases elems.len() - i,
{
    if i < 0 || i >= elems.len() {
    } else if starts_with(elems[i], q_prefix()) {
        let q = spec_qconstruct_from(elems[i]);
        if q is Unknown {
            vstd::utf8::decode_utf8_encode_utf8(elems[i]);
            assert(encode_utf8(decode_utf8(elems[i])) == elems[i]);
        }
        assert(q_exact(q));
        if i + 1 < elems.len() {
            lemma_via_from_q_exact(elems, i + 2);
            let rest = via_from(elems, i + 2)->Ok_0;
            let all = via_from(elems, i)->Ok_0;
            assert forall|j: int| 0 <= j < all.len() implies digi_q_exact(#[trigger] all[j]) by {
                if j > 0 {
                    assert(all[j] == rest[j - 1]);
                }
            }
        }
    } else {
        lemma_via_from_q_exact(elems, i + 1);
        let rest = via_from(elems, i + 1)->Ok_0;
        let all = via_from(elems, i)->Ok_0;
        assert forall|j: int| 0 <= j < all.len() implies digi_q_exact(#[trigger] all[j]) by {
            if j > 0 {
                assert(all[j] == rest[j - 1]);
            }
        }
    }
}

/// The Q-constructs of a via path read from text free of `:`, whose
/// comma-separated pieces are valid UTF-8, are given back by their tokens.
pub proof fn lemma_parse_via_q_exact(bytes: Seq<u8>)
    requires
        spec_parse_via(bytes) is Ok,
        lacks(bytes, 58u8),
        forall|i: int|
            0 <= i < spec_split(bytes, 44u8).len() ==> valid_utf8(
                #[trigger] spec_split(bytes, 44u8)[i],
            ),
    ensures
        via_q_exact(spec_parse_via(bytes)->Ok_0),
{
    if bytes.len() > 0 {
        crate::util::lemma_split_pieces(bytes, 44u8, 58u8);
        lemma_via_from_q_exact(spec_split(bytes, 44u8), 0);
    }
}

/// Parsing the written pieces of a non-empty via path of well-formed elements,
/// whose Q-constructs are given back by their tokens, gives the path back.
pub proof fn lemma_via_round_trip(vs: Seq<DigipeaterView>)
    requires
        vs.len() > 0,
        via_wf(vs),
        via_q_exact(vs),
    ensures
        spec_parse_via(join(via_pieces(vs), 44u8)) == Ok::<Seq<DigipeaterView>, AprsErrorView>(vs),
        forall|i: int| 0 <= i < via_pieces(vs).len() ==> header_piece(#[trigger] via_pieces(vs)[i]),
        via_pieces(vs).len() > 0,
{
    lemma_via_pieces(vs);
    let ps = via_pieces(vs);
    assert forall|i: int| 0 <= i < ps.len() implies lacks(#[trigger] ps[i], 44u8) by {
        assert(header_piece(ps[i]));
    }
    lemma_split_join(ps, 44u8);
    assert(header_piece(ps[0]));
    if ps.len() > 1 {
        assert(join(ps, 44u8).len() >= ps[0].len());
    }
    assert(join(ps, 44u8).len() > 0);
    lemma_via_from_pieces(Seq::empty(), vs);
    assert(Seq::<Seq<u8>>::empty() + ps =~= ps);
}

fn has_q_prefix(b: &[u8]) -> (r: bool)
    ensures
        r == starts_with(b@, q_prefix()),
{
    let r = b.len() >= 2 && b[0] == 'q' as u8 && b[1] == 'A' as u8;
    proof {
        if r {
            assert(b@.subrange(0, 2) =~= q_prefix());
        } else if b@.len() >= 2 {
            assert(b@.subrange(0, 2)[0] == b@[0]);
            assert(b@.subrange(0, 2)[1] == b@[1]);
        }
    }
    r
}

impl Digipeater {
    /// Parse one via element from its textual bytes (without the surrounding commas).
    pub fn decode_textual(input: &[u8]) -> (r: Result<Self, AprsError>)
        ensures
            match (r, spec_decode_digipeater(input@)) {
                (Ok(d), Ok(v)) => d@ == v,
                (Err(e), Err(v)) => e@ == v,
                _ => false,
            },
    {
        if has_q_prefix(input) {
            return Ok(Digipeater::QConstruct(QConstruct::from_bytes(input), Callsign::unknown()));
        }
        let heard = input.len() >= 1 && input[input.len() - 1] == '*' as u8;
        proof {
            let s = input@;
            if s.len() >= 1 {
                assert(s.subrange(s.len() - 1, s.len() as int)[0] == s[s.len() - 1]);
                if heard {
                    assert(s.subrange(s.len() - 1, s.len() as int) =~= seq![42u8]);
                }
            }
        }
        let call_bytes = if heard {
            vstd::slice::slice_subrange(input, 0, input.len() - 1)
        } else {
            input
        };
        match Callsign::decode_textual(call_bytes) {
            Ok(c) => Ok(Digipeater::Callsign(c, heard)),
            Err(_) => {
                let raw = copy_from(input, 0);
                assert(raw@ =~= input@);
                Err(AprsError::InvalidVia { raw })
            },
        }
    }

    /// Write this digipeater element in textual APRS format.
    pub fn encode_textual(&self, out: &mut Vec<u8>)
        ensures
            final(out)@ == old(out)@ + spec_encode_digipeater(self@),
    {
        match self {
            Digipeater::Callsign(call, heard) => {
                call.encode_textual(out);
                if *heard {
                    out.push('*' as u8);
                }
            },
            Digipeater::QConstruct(q, gw) => {
                q.encode(out);
                out.push(',' as u8);
                gw.encode_textual(out);
            },
        }
        assert(final(out)@ =~= old(out)@ + spec_encode_digipeater(self@));
    }

    /// The textual form as a string.
    pub fn to_string(&self) -> (r: String)
        ensures
            r@ == utf8_lossy(spec_encode_digipeater(self@)),
    {
        let mut out: Vec<u8> = Vec::new();
        self.encode_textual(&mut out);
        string_from_utf8_lossy(out.as_slice())
    }
}

/// Parse the full via list (the comma-separated portion between `>TO` and `:`).
///
/// Handles the APRS-IS Q-construct pairing: `qAR,IGATE` appears as two consecutive
/// elements where the second is the gateway callsign.
pub fn parse_via(bytes: &[u8]) -> (r: Result<Vec<Digipeater>, AprsError>)
    ensures
        match (r, spec_parse_via(bytes@)) {
            (Ok(v), Ok(s)) => v@.len() == s.len() && forall|i: int|
                0 <= i < s.len() ==> (#[trigger] v@[i])@ == s[i],
            (Err(e), Err(s)) => e@ == s,
            _ => false,
        },
{
    let mut result: Vec<Digipeater> = Vec::new();
    if bytes.len() == 0 {
        return Ok(result);
    }
    let elems = split_exec(bytes, ',' as u8);
    let ghost es = spec_split(bytes@, 44u8);
    let mut i: usize = 0;
    while i < elems.len()
        invariant
            elems@.len() == es.len(),
            forall|j: int| 0 <= j < es.len() ==> (#[trigger] elems@[j])@ == es[j],
            es == spec_split(bytes@, 44u8),
            bytes@.len() > 0,
            i <= elems@.len() + 1,
            via_from(es, 0) matches Ok(all) ==> (via_from(es, i as int) matches Ok(rest) && all
                =~= result@.map_values(|d: Digipeater| d@) + rest),
            via_from(es, 0) matches Err(e) ==> via_from(es, i as int) == via_from(es, 0),
        decreases elems@.len() + 1 - i,
    {
        let ghost before = result@;
        let element = elems[i].as_slice();
        if has_q_prefix(element) {
            let q = QConstruct::from_bytes(element);
            if i + 1 < elems.len() {
                let next = elems[i + 1].as_slice();
                let gw = match Callsign::decode_textual(next) {
                    Ok(c) => c,
                    Err(_) => {
                        let raw = copy_from(next, 0);
                        assert(raw@ =~= next@);
                        return Err(AprsError::InvalidVia { raw });
                    },
                };
                result.push(Digipeater::QConstruct(q, gw));
                proof {
                    assert(result@.map_values(|d: Digipeater| d@) =~= before.map_values(
                        |d: Digipeater| d@,
                    ) + seq![result@.last()@]);
                }
                i = i + 2;
            } else {
                result.push(Digipeater::QConstruct(q, Callsign::unknown()));
                proof {
                    assert(result@.map_values(|d: Digipeater| d@) =~= before.map_values(
                        |d: Digipeater| d@,
                    ) + seq![result@.last()@]);
                    assert(via_from(es, i + 1) == Ok::<Seq<DigipeaterView>, AprsErrorView>(
                        Seq::empty(),
                    ));
                }
                i = i + 1;
            }
        } else {
            let d = match Digipeater::decode_textual(element) {
                Ok(d) => d,
                Err(e) => {
                    return Err(e);
                },
            };
            result.push(d);
            proof {
                assert(result@.map_values(|d: Digipeater| d@) =~= before.map_values(
                    |d: Digipeater| d@,
                ) + seq![result@.last()@]);
            }
            i = i + 1;
        }
    }
    proof {
        assert(via_from(es, i as int) == Ok::<Seq<DigipeaterView>, AprsErrorView>(Seq::empty()));
        let all = via_from(es, 0)->Ok_0;
        assert forall|j: int| 0 <= j < all.len() implies (#[trigger] result@[j])@ == all[j] by {
            assert(result@.map_values(|d: Digipeater| d@)[j] == result@[j]@);
        }
    }
    Ok(result)
}

impl Clone for QConstruct {
    fn clone(&self) -> (r: Self)
        ensures
            r@ == self@,
    {
        match self {
            QConstruct::Ac => QConstruct::Ac,
            QConstruct::Ax => QConstruct::Ax,
            QConstruct::Ao => QConstruct::Ao,
            QConstruct::Ar => QConstruct::Ar,
            QConstruct::As => QConstruct::As,
            QConstruct::At => QConstruct::At,
            QConstruct::Ai => QConstruct::Ai,
            QConstruct::AoRf => QConstruct::AoRf,
            QConstruct::ArRf => QConstruct::ArRf,
            QConstruct::Az => QConstruct::Az,
            QConstruct::Unknown(s) => QConstruct::Unknown(s.clone()),
        }
    }
}

impl Clone for Digipeater {
    fn clone(&self) -> (r: Self)
        ensures
            r@ == self@,
    {
        match self {
            Digipeater::Callsign(c, h) => Digipeater::Callsign(c.clone(), *h),
            Digipeater::QConstruct(q, g) => Digipeater::QConstruct(q.clone(), g.clone()),
        }
    }
}

} // verus!
