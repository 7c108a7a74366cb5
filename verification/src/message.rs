//! Messages, bulletins, acknowledgements and telemetry metadata (DTI `:`).
use crate::error::{AprsError, AprsErrorView};
use crate::util::{
    copy_from, copy_range, extend, find_byte, index_of, lemma_index_of, lemma_index_of_at,
    lemma_starts_with_bytes, lemma_trim_spaces_end, lemma_trim_spaces_pad, starts_with,
    starts_with_exec, trim_spaces_end, trim_spaces_end_exec,
};
use vstd::prelude::*;

verus! {

/// The subtype of an APRS message packet, discriminated at parse time.
#[derive(Debug, PartialEq, Eq)]
pub enum MessageSubtype {
    /// Directed message to a specific station. `id` is the optional message number.
    Directed { id: Option<Vec<u8>> },
    /// Acknowledgement: `id` is the message number being ACK'd.
    Ack { id: Vec<u8> },
    /// Rejection: `id` is the message number being REJ'd.
    Rej { id: Vec<u8> },
    /// General bulletin (addressee starts with `BLN`).
    Bulletin,
    /// National Weather Service or equivalent weather alert bulletin.
    /// Addressee starts with `NWS`, `SKY`, `CWA`, or `BOM`.
    NwsBulletin,
    /// Telemetry parameter names. Text starts with `PARM.`; addressee is the described station.
    TelemetryParm,
    /// Telemetry unit/label names. Text starts with `UNIT.`.
    TelemetryUnit,
    /// Telemetry equation coefficients. Text starts with `EQNS.`.
    TelemetryEqns,
    /// Telemetry bit sense / project name. Text starts with `BITS.`.
    TelemetryBits,
    /// Directed station query. Text starts with `?`.
    DirectedQuery,
}

/// Mathematical model of [`MessageSubtype`].
pub enum MessageSubtypeView {
    Directed { id: Option<Seq<u8>> },
    Ack { id: Seq<u8> },
    Rej { id: Seq<u8> },
    Bulletin,
    NwsBulletin,
    TelemetryParm,
    TelemetryUnit,
    TelemetryEqns,
    TelemetryBits,
    DirectedQuery,
}

impl View for MessageSubtype {
    type V = MessageSubtypeView;

    open spec fn view(&self) -> MessageSubtypeView {
        match self {
            MessageSubtype::Directed { id } => MessageSubtypeView::Directed {
                id: match id {
                    Some(v) => Some(v@),
                    None => None,
                },
            },
            MessageSubtype::Ack { id } => MessageSubtypeView::Ack { id: id@ },
            MessageSubtype::Rej { id } => MessageSubtypeView::Rej { id: id@ },
            MessageSubtype::Bulletin => MessageSubtypeView::Bulletin,
            MessageSubtype::NwsBulletin => MessageSubtypeView::NwsBulletin,
            MessageSubtype::TelemetryParm => MessageSubtypeView::TelemetryParm,
            MessageSubtype::TelemetryUnit => MessageSubtypeView::TelemetryUnit,
            MessageSubtype::TelemetryEqns => MessageSubtypeView::TelemetryEqns,
            MessageSubtype::TelemetryBits => MessageSubtypeView::TelemetryBits,
            MessageSubtype::DirectedQuery => MessageSubtypeView::DirectedQuery,
        }
    }
}

/// An APRS message, bulletin, ACK/REJ, or telemetry metadata packet.
///
/// DTI: `:`
///
/// Wire format: `:AAAAAAAAA:text{id`
/// where `AAAAAAAAA` is a space-padded 9-character addressee.
#[derive(Debug, PartialEq, Eq)]
pub struct AprsMessage {
    /// Addressee, trimmed of trailing spaces.
    pub addressee: Vec<u8>,
    /// Message text (without the `{` separator or message number).
    pub text: Vec<u8>,
    /// Subtype discriminated from the addressee and text content.
    pub subtype: MessageSubtype,
}

/// Mathematical model of [`AprsMessage`].
pub struct AprsMessageView {
    pub addressee: Seq<u8>,
    pub text: Seq<u8>,
    pub subtype: MessageSubtypeView,
}

impl View for AprsMessage {
    type V = AprsMessageView;

    open spec fn view(&self) -> AprsMessageView {
        AprsMessageView { addressee: self.addressee@, text: self.text@, subtype: self.subtype@ }
    }
}

pub open spec fn lit_ack() -> Seq<u8> {
    seq![97u8, 99u8, 107u8]
}

pub open spec fn lit_rej() -> Seq<u8> {
    seq![114u8, 101u8, 106u8]
}

/// The subtype told by the addressee and the text: `ack`/`rej` texts first,
/// then bulletin addressees, then telemetry metadata and queries by their
/// text prefix; anything else is a directed message.
pub open spec fn spec_discriminate_subtype(
    addressee: Seq<u8>,
    text: Seq<u8>,
    id: Option<Seq<u8>>,
) -> MessageSubtypeView {
    if starts_with(text, lit_ack()) {
        MessageSubtypeView::Ack { id: text.subrange(3, text.len() as int) }
    } else if starts_with(text, lit_rej()) {
        MessageSubtypeView::Rej { id: text.subrange(3, text.len() as int) }
    } else if starts_with(addressee, seq![66u8, 76u8, 78u8]) {
        MessageSubtypeView::Bulletin
    } else if starts_with(addressee, seq![78u8, 87u8, 83u8]) || starts_with(
        addressee,
        seq![83u8, 75u8, 89u8],
    ) || starts_with(addressee, seq![67u8, 87u8, 65u8]) || starts_with(
        addressee,
        seq![66u8, 79u8, 77u8],
    ) {
        MessageSubtypeView::NwsBulletin
    } else if starts_with(text, seq![80u8, 65u8, 82u8, 77u8, 46u8]) {
        MessageSubtypeView::TelemetryParm
    } else if starts_with(text, seq![85u8, 78u8, 73u8, 84u8, 46u8]) {
        MessageSubtypeView::TelemetryUnit
    } else if starts_with(text, seq![69u8, 81u8, 78u8, 83u8, 46u8]) {
        MessageSubtypeView::TelemetryEqns
    } else if starts_with(text, seq![66u8, 73u8, 84u8, 83u8, 46u8]) {
        MessageSubtypeView::TelemetryBits
    } else if starts_with(text, seq![63u8]) {
        MessageSubtypeView::DirectedQuery
    } else {
        MessageSubtypeView::Directed { id }
    }
}

/// How a message is classified, over every addressee and text: a text that
/// begins `ack` or `rej` is an acknowledgement or rejection of the number
/// after those three letters; otherwise an addressee beginning `BLN` is a
/// bulletin, and one beginning `NWS`, `SKY`, `CWA` or `BOM` a weather-service
/// bulletin; otherwise a text beginning `PARM.`, `UNIT.`, `EQNS.` or `BITS.`
/// is telemetry metadata of that kind, one beginning `?` a query, and any
/// other a directed message carrying the message number.
pub proof fn lemma_subtype_rules(addressee: Seq<u8>, text: Seq<u8>, id: Option<Seq<u8>>)
    ensures
        ({
            let s = spec_discriminate_subtype(addressee, text, id);
            let ack = starts_with(text, seq![97u8, 99u8, 107u8]);
            let rej = starts_with(text, seq![114u8, 101u8, 106u8]);
            let bln = starts_with(addressee, seq![66u8, 76u8, 78u8]);
            let nws = starts_with(addressee, seq![78u8, 87u8, 83u8]) || starts_with(
                addressee,
                seq![83u8, 75u8, 89u8],
            ) || starts_with(addressee, seq![67u8, 87u8, 65u8]) || starts_with(
                addressee,
                seq![66u8, 79u8, 77u8],
            );
            let plain = !ack && !rej && !bln && !nws;
            let parm = starts_with(text, seq![80u8, 65u8, 82u8, 77u8, 46u8]);
            let unit = starts_with(text, seq![85u8, 78u8, 73u8, 84u8, 46u8]);
            let eqns = starts_with(text, seq![69u8, 81u8, 78u8, 83u8, 46u8]);
            let bits = starts_with(text, seq![66u8, 73u8, 84u8, 83u8, 46u8]);
            let query = starts_with(text, seq![63u8]);
            &&& ack ==> s == MessageSubtypeView::Ack { id: text.subrange(3, text.len() as int) }
            &&& !ack && rej ==> s == MessageSubtypeView::Rej {
                id: text.subrange(3, text.len() as int),
            }
            &&& !ack && !rej && bln ==> s == MessageSubtypeView::Bulletin
            &&& !ack && !rej && nws ==> s == MessageSubtypeView::NwsBulletin
            &&& plain && parm ==> s == MessageSubtypeView::TelemetryParm
            &&& plain && unit ==> s == MessageSubtypeView::TelemetryUnit
            &&& plain && eqns ==> s == MessageSubtypeView::TelemetryEqns
            &&& plain && bits ==> s == MessageSubtypeView::TelemetryBits
            &&& plain && query ==> s == MessageSubtypeView::DirectedQuery
            &&& plain && !parm && !unit && !eqns && !bits && !query ==> s
                == MessageSubtypeView::Directed { id }
        }),
{
    lemma_starts_with_bytes(addressee, seq![66u8, 76u8, 78u8]);
    lemma_starts_with_bytes(addressee, seq![78u8, 87u8, 83u8]);
    lemma_starts_with_bytes(addressee, seq![83u8, 75u8, 89u8]);
    lemma_starts_with_bytes(addressee, seq![67u8, 87u8, 65u8]);
    lemma_starts_with_bytes(addressee, seq![66u8, 79u8, 77u8]);
    lemma_starts_with_bytes(text, seq![80u8, 65u8, 82u8, 77u8, 46u8]);
    lemma_starts_with_bytes(text, seq![85u8, 78u8, 73u8, 84u8, 46u8]);
    lemma_starts_with_bytes(text, seq![69u8, 81u8, 78u8, 83u8, 46u8]);
    lemma_starts_with_bytes(text, seq![66u8, 73u8, 84u8, 83u8, 46u8]);
    lemma_starts_with_bytes(text, seq![63u8]);
}

/// A message information field `:AAAAAAAAA:text{id`.
pub open spec fn spec_parse_message(info: Seq<u8>) -> Result<AprsMessageView, AprsErrorView> {
    if info.len() < 11 || info[10] != 58u8 {
        Err(AprsErrorView::InvalidMessageMissingDelimiter)
    } else {
        let addressee = trim_spaces_end(info.subrange(1, 10));
        let body = info.subrange(11, info.len() as int);
        let k = index_of(body, 123u8);
        let text = if k < 0 {
            body
        } else {
            body.subrange(0, k)
        };
        let id = if k < 0 {
            None
        } else {
            Some(body.subrange(k + 1, body.len() as int))
        };
        Ok(
            AprsMessageView {
                addressee,
                text,
                subtype: spec_discriminate_subtype(addressee, text, id),
            },
        )
    }
}

/// Spaces that pad an addressee to nine bytes.
pub open spec fn addressee_padding(a: Seq<u8>) -> Seq<u8> {
    Seq::new(if a.len() < 9 { (9 - a.len()) as nat } else { 0 }, |i: int| 32u8)
}

/// What follows the second `:` for a message.
pub open spec fn message_body(m: AprsMessageView) -> Seq<u8> {
    match m.subtype {
        MessageSubtypeView::Ack { id } => lit_ack() + id,
        MessageSubtypeView::Rej { id } => lit_rej() + id,
        MessageSubtypeView::Directed { id } => match id {
            Some(i) => m.text + seq![123u8] + i,
            None => m.text,
        },
        _ => m.text,
    }
}

/// The wire form of a message.
pub open spec fn spec_encode_message(m: AprsMessageView) -> Seq<u8> {
    seq![58u8] + m.addressee + addressee_padding(m.addressee) + seq![58u8] + message_body(m)
}

/// The subtype depends on the message number only for directed messages.
proof fn lemma_discriminate_id(a: Seq<u8>, t: Seq<u8>, id1: Option<Seq<u8>>, id2: Option<Seq<u8>>)
    ensures
        !(spec_discriminate_subtype(a, t, id1) is Directed) ==> spec_discriminate_subtype(a, t, id1)
            == spec_discriminate_subtype(a, t, id2),
        spec_discriminate_subtype(a, t, id1) is Directed ==> spec_discriminate_subtype(a, t, id2)
            == (MessageSubtypeView::Directed { id: id2 }),
{
}

/// Re-encoding a decoded message and decoding the result gives the same
/// message back.
pub proof fn lemma_message_round_trip(info: Seq<u8>)
    requires
        spec_parse_message(info) is Ok,
    ensures
        spec_parse_message(spec_encode_message(spec_parse_message(info)->Ok_0)) == spec_parse_message(
            info,
        ),
{
    let m = spec_parse_message(info)->Ok_0;
    let a = m.addressee;
    let raw = info.subrange(1, 10);
    lemma_trim_spaces_end(raw);
    let e = spec_encode_message(m);
    let pad = addressee_padding(a);
    let mb = message_body(m);
    assert(e =~= seq![58u8] + a + pad + seq![58u8] + mb);
    assert(e.subrange(1, 10) =~= a + pad);
    assert(e[10] == 58u8);
    lemma_trim_spaces_pad(a, pad.len());
    assert(pad =~= Seq::new(pad.len(), |i: int| 32u8));
    let body = info.subrange(11, info.len() as int);
    lemma_index_of(body, 123u8);
    let k = index_of(body, 123u8);
    let text = m.text;
    let id = if k < 0 {
        None
    } else {
        Some(body.subrange(k + 1, body.len() as int))
    };
    // the text holds no `{`
    assert forall|j: int| 0 <= j < text.len() implies text[j] != 123u8 by {
        if k >= 0 {
            assert(text[j] == body[j]);
        }
    }
    lemma_index_of(text, 123u8);
    let body2 = e.subrange(11, e.len() as int);
    assert(body2 =~= mb);
    lemma_index_of(mb, 123u8);
    match m.subtype {
        MessageSubtypeView::Ack { id: aid } => {
            assert(text =~= lit_ack() + aid);
            assert(mb =~= text);
        },
        MessageSubtypeView::Rej { id: rid } => {
            assert(text =~= lit_rej() + rid);
            assert(mb =~= text);
        },
        MessageSubtypeView::Directed { id: did } => {
            match did {
                Some(i) => {
                    assert(mb[text.len() as int] == 123u8);
                    assert forall|j: int| 0 <= j < text.len() implies mb[j] != 123u8 by {
                        assert(mb[j] == text[j]);
                    }
                    lemma_index_of_at(mb, 123u8, text.len() as int);
                    assert(mb.subrange(0, text.len() as int) =~= text);
                    assert(mb.subrange(text.len() as int + 1, mb.len() as int) =~= i);
                },
                None => {
                    assert(mb =~= text);
                },
            }
            lemma_discriminate_id(a, text, id, did);
        },
        _ => {
            assert(mb =~= text);
            lemma_discriminate_id(a, text, id, None);
        },
    }
}

fn has_prefix(s: &[u8], p: &[u8]) -> (r: bool)
    ensures
        r == starts_with(s@, p@),
{
    starts_with_exec(s, p)
}

fn discriminate_subtype(addressee: &[u8], text: &[u8], id: Option<&[u8]>) -> (r: MessageSubtype)
    ensures
        r@ == spec_discriminate_subtype(
            addressee@,
            text@,
            match id {
                Some(s) => Some(s@),
                None => None,
            },
        ),
{
    let ack: [u8; 3] = ['a' as u8, 'c' as u8, 'k' as u8];
    let rej: [u8; 3] = ['r' as u8, 'e' as u8, 'j' as u8];
    let bln: [u8; 3] = ['B' as u8, 'L' as u8, 'N' as u8];
    let nws: [u8; 3] = ['N' as u8, 'W' as u8, 'S' as u8];
    let sky: [u8; 3] = ['S' as u8, 'K' as u8, 'Y' as u8];
    let cwa: [u8; 3] = ['C' as u8, 'W' as u8, 'A' as u8];
    let bom: [u8; 3] = ['B' as u8, 'O' as u8, 'M' as u8];
    let parm: [u8; 5] = ['P' as u8, 'A' as u8, 'R' as u8, 'M' as u8, '.' as u8];
    let unit: [u8; 5] = ['U' as u8, 'N' as u8, 'I' as u8, 'T' as u8, '.' as u8];
    let eqns: [u8; 5] = ['E' as u8, 'Q' as u8, 'N' as u8, 'S' as u8, '.' as u8];
    let bits: [u8; 5] = ['B' as u8, 'I' as u8, 'T' as u8, 'S' as u8, '.' as u8];
    let query: [u8; 1] = ['?' as u8];
    assert(ack@ =~= lit_ack());
    assert(rej@ =~= lit_rej());
    assert(bln@ =~= seq![66u8, 76u8, 78u8]);
    assert(nws@ =~= seq![78u8, 87u8, 83u8]);
    assert(sky@ =~= seq![83u8, 75u8, 89u8]);
    assert(cwa@ =~= seq![67u8, 87u8, 65u8]);
    assert(bom@ =~= seq![66u8, 79u8, 77u8]);
    assert(parm@ =~= seq![80u8, 65u8, 82u8, 77u8, 46u8]);
    assert(unit@ =~= seq![85u8, 78u8, 73u8, 84u8, 46u8]);
    assert(eqns@ =~= seq![69u8, 81u8, 78u8, 83u8, 46u8]);
    assert(bits@ =~= seq![66u8, 73u8, 84u8, 83u8, 46u8]);
    assert(query@ =~= seq![63u8]);
    if has_prefix(text, ack.as_slice()) {
        return MessageSubtype::Ack { id: copy_from(text, 3) };
    }
    if has_prefix(text, rej.as_slice()) {
        return MessageSubtype::Rej { id: copy_from(text, 3) };
    }
    if has_prefix(addressee, bln.as_slice()) {
        return MessageSubtype::Bulletin;
    }
    if has_prefix(addressee, nws.as_slice()) || has_prefix(addressee, sky.as_slice())
        || has_prefix(addressee, cwa.as_slice()) || has_prefix(addressee, bom.as_slice()) {
        return MessageSubtype::NwsBulletin;
    }
    if has_prefix(text, parm.as_slice()) {
        return MessageSubtype::TelemetryParm;
    }
    if has_prefix(text, unit.as_slice()) {
        return MessageSubtype::TelemetryUnit;
    }
    if has_prefix(text, eqns.as_slice()) {
        return MessageSubtype::TelemetryEqns;
    }
    if has_prefix(text, bits.as_slice()) {
        return MessageSubtype::TelemetryBits;
    }
    if has_prefix(text, query.as_slice()) {
        return MessageSubtype::DirectedQuery;
    }
    let idv = match id {
        Some(b) => {
            let v = copy_from(b, 0);
            assert(v@ =~= b@);
            Some(v)
        },
        None => None,
    };
    MessageSubtype::Directed { id: idv }
}

impl AprsMessage {
    /// Decode from the information field (including the leading `:` DTI byte).
    pub fn parse(info: &[u8]) -> (r: Result<Self, AprsError>)
        ensures
            match (r, spec_parse_message(info@)) {
                (Ok(m), Ok(v)) => m@ == v,
                (Err(e), Err(v)) => e@ == v,
                _ => false,
            },
    {
        if info.len() < 11 {
            return Err(AprsError::InvalidMessageMissingDelimiter);
        }
        if info[10] != ':' as u8 {
            return Err(AprsError::InvalidMessageMissingDelimiter);
        }
        let mut addressee = copy_range(info, 1, 10);
        trim_spaces_end_exec(&mut addressee);
        let body = vstd::slice::slice_subrange(info, 11, info.len());
        proof {
            lemma_index_of(body@, 123u8);
        }
        let (text_bytes, id_bytes) = match find_byte(body, '{' as u8) {
            Some(pos) => (
                vstd::slice::slice_subrange(body, 0, pos),
                Some(vstd::slice::slice_subrange(body, pos + 1, body.len())),
            ),
            None => (body, None),
        };
        let text = copy_from(text_bytes, 0);
        assert(text@ =~= text_bytes@);
        let subtype = discriminate_subtype(addressee.as_slice(), text_bytes, id_bytes);
        Ok(AprsMessage { addressee, text, subtype })
    }

    pub fn encode(&self) -> (r: Vec<u8>)
        ensures
            r@ == spec_encode_message(self@),
    {
        let mut out: Vec<u8> = Vec::new();
        out.push(':' as u8);
        extend(&mut out, self.addressee.as_slice());
        let mut k: usize = self.addressee.len();
        let ghost mid = out@;
        while k < 9
            invariant
                self.addressee@.len() <= k <= 9 || (k == self.addressee@.len() && k >= 9),
                out@ == mid + Seq::new((k - self.addressee@.len()) as nat, |i: int| 32u8),
            decreases 9 - k,
        {
            out.push(' ' as u8);
            k = k + 1;
            assert(out@ =~= mid + Seq::new((k - self.addressee@.len()) as nat, |i: int| 32u8));
        }
        assert(Seq::new((k - self.addressee@.len()) as nat, |i: int| 32u8) =~= addressee_padding(
            self.addressee@,
        ));
        out.push(':' as u8);
        let ghost head = out@;
        match &self.subtype {
            MessageSubtype::Ack { id } => {
                out.push('a' as u8);
                out.push('c' as u8);
                out.push('k' as u8);
                extend(&mut out, id.as_slice());
            },
            MessageSubtype::Rej { id } => {
                out.push('r' as u8);
                out.push('e' as u8);
                out.push('j' as u8);
                extend(&mut out, id.as_slice());
            },
            MessageSubtype::Directed { id } => {
                extend(&mut out, self.text.as_slice());
                match id {
                    Some(i) => {
                        out.push('{' as u8);
                        extend(&mut out, i.as_slice());
                    },
                    None => {},
                }
            },
            _ => {
                extend(&mut out, self.text.as_slice());
            },
        }
        assert(out@ =~= head + message_body(self@));
        assert(out@ =~= spec_encode_message(self@));
        out
    }
}

impl Clone for MessageSubtype {
    fn clone(&self) -> (r: Self)
        ensures
            r@ == self@,
    {
        match self {
            MessageSubtype::Directed { id } => MessageSubtype::Directed { id: crate::util::copy_opt_vec(id) },
            MessageSubtype::Ack { id } => MessageSubtype::Ack { id: crate::util::copy_vec(id) },
            MessageSubtype::Rej { id } => MessageSubtype::Rej { id: crate::util::copy_vec(id) },
            MessageSubtype::Bulletin => MessageSubtype::Bulletin,
            MessageSubtype::NwsBulletin => MessageSubtype::NwsBulletin,
            MessageSubtype::TelemetryParm => MessageSubtype::TelemetryParm,
            MessageSubtype::TelemetryUnit => MessageSubtype::TelemetryUnit,
            MessageSubtype::TelemetryEqns => MessageSubtype::TelemetryEqns,
            MessageSubtype::TelemetryBits => MessageSubtype::TelemetryBits,
            MessageSubtype::DirectedQuery => MessageSubtype::DirectedQuery,
        }
    }
}

impl Clone for AprsMessage {
    fn clone(&self) -> (r: Self)
        ensures
            r@ == self@,
    {
        AprsMessage {
            addressee: crate::util::copy_vec(&self.addressee),
            text: crate::util::copy_vec(&self.text),
            subtype: self.subtype.clone(),
        }
    }
}


/// A message in its written form is written again byte for byte: encoding
/// what a written message decodes to gives the same bytes.
pub proof fn lemma_message_canonical(info: Seq<u8>)
    requires
        spec_parse_message(info) is Ok,
    ensures
        ({
            let e = spec_encode_message(spec_parse_message(info)->Ok_0);
            spec_parse_message(e) matches Ok(m) && spec_encode_message(m) == e
        }),
{
    lemma_message_round_trip(info);
}

} // verus!
