//! Station callsigns with an optional SSID, in textual and AX.25 form.
use crate::error::{AprsError, AprsErrorView};
use crate::text::{all_ascii, ascii_chars, ascii_str, ascii_string};
use crate::util::{
    all_alnum, all_alnum_exec, all_digits, all_digits_exec, copy_range, dec_digits,
    digits_value, digits_value_bounded, extend, find_byte, index_of, is_alnum, is_digit, is_upper,
    lemma_dec_digits, lemma_index_of, lemma_index_of_at, push_dec, spec_parse_unsigned, parse_unsigned,
    trim_spaces_end, trim_spaces_end_exec, upper_seq, uppercase,
};
use vstd::prelude::*;
use vstd::string::StringSliceAdditionalSpecFns;
use vstd::utf8::encode_utf8;

verus! {

/// Longest base call (without SSID) accepted: AX.25 allows 6, APRS-IS 9.
pub const MAX_CALL_LEN: usize = 9;

/// Longest textual SSID accepted (AX.25 uses 0–15; D-STAR gateways use short
/// alphanumeric SSIDs such as `S` or `B`).
pub const MAX_SSID_LEN: usize = 6;

/// An APRS callsign with an optional SSID.
///
/// The SSID is usually numeric (1–15, as in AX.25) but APRS-IS and D-STAR
/// gateways also use short alphanumeric SSIDs such as `S` or `B`. Both parts
/// are stored as uppercase ASCII; SSID 0 is stored as "no SSID".
#[derive(Debug, PartialEq, Eq, Hash)]
pub struct Callsign {
    call: Vec<u8>,
    ssid: Option<Vec<u8>>,
}

/// Model of a [`Callsign`]: the base call and the textual SSID.
pub struct CallsignView {
    pub call: Seq<u8>,
    pub ssid: Option<Seq<u8>>,
}

/// A byte that may appear in a stored callsign: a digit or an uppercase letter.
pub open spec fn is_call_byte(b: u8) -> bool {
    is_digit(b) || is_upper(b)
}

pub open spec fn all_call_bytes(s: Seq<u8>) -> bool {
    forall|i: int| 0 <= i < s.len() ==> is_call_byte(#[trigger] s[i])
}

/// A stored SSID: 1–6 digits or uppercase letters; when it is numeric it is
/// the canonical decimal form of a value in 1–15.
pub open spec fn ssid_wf(s: Seq<u8>) -> bool {
    &&& 1 <= s.len() <= MAX_SSID_LEN
    &&& all_call_bytes(s)
    &&& all_digits(s) ==> 1 <= digits_value(s) <= 15 && s == dec_digits(digits_value(s))
}

/// What every [`Callsign`] satisfies.
pub open spec fn callsign_wf(c: CallsignView) -> bool {
    &&& 1 <= c.call.len() <= MAX_CALL_LEN
    &&& all_call_bytes(c.call)
    &&& c.ssid matches Some(s) ==> ssid_wf(s)
}

/// The base call for the text `b`: 1–9 letters or digits, uppercased.
pub open spec fn spec_parse_call(b: Seq<u8>) -> Option<Seq<u8>> {
    if 1 <= b.len() <= MAX_CALL_LEN && all_alnum(b) {
        Some(upper_seq(b))
    } else {
        None
    }
}

/// The SSID for the text after `-`: `None` when invalid, `Some(None)` when it
/// is numeric 0, otherwise the canonical SSID (numeric 1–15 without leading
/// zeros, or alphanumeric uppercased).
pub open spec fn spec_parse_ssid(b: Seq<u8>) -> Option<Option<Seq<u8>>> {
    if b.len() == 0 || b.len() > MAX_SSID_LEN {
        None
    } else if all_digits(b) {
        if digits_value(b) > 15 {
            None
        } else if digits_value(b) == 0 {
            Some(None)
        } else {
            Some(Some(dec_digits(digits_value(b))))
        }
    } else if all_alnum(b) {
        Some(Some(upper_seq(b)))
    } else {
        None
    }
}

/// The callsign written as text in `input` (`CALL` or `CALL-SSID`).
pub open spec fn spec_decode_callsign(input: Seq<u8>) -> Result<CallsignView, AprsErrorView> {
    let dash = index_of(input, 45u8);
    let call = if dash >= 0 {
        input.subrange(0, dash)
    } else {
        input
    };
    let ssid = if dash >= 0 {
        spec_parse_ssid(input.subrange(dash + 1, input.len() as int))
    } else {
        Some(None)
    };
    match (spec_parse_call(call), ssid) {
        (Some(c), Some(s)) => Ok(CallsignView { call: c, ssid: s }),
        _ => Err(AprsErrorView::InvalidCallsign { raw: input }),
    }
}

/// The textual form: the base call, then `-` and the SSID when there is one.
pub open spec fn spec_encode_callsign(c: CallsignView) -> Seq<u8> {
    match c.ssid {
        Some(s) => c.call + seq![45u8] + s,
        None => c.call,
    }
}

/// The SSID as a number when it parses as one in 0–15.
pub open spec fn spec_ssid_numeric(c: CallsignView) -> Option<u8> {
    match c.ssid {
        Some(s) => match spec_parse_unsigned(s, 255) {
            Some(v) => if v <= 15 {
                Some(v as u8)
            } else {
                None
            },
            None => None,
        },
        None => None,
    }
}

/// A 7-byte AX.25 address field: the first six characters of the call, padded
/// with spaces and shifted left one bit, then the SSID byte
/// `0b011ssss e` (reserved bits set, SSID, end-of-address flag).
pub open spec fn spec_encode_callsign_ax25(c: CallsignView, eoa: bool) -> Seq<u8> {
    let ssid = match spec_ssid_numeric(c) {
        Some(v) => v as int,
        None => 0,
    };
    Seq::new(
        6,
        |i: int|
            (if i < c.call.len() {
                c.call[i]
            } else {
                32u8
            } * 2) as u8,
    ).push((96 + ssid * 2 + if eoa {
        1int
    } else {
        0
    }) as u8)
}

/// An AX.25 address field for a callsign, with bit 7 of the SSID byte (the
/// has-been-repeated flag) set when `repeated`.
pub open spec fn spec_encode_address_ax25(c: CallsignView, eoa: bool, repeated: bool) -> Seq<u8> {
    let f = spec_encode_callsign_ax25(c, eoa);
    if repeated {
        f.update(6, (f[6] + 128) as u8)
    } else {
        f
    }
}

/// The SSID byte of an AX.25 address field leaves bit 7 clear.
pub proof fn lemma_encode_callsign_ax25_ssid_byte(c: CallsignView, eoa: bool)
    ensures
        spec_encode_callsign_ax25(c, eoa).len() == 7,
        spec_encode_callsign_ax25(c, eoa)[6] < 128,
{
}

/// The six call characters of an AX.25 address field, shifted right one bit.
pub open spec fn ax25_call_chars(bytes: Seq<u8>) -> Seq<u8> {
    Seq::new(6, |i: int| bytes[i] / 2)
}

/// The callsign and end-of-address flag of the AX.25 address field at the
/// start of `bytes`.
pub open spec fn spec_decode_callsign_ax25(bytes: Seq<u8>) -> Result<
    (CallsignView, bool),
    AprsErrorView,
> {
    if bytes.len() < 7 {
        Err(AprsErrorView::TruncatedPacket { expected: 7, got: bytes.len() as usize })
    } else if exists|i: int| 0 <= i < 6 && #[trigger] bytes[i] % 2 != 0 {
        Err(AprsErrorView::InvalidCallsign { raw: bytes.subrange(0, 7) })
    } else {
        match spec_parse_call(trim_spaces_end(ax25_call_chars(bytes))) {
            None => Err(AprsErrorView::InvalidCallsign { raw: bytes.subrange(0, 7) }),
            Some(call) => {
                let v = (bytes[6] / 2) % 16;
                Ok(
                    (
                        CallsignView {
                            call,
                            ssid: if v == 0 {
                                None
                            } else {
                                Some(dec_digits(v as nat))
                            },
                        },
                        bytes[6] % 2 != 0,
                    ),
                )
            },
        }
    }
}

impl View for Callsign {
    type V = CallsignView;

    closed spec fn view(&self) -> CallsignView {
        CallsignView {
            call: self.call@,
            ssid: match self.ssid {
                Some(s) => Some(s@),
                None => None,
            },
        }
    }
}

impl Clone for Callsign {
    fn clone(&self) -> (r: Self)
        ensures
            r@ == self@,
    {
        proof {
            use_type_invariant(self);
        }
        let call = copy_range(self.call.as_slice(), 0, self.call.len());
        assert(call@ =~= self.call@);
        let ssid = match &self.ssid {
            Some(s) => {
                let c = copy_range(s.as_slice(), 0, s.len());
                assert(c@ =~= s@);
                Some(c)
            },
            None => None,
        };
        Callsign { call, ssid }
    }
}

impl Callsign {
    #[verifier::type_invariant]
    closed spec fn inv(&self) -> bool {
        callsign_wf(self@)
    }

    /// Parse a textual callsign (e.g. `W1AW-9`, or a D-STAR `K0HRV-S`).
    pub fn decode_textual(input: &[u8]) -> (r: Result<Self, AprsError>)
        ensures
            match (r, spec_decode_callsign(input@)) {
                (Ok(c), Ok(v)) => c@ == v,
                (Err(e), Err(v)) => e@ == v,
                _ => false,
            },
    {
        let dash = find_byte(input, '-' as u8);
        proof {
            lemma_index_of(input@, 45u8);
        }
        let (call_bytes, ssid) = match dash {
            Some(pos) => {
                assert(pos < input@.len());
                assert(pos < input.len());
                let rest = vstd::slice::slice_subrange(input, pos + 1, input.len());
                match parse_ssid(rest) {
                    Some(s) => (vstd::slice::slice_subrange(input, 0, pos), s),
                    None => {
                        return Err(AprsError::InvalidCallsign { raw: vstd::slice::slice_to_vec(input) });
                    },
                }
            },
            None => (input, None),
        };
        match parse_call(call_bytes) {
            Some(call) => {
                let c = Callsign { call, ssid };
                Ok(c)
            },
            None => Err(AprsError::InvalidCallsign { raw: vstd::slice::slice_to_vec(input) }),
        }
    }

    /// Decode a 7-byte AX.25 address field; returns the callsign and the
    /// end-of-address flag.
    ///
    /// AX.25 stores each character shifted left one bit. The SSID byte holds the
    /// SSID in bits 1–4 and the end-of-address flag in bit 0.
    pub fn decode_ax25(bytes: &[u8]) -> (r: Result<(Self, bool), AprsError>)
        ensures
            match (r, spec_decode_callsign_ax25(bytes@)) {
                (Ok((c, eoa)), Ok((v, veoa))) => c@ == v && eoa == veoa,
                (Err(e), Err(v)) => e@ == v,
                _ => false,
            },
    {
        if bytes.len() < 7 {
            return Err(AprsError::TruncatedPacket { expected: 7, got: bytes.len() });
        }
        let mut raw_call: Vec<u8> = Vec::new();
        let mut i: usize = 0;
        while i < 6
            invariant
                i <= 6,
                bytes@.len() >= 7,
                raw_call@ == ax25_call_chars(bytes@).subrange(0, i as int),
                forall|j: int| 0 <= j < i ==> bytes@[j] % 2 == 0,
            decreases 6 - i,
        {
            let shifted = bytes[i];
            if shifted % 2 != 0 {
                return Err(AprsError::InvalidCallsign { raw: copy_range(bytes, 0, 7) });
            }
            raw_call.push(shifted / 2);
            i = i + 1;
            assert(raw_call@ =~= ax25_call_chars(bytes@).subrange(0, i as int));
        }
        assert(raw_call@ =~= ax25_call_chars(bytes@));
        trim_spaces_end_exec(&mut raw_call);
        let call = match parse_call(raw_call.as_slice()) {
            Some(c) => c,
            None => {
                return Err(AprsError::InvalidCallsign { raw: copy_range(bytes, 0, 7) });
            },
        };
        let ssid_byte = bytes[6];
        let ssid_val = (ssid_byte / 2) % 16;
        let ssid = if ssid_val == 0 {
            None
        } else {
            let mut s: Vec<u8> = Vec::new();
            push_dec(&mut s, ssid_val as u64);
            proof {
                lemma_dec_digits(ssid_val as nat);
                assert(s@ =~= dec_digits(ssid_val as nat));
                lemma_canonical_ssid(ssid_val as nat);
            }
            Some(s)
        };
        let eoa = ssid_byte % 2 != 0;
        Ok((Callsign { call, ssid }, eoa))
    }

    /// The base call, without the SSID.
    pub fn as_str(&self) -> (r: &str)
        ensures
            r.spec_bytes() == self@.call,
            r@ == ascii_chars(self@.call),
    {
        proof {
            use_type_invariant(self);
        }
        ascii_str(self.call.as_slice())
    }

    /// The SSID in textual form (e.g. `"9"`, `"S"`), or `None` for no SSID.
    pub fn ssid(&self) -> (r: Option<&str>)
        ensures
            match (r, self@.ssid) {
                (Some(s), Some(v)) => s.spec_bytes() == v && s@ == ascii_chars(v),
                (None, None) => true,
                _ => false,
            },
    {
        proof {
            use_type_invariant(self);
        }
        match &self.ssid {
            Some(s) => Some(ascii_str(s.as_slice())),
            None => None,
        }
    }

    /// The SSID as a number, if it is numeric (0–15). Returns `None` for no SSID
    /// or for an alphanumeric (e.g. D-STAR) SSID.
    pub fn ssid_numeric(&self) -> (r: Option<u8>)
        ensures
            r == spec_ssid_numeric(self@),
    {
        match &self.ssid {
            Some(s) => match parse_unsigned(s.as_slice(), 255) {
                Some(v) => if v <= 15 {
                    Some(v as u8)
                } else {
                    None
                },
                None => None,
            },
            None => None,
        }
    }

    /// Write this callsign in textual APRS format.
    pub fn encode_textual(&self, out: &mut Vec<u8>)
        ensures
            final(out)@ == old(out)@ + spec_encode_callsign(self@),
    {
        extend(out, self.call.as_slice());
        match &self.ssid {
            Some(s) => {
                out.push('-' as u8);
                extend(out, s.as_slice());
            },
            None => {},
        }
        proof {
            match self@.ssid {
                Some(s) => {
                    assert(final(out)@ =~= old(out)@ + spec_encode_callsign(self@));
                },
                None => {},
            }
        }
    }

    /// Write this callsign as a 7-byte AX.25 address field.
    ///
    /// AX.25 can only represent numeric SSIDs 0–15; an alphanumeric SSID (only
    /// valid in textual/APRS-IS form) is encoded as SSID 0. Only the first six
    /// characters of the call fit in the field.
    pub fn encode_ax25(&self, out: &mut Vec<u8>, eoa: bool)
        ensures
            final(out)@ == old(out)@ + spec_encode_callsign_ax25(self@, eoa),
    {
        proof {
            use_type_invariant(self);
        }
        let mut i: usize = 0;
        while i < 6
            invariant
                i <= 6,
                callsign_wf(self@),
                out@ == old(out)@ + spec_encode_callsign_ax25(self@, eoa).subrange(0, i as int),
            decreases 6 - i,
        {
            let b = if i < self.call.len() {
                self.call[i]
            } else {
                ' ' as u8
            };
            proof {
                if i < self.call.len() {
                    assert(is_call_byte(self@.call[i as int]));
                }
            }
            out.push(b * 2);
            i = i + 1;
            assert(out@ =~= old(out)@ + spec_encode_callsign_ax25(self@, eoa).subrange(
                0,
                i as int,
            ));
        }
        let ssid_val: u8 = match self.ssid_numeric() {
            Some(v) => v,
            None => 0,
        };
        let eoa_bit: u8 = if eoa {
            1
        } else {
            0
        };
        out.push(96 + ssid_val * 2 + eoa_bit);
        assert(out@ =~= old(out)@ + spec_encode_callsign_ax25(self@, eoa));
    }

    /// The textual form (`CALL` or `CALL-SSID`) as a string.
    pub fn to_string(&self) -> (r: String)
        ensures
            encode_utf8(r@) == spec_encode_callsign(self@),
            r@ == ascii_chars(spec_encode_callsign(self@)),
    {
        proof {
            use_type_invariant(self);
        }
        let mut out: Vec<u8> = Vec::new();
        self.encode_textual(&mut out);
        proof {
            lemma_encode_ascii(self@);
            crate::text::lemma_ascii_utf8(out@);
            vstd::utf8::decode_utf8_encode_utf8(out@);
        }
        ascii_string(out.as_slice())
    }
}

/// The bytes `UNKNOWN`.
pub open spec fn unknown_call() -> Seq<u8> {
    seq![85u8, 78u8, 75u8, 78u8, 79u8, 87u8, 78u8]
}

impl Callsign {
    /// The callsign `UNKNOWN`, which stands in for a gateway that a via path
    /// leaves out.
    pub(crate) fn unknown() -> (r: Self)
        ensures
            r@ == (CallsignView { call: unknown_call(), ssid: None }),
    {
        let call: Vec<u8> = vec!['U' as u8, 'N' as u8, 'K' as u8, 'N' as u8, 'O' as u8, 'W' as u8, 'N' as u8];
        assert(call@ =~= unknown_call());
        assert(all_call_bytes(call@)) by {
            assert forall|i: int| 0 <= i < call@.len() implies is_call_byte(#[trigger] call@[i]) by {
                assert(is_upper(call@[i]));
            }
        }
        Callsign { call, ssid: None }
    }
}

/// The textual form of a well-formed callsign is ASCII.
pub proof fn lemma_encode_ascii(c: CallsignView)
    requires
        callsign_wf(c),
    ensures
        all_ascii(spec_encode_callsign(c)),
{
    let e = spec_encode_callsign(c);
    assert forall|i: int| 0 <= i < e.len() implies #[trigger] e[i] < 128 by {
        if i < c.call.len() {
            assert(is_call_byte(c.call[i]));
        } else if let Some(s) = c.ssid {
            if i > c.call.len() {
                assert(e[i] == s[i - c.call.len() - 1]);
                assert(is_call_byte(s[i - c.call.len() - 1]));
            }
        }
    }
}

/// Every byte of the textual form of a well-formed callsign is a letter, a
/// digit or the `-` before the SSID.
pub open spec fn callsign_text_bytes(e: Seq<u8>) -> bool {
    forall|i: int| 0 <= i < e.len() ==> is_call_byte(#[trigger] e[i]) || e[i] == 45u8
}

/// A callsign that decodes from text is well formed.
pub proof fn lemma_decode_callsign_wf(b: Seq<u8>)
    requires
        spec_decode_callsign(b) is Ok,
    ensures
        callsign_wf(spec_decode_callsign(b)->Ok_0),
{
    let dash = index_of(b, 45u8);
    lemma_index_of(b, 45u8);
    let call = if dash >= 0 {
        b.subrange(0, dash)
    } else {
        b
    };
    lemma_upper_seq_call_bytes(call);
    if dash >= 0 {
        let sb = b.subrange(dash + 1, b.len() as int);
        if all_digits(sb) {
            if digits_value(sb) != 0 {
                lemma_canonical_ssid(digits_value(sb));
            }
        } else {
            lemma_upper_seq_call_bytes(sb);
        }
    }
}

proof fn lemma_upper_seq_id(s: Seq<u8>)
    requires
        all_call_bytes(s),
    ensures
        upper_seq(s) == s,
        all_alnum(s),
{
    assert forall|i: int| 0 <= i < s.len() implies #[trigger] upper_seq(s)[i] == s[i] by {
        assert(is_call_byte(s[i]));
    }
    assert(upper_seq(s) =~= s);
    assert forall|i: int| 0 <= i < s.len() implies is_alnum(#[trigger] s[i]) by {
        assert(is_call_byte(s[i]));
    }
}

/// Decoding the textual form of a well-formed callsign gives the callsign back;
/// that form holds only letters, digits and the `-` before the SSID.
pub proof fn lemma_callsign_round_trip(c: CallsignView)
    requires
        callsign_wf(c),
    ensures
        spec_decode_callsign(spec_encode_callsign(c)) == Ok::<CallsignView, AprsErrorView>(c),
        callsign_text_bytes(spec_encode_callsign(c)),
        spec_encode_callsign(c).len() > 0,
{
    let e = spec_encode_callsign(c);
    lemma_upper_seq_id(c.call);
    match c.ssid {
        Some(s) => {
            let k = c.call.len() as int;
            assert forall|j: int| 0 <= j < k implies e[j] != 45u8 by {
                assert(is_call_byte(c.call[j]));
            }
            lemma_index_of_at(e, 45u8, k);
            assert(e.subrange(0, k) =~= c.call);
            assert(e.subrange(k + 1, e.len() as int) =~= s);
            lemma_upper_seq_id(s);
            assert forall|i: int| 0 <= i < e.len() implies is_call_byte(#[trigger] e[i])
                || e[i] == 45u8 by {
                if i < k {
                    assert(e[i] == c.call[i]);
                } else if i > k {
                    assert(e[i] == s[i - k - 1]);
                }
            }
        },
        None => {
            assert forall|j: int| 0 <= j < e.len() implies e[j] != 45u8 by {
                assert(is_call_byte(c.call[j]));
            }
            lemma_index_of(e, 45u8);
        },
    }
}

/// A callsign that an AX.25 address field holds: at most six characters,
/// and no SSID or the canonical form of a number 1–15.
pub open spec fn ax25_callsign(c: CallsignView) -> bool {
    &&& 1 <= c.call.len() <= 6
    &&& all_call_bytes(c.call)
    &&& c.ssid matches Some(s) ==> 1 <= digits_value(s) <= 15 && s == dec_digits(digits_value(s))
}

/// A callsign decoded from an AX.25 address field is one that such a field
/// holds.
pub proof fn lemma_decode_callsign_ax25_wf(bytes: Seq<u8>)
    requires
        spec_decode_callsign_ax25(bytes) is Ok,
    ensures
        ax25_callsign(spec_decode_callsign_ax25(bytes)->Ok_0.0),
{
    let raw = trim_spaces_end(ax25_call_chars(bytes));
    crate::util::lemma_trim_spaces_end(ax25_call_chars(bytes));
    lemma_upper_seq_call_bytes(raw);
    let v = (bytes[6] / 2) % 16;
    if v != 0 {
        lemma_dec_digits(v as nat);
    }
}

/// An AX.25 address field written for a callsign that such a field holds
/// decodes back to the callsign and the end-of-address flag; its SSID byte
/// leaves bit 7 (the has-been-repeated flag) clear.
pub proof fn lemma_callsign_ax25_round_trip(c: CallsignView, eoa: bool)
    requires
        ax25_callsign(c),
    ensures
        spec_decode_callsign_ax25(spec_encode_callsign_ax25(c, eoa)) == Ok::<
            (CallsignView, bool),
            AprsErrorView,
        >((c, eoa)),
        spec_encode_callsign_ax25(c, eoa).len() == 7,
        spec_encode_callsign_ax25(c, eoa)[6] < 128,
{
    let e = spec_encode_callsign_ax25(c, eoa);
    assert forall|i: int| 0 <= i < 6 implies #[trigger] e[i] % 2 == 0 && e[i] / 2 == (if i
        < c.call.len() {
        c.call[i]
    } else {
        32u8
    }) by {
        if i < c.call.len() {
            assert(is_call_byte(c.call[i]));
        }
    }
    let pad = Seq::new((6 - c.call.len()) as nat, |i: int| 32u8);
    assert(ax25_call_chars(e) =~= c.call + pad);
    assert(is_call_byte(c.call.last()));
    crate::util::lemma_trim_spaces_pad(c.call, (6 - c.call.len()) as nat);
    lemma_upper_seq_id(c.call);
    let ssid: int = match spec_ssid_numeric(c) {
        Some(v) => v as int,
        None => 0,
    };
    match c.ssid {
        Some(s) => {
            lemma_dec_digits(digits_value(s));
            assert(s[0] != 43u8);
            assert(spec_ssid_numeric(c) == Some(digits_value(s) as u8));
        },
        None => {},
    }
    let b = e[6];
    assert(b == (96 + ssid * 2 + if eoa { 1int } else { 0 }) as u8);
    assert(0 <= ssid <= 15);
    assert((b / 2) % 16 == ssid);
    assert(b % 2 != 0 <==> eoa);
}

/// An AX.25 address field, with or without the has-been-repeated flag,
/// written for a callsign that such a field holds decodes back to the
/// callsign and the end-of-address flag, and carries the flag in bit 7 of its
/// SSID byte.
pub proof fn lemma_address_ax25_round_trip(c: CallsignView, eoa: bool, repeated: bool)
    requires
        ax25_callsign(c),
    ensures
        spec_decode_callsign_ax25(spec_encode_address_ax25(c, eoa, repeated)) == Ok::<
            (CallsignView, bool),
            AprsErrorView,
        >((c, eoa)),
        spec_encode_address_ax25(c, eoa, repeated).len() == 7,
        (spec_encode_address_ax25(c, eoa, repeated)[6] >= 128) == repeated,
{
    lemma_callsign_ax25_round_trip(c, eoa);
    let f = spec_encode_callsign_ax25(c, eoa);
    if repeated {
        let g = spec_encode_address_ax25(c, eoa, repeated);
        let b = f[6];
        assert(g[6] == b + 128);
        assert(((b + 128) / 2) % 16 == (b / 2) % 16);
        assert((b + 128) % 2 == b % 2);
        assert(ax25_call_chars(g) =~= ax25_call_chars(f));
        assert(g.subrange(0, 7) =~= g);
        assert(f.subrange(0, 7) =~= f);
        assert forall|i: int| 0 <= i < 6 implies g[i] == f[i] by {}
    }
}

/// The canonical decimal form of an SSID 1–15 is a well-formed SSID.
proof fn lemma_canonical_ssid(v: nat)
    requires
        1 <= v <= 15,
    ensures
        ssid_wf(dec_digits(v)),
{
    lemma_dec_digits(v);
    let s = dec_digits(v);
    assert forall|i: int| 0 <= i < s.len() implies is_call_byte(#[trigger] s[i]) by {
        assert(is_digit(s[i]));
    }
}

proof fn lemma_upper_seq_call_bytes(b: Seq<u8>)
    requires
        all_alnum(b),
    ensures
        all_call_bytes(upper_seq(b)),
        upper_seq(b).len() == b.len(),
        all_digits(b) <==> all_digits(upper_seq(b)),
{
    assert forall|i: int| 0 <= i < b.len() implies is_call_byte(#[trigger] upper_seq(b)[i]) by {
        assert(is_alnum(b[i]));
    }
    if all_digits(upper_seq(b)) {
        assert forall|i: int| 0 <= i < b.len() implies is_digit(#[trigger] b[i]) by {
            assert(is_digit(upper_seq(b)[i]));
        }
    }
}

fn upper_vec(b: &[u8]) -> (r: Vec<u8>)
    ensures
        r@ == upper_seq(b@),
{
    let mut r: Vec<u8> = Vec::new();
    let mut i: usize = 0;
    while i < b.len()
        invariant
            i <= b.len(),
            r@ == upper_seq(b@.subrange(0, i as int)),
        decreases b.len() - i,
    {
        r.push(uppercase(b[i]));
        i = i + 1;
        assert(r@ =~= upper_seq(b@.subrange(0, i as int)));
    }
    assert(b@.subrange(0, b@.len() as int) =~= b@);
    r
}

fn parse_call(bytes: &[u8]) -> (r: Option<Vec<u8>>)
    ensures
        match (r, spec_parse_call(bytes@)) {
            (Some(c), Some(v)) => c@ == v && 1 <= v.len() <= MAX_CALL_LEN && all_call_bytes(v),
            (None, None) => true,
            _ => false,
        },
{
    if bytes.len() == 0 || bytes.len() > MAX_CALL_LEN || !all_alnum_exec(bytes) {
        return None;
    }
    proof {
        lemma_upper_seq_call_bytes(bytes@);
    }
    Some(upper_vec(bytes))
}

fn parse_ssid(bytes: &[u8]) -> (r: Option<Option<Vec<u8>>>)
    ensures
        match (r, spec_parse_ssid(bytes@)) {
            (Some(Some(s)), Some(Some(v))) => s@ == v && ssid_wf(v),
            (Some(None), Some(None)) => true,
            (None, None) => true,
            _ => false,
        },
{
    if bytes.len() == 0 || bytes.len() > MAX_SSID_LEN {
        return None;
    }
    if all_digits_exec(bytes) {
        let val = match digits_value_bounded(bytes, 255) {
            Some(v) => v,
            None => {
                return None;
            },
        };
        if val > 15 {
            return None;
        }
        if val == 0 {
            return Some(None);
        }
        let mut s: Vec<u8> = Vec::new();
        push_dec(&mut s, val);
        proof {
            assert(s@ =~= dec_digits(val as nat));
            lemma_canonical_ssid(val as nat);
        }
        return Some(Some(s));
    }
    if !all_alnum_exec(bytes) {
        return None;
    }
    proof {
        lemma_upper_seq_call_bytes(bytes@);
        assert(!all_digits(upper_seq(bytes@)));
    }
    Some(Some(upper_vec(bytes)))
}

} // verus!
