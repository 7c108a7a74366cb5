//! APRS telemetry report parsing and encoding.
//!
//! # Data packet
//! Format: `T#SSS,V1,V2,V3,V4,V5,BBBBBBBB[,comment]`
//!
//! # Metadata (sent as messages to a specific station)
//! - `PARM.n1,n2,...` — parameter names (5 analog + up to 8 digital)
//! - `UNIT.u1,u2,...` — unit labels
//! - `EQNS.a1,b1,c1,...` — equation coefficients (5 triples)
//! - `BITS.bbbbbbbbb,project` — bit sense flags + project name
//!
//! Analog values are kept as the number text that was received (trimmed of
//! whitespace); a field holds a value exactly when `str::parse` would read
//! it as a floating-point number.
use crate::error::{AprsError, AprsErrorView};
use crate::extensions::pow2;
use crate::numtext::{
    float_field, float_field_text, lemma_float_field_trim, lemma_float_syntax_bytes, number_byte,
    trim_ws,
};
use crate::util::{
    copy_from, copy_range, extend, find_byte, index_of, lacks, lemma_index_of, lemma_index_of_at,
    spec_split, split_exec,
};
use vstd::prelude::*;
use vstd::seq_lib::lemma_concat_associative;

verus! {

// ─── Comma-separated fields ──────────────────────────────────────────────────
/// The part of `s` before its first comma.
pub open spec fn first_field(s: Seq<u8>) -> Seq<u8> {
    let k = index_of(s, 44u8);
    if k < 0 {
        s
    } else {
        s.subrange(0, k)
    }
}

/// What follows the first `n` commas of `s`, if it has that many.
pub open spec fn skip_fields(s: Seq<u8>, n: nat) -> Option<Seq<u8>>
    decreases n,
{
    if n == 0 {
        Some(s)
    } else {
        let k = index_of(s, 44u8);
        if k < 0 {
            None
        } else {
            skip_fields(s.subrange(k + 1, s.len() as int), (n - 1) as nat)
        }
    }
}

/// The `n`-th comma-separated field of `s` (counting from 0), if present.
pub open spec fn nth_field(s: Seq<u8>, n: nat) -> Option<Seq<u8>> {
    match skip_fields(s, n) {
        Some(r) => Some(first_field(r)),
        None => None,
    }
}

/// Offset in `s` of what follows its first `n` commas.
pub(crate) fn skip_fields_exec(s: &[u8], n: usize) -> (r: Option<usize>)
    ensures
        match r {
            Some(off) => off <= s@.len() && skip_fields(s@, n as nat) == Some(
                s@.subrange(off as int, s@.len() as int),
            ),
            None => skip_fields(s@, n as nat) is None,
        },
{
    let mut off: usize = 0;
    let mut i: usize = 0;
    assert(s@.subrange(0, s@.len() as int) =~= s@);
    while i < n
        invariant
            i <= n,
            off <= s@.len(),
            skip_fields(s@, n as nat) == skip_fields(
                s@.subrange(off as int, s@.len() as int),
                (n - i) as nat,
            ),
        decreases n - i,
    {
        let rest = vstd::slice::slice_subrange(s, off, s.len());
        proof {
            lemma_index_of(rest@, 44u8);
        }
        match find_byte(rest, ',' as u8) {
            Some(k) => {
                assert(rest@.subrange(k + 1, rest@.len() as int) =~= s@.subrange(
                    off + k + 1,
                    s@.len() as int,
                ));
                off = off + k + 1;
            },
            None => {
                return None;
            },
        }
        i = i + 1;
    }
    Some(off)
}

/// The part of `s` before its first comma.
fn first_field_exec(s: &[u8]) -> (r: &[u8])
    ensures
        r@ == first_field(s@),
{
    proof {
        lemma_index_of(s@, 44u8);
    }
    match find_byte(s, ',' as u8) {
        Some(k) => vstd::slice::slice_subrange(s, 0, k),
        None => s,
    }
}

/// The `n`-th comma-separated field of `s`.
pub(crate) fn nth_field_exec(s: &[u8], n: usize) -> (r: Option<&[u8]>)
    ensures
        match r {
            Some(f) => nth_field(s@, n as nat) == Some(f@),
            None => nth_field(s@, n as nat) is None,
        },
{
    match skip_fields_exec(s, n) {
        Some(off) => Some(first_field_exec(vstd::slice::slice_subrange(s, off, s.len()))),
        None => None,
    }
}

// ─── AprsTelemetry ───────────────────────────────────────────────────────────
/// An APRS telemetry data packet.
///
/// DTI: `T` (followed by `#`)
///
/// The APRS spec defines exactly 5 analog channels and 8 digital bits.
#[derive(Debug, PartialEq, Eq)]
pub struct AprsTelemetry {
    /// Sequence number (000–999, or MIC-E style alphanumeric).
    pub sequence: Vec<u8>,
    /// Five analog channel values, as number text. `None` means the field was
    /// absent or not a number.
    pub analog: [Option<Vec<u8>>; 5],
    /// Eight digital channel bits packed into a byte (bit 7 = channel 1).
    pub digital: u8,
    pub comment: Vec<u8>,
}

pub open spec fn opt_view(o: Option<Vec<u8>>) -> Option<Seq<u8>> {
    match o {
        Some(v) => Some(v@),
        None => None,
    }
}

/// Mathematical model of [`AprsTelemetry`].
pub struct AprsTelemetryView {
    pub sequence: Seq<u8>,
    pub analog: Seq<Option<Seq<u8>>>,
    pub digital: u8,
    pub comment: Seq<u8>,
}

impl View for AprsTelemetry {
    type V = AprsTelemetryView;

    open spec fn view(&self) -> AprsTelemetryView {
        AprsTelemetryView {
            sequence: self.sequence@,
            analog: self.analog@.map_values(|o: Option<Vec<u8>>| opt_view(o)),
            digital: self.digital,
            comment: self.comment@,
        }
    }
}

/// The value of a string of `0`/`1` digits read as a binary number.
pub open spec fn bin_value(s: Seq<u8>) -> nat
    decreases s.len(),
{
    if s.len() == 0 {
        0
    } else {
        bin_value(s.drop_last()) * 2 + (s.last() - 48) as nat
    }
}

/// Every byte of `s` is `0` or `1`.
pub open spec fn all_bits(s: Seq<u8>) -> bool {
    forall|i: int| 0 <= i < s.len() ==> (#[trigger] s[i] == 48u8 || s[i] == 49u8)
}

/// Analog channel `i`: the trimmed text of field `i + 1` when it is a number.
pub open spec fn analog_value(body: Seq<u8>, i: nat) -> Option<Seq<u8>> {
    match nth_field(body, i + 1) {
        Some(p) => if float_field(p) {
            Some(trim_ws(p))
        } else {
            None
        },
        None => None,
    }
}

/// The digital byte: the first eight bytes of field 6 read as binary, or 0
/// when they are missing or not all `0`/`1`.
pub open spec fn digital_value(body: Seq<u8>) -> u8 {
    match nth_field(body, 6) {
        Some(p) => if p.len() >= 8 && all_bits(p.subrange(0, 8)) {
            bin_value(p.subrange(0, 8)) as u8
        } else {
            0
        },
        None => 0,
    }
}

/// A telemetry information field `T#SSS,V1,...,V5,BBBBBBBB[,comment]`.
pub open spec fn spec_parse_telemetry(info: Seq<u8>) -> Result<AprsTelemetryView, AprsErrorView> {
    if info.len() < 2 || info[1] != 35u8 {
        Err(AprsErrorView::TruncatedPacket { expected: 2, got: info.len() as usize })
    } else {
        Ok(telemetry_of_body(info.subrange(2, info.len() as int)))
    }
}

/// The report written in the text after `T#`.
#[verifier::opaque]
pub open spec fn telemetry_of_body(body: Seq<u8>) -> AprsTelemetryView {
    AprsTelemetryView {
        sequence: first_field(body),
        analog: Seq::new(5, |i: int| analog_value(body, i as nat)),
        digital: digital_value(body),
        comment: match skip_fields(body, 7) {
            Some(c) => c,
            None => Seq::empty(),
        },
    }
}

/// `,` followed by each analog value (empty when absent).
pub open spec fn analog_fields(a: Seq<Option<Seq<u8>>>) -> Seq<u8>
    decreases a.len(),
{
    if a.len() == 0 {
        Seq::empty()
    } else {
        analog_fields(a.drop_last()) + seq![44u8] + match a.last() {
            Some(t) => t,
            None => Seq::empty(),
        }
    }
}

/// The eight bits of `d`, most significant first, as `0`/`1` digits.
pub open spec fn bits8(d: u8) -> Seq<u8> {
    Seq::new(
        8,
        |i: int|
            if (d as nat / pow2((7 - i) as nat)) % 2 == 1 {
                49u8
            } else {
                48u8
            },
    )
}

/// The wire form of a telemetry report.
pub open spec fn spec_encode_telemetry(t: AprsTelemetryView) -> Seq<u8> {
    seq![84u8, 35u8] + t.sequence + analog_fields(t.analog) + seq![44u8] + bits8(t.digital) + (
    if t.comment.len() > 0 {
        seq![44u8] + t.comment
    } else {
        Seq::empty()
    })
}

proof fn lemma_pow2_step(n: nat)
    ensures
        pow2(n + 1) == 2 * pow2(n),
        pow2(n) >= 1,
    decreases n,
{
    if n > 0 {
        lemma_pow2_step((n - 1) as nat);
    }
}

/// The first `j` bits of `bits8(d)` read as binary are `d / 2^(8 - j)`.
proof fn lemma_bits8_prefix(d: u8, j: nat)
    requires
        j <= 8,
    ensures
        bin_value(bits8(d).subrange(0, j as int)) == d as nat / pow2((8 - j) as nat),
    decreases j,
{
    let b = bits8(d);
    if j == 0 {
        assert(pow2(8) == 256) by {
            reveal_with_fuel(pow2, 9);
        }
        assert(b.subrange(0, 0) =~= Seq::<u8>::empty());
        assert(d as nat / 256 == 0);
        assert(bin_value(Seq::<u8>::empty()) == 0);
    } else {
        lemma_bits8_prefix(d, (j - 1) as nat);
        let k = (8 - j) as nat;
        lemma_pow2_step(k);
        let x = d as nat / pow2(k);
        vstd::arithmetic::div_mod::lemma_div_denominator(d as int, pow2(k) as int, 2);
        assert(pow2(k) * 2 == pow2(k + 1));
        assert(x / 2 == d as nat / pow2(k + 1));
        assert((k + 1) as nat == (8 - (j - 1)) as nat);
        assert(b.subrange(0, j as int).drop_last() =~= b.subrange(0, j - 1));
        assert(b.subrange(0, j as int).last() == b[j - 1]);
        assert(x == 2 * (x / 2) + x % 2);
        assert((7 - (j - 1)) as nat == k);
        assert(b[j - 1] == if x % 2 == 1 {
            49u8
        } else {
            48u8
        });
        assert((b[j - 1] - 48) as nat == x % 2);
        assert(bin_value(b.subrange(0, j as int)) == bin_value(b.subrange(0, j - 1)) * 2 + (b[j
            - 1] - 48) as nat);
        assert(bin_value(b.subrange(0, j - 1)) == x / 2);
        assert(bin_value(b.subrange(0, j as int)) == x);
    }
}

/// The eight bits written for a byte read back as that byte.
pub proof fn lemma_bits8_round_trip(d: u8)
    ensures
        bits8(d).len() == 8,
        all_bits(bits8(d)),
        bin_value(bits8(d)) == d as nat,
{
    lemma_bits8_prefix(d, 8);
    assert(bits8(d).subrange(0, 8) =~= bits8(d));
    assert(pow2(0) == 1);
    assert(d as nat / 1 == d as nat);
}

/// The fields after a first field without a comma are the fields of what
/// follows its comma.
pub proof fn lemma_skip_cons(p: Seq<u8>, rest: Seq<u8>, n: nat)
    requires
        lacks(p, 44u8),
    ensures
        skip_fields(p + seq![44u8] + rest, n + 1) == skip_fields(rest, n),
        first_field(p + seq![44u8] + rest) == p,
{
    let s = p + seq![44u8] + rest;
    assert forall|i: int| 0 <= i < p.len() implies s[i] != 44u8 by {
        assert(s[i] == p[i]);
    }
    lemma_index_of_at(s, 44u8, p.len() as int);
    assert(s.subrange(p.len() as int + 1, s.len() as int) =~= rest);
    assert(s.subrange(0, p.len() as int) =~= p);
}

/// The text written for an analog value.
pub open spec fn analog_text(o: Option<Seq<u8>>) -> Seq<u8> {
    match o {
        Some(t) => t,
        None => Seq::empty(),
    }
}

proof fn lemma_analog_fields_front(a: Seq<Option<Seq<u8>>>)
    requires
        a.len() > 0,
    ensures
        analog_fields(a) == seq![44u8] + analog_text(a[0]) + analog_fields(a.drop_first()),
    decreases a.len(),
{
    if a.len() == 1 {
        assert(a.drop_last() =~= Seq::<Option<Seq<u8>>>::empty());
        assert(a.drop_first() =~= Seq::<Option<Seq<u8>>>::empty());
        assert(analog_fields(Seq::<Option<Seq<u8>>>::empty()) =~= Seq::<u8>::empty());
        assert(a.last() == a[0]);
        assert(analog_fields(a) =~= seq![44u8] + analog_text(a[0]) + analog_fields(
            a.drop_first(),
        ));
    } else {
        lemma_analog_fields_front(a.drop_last());
        assert(a.drop_last().drop_first() =~= a.drop_first().drop_last());
        assert(a.drop_last()[0] == a[0]);
        assert(a.drop_first().last() == a.last());
        assert(analog_fields(a) =~= seq![44u8] + analog_text(a[0]) + analog_fields(
            a.drop_first(),
        ));
    }
}

proof fn lemma_first_field_lacks(s: Seq<u8>)
    ensures
        lacks(first_field(s), 44u8),
{
    lemma_index_of(s, 44u8);
}

/// What an analog field of a decoded report is written as: empty, or number
/// text without a comma that reads back as the same value.
proof fn lemma_analog_text(body: Seq<u8>, i: nat)
    ensures
        lacks(analog_text(analog_value(body, i)), 44u8),
        float_field(analog_text(analog_value(body, i))) ==> analog_value(body, i) is Some,
        analog_value(body, i) matches Some(t) ==> float_field(t) && trim_ws(t) == t,
{
    match analog_value(body, i) {
        Some(t) => {
            let p = nth_field(body, i + 1)->Some_0;
            lemma_float_field_trim(p);
            assert forall|j: int| 0 <= j < t.len() implies #[trigger] t[j] != 44u8 by {
                assert(number_byte(t[j]));
            }
        },
        None => {
            if float_field(Seq::<u8>::empty()) {
                assert(trim_ws(Seq::<u8>::empty()) =~= Seq::<u8>::empty());
                lemma_float_syntax_bytes(Seq::<u8>::empty());
            }
        },
    }
}

/// The comma-separated fields of written text: the first field, five more,
/// a seventh, and what follows the seventh comma.
proof fn lemma_seven_fields(
    s: Seq<u8>,
    tx: Seq<Seq<u8>>,
    b: Seq<u8>,
    comment: Seq<u8>,
)
    requires
        tx.len() == 5,
        lacks(s, 44u8),
        forall|i: int| 0 <= i < 5 ==> lacks(#[trigger] tx[i], 44u8),
        lacks(b, 44u8),
    ensures
        ({
            let c = if comment.len() > 0 {
                seq![44u8] + comment
            } else {
                Seq::<u8>::empty()
            };
            let nb = telemetry_text(s, tx, b, comment);
            &&& first_field(nb) == s
            &&& forall|i: nat| i < 5 ==> nth_field(nb, i + 1) == Some(#[trigger] tx[i as int])
            &&& nth_field(nb, 6) == Some(b)
            &&& skip_fields(nb, 7) == if comment.len() > 0 {
                Some(comment)
            } else {
                None
            }
        }),
{
    let c = if comment.len() > 0 {
        seq![44u8] + comment
    } else {
        Seq::<u8>::empty()
    };
    assert(lacks(tx[0], 44u8) && lacks(tx[1], 44u8) && lacks(tx[2], 44u8) && lacks(tx[3], 44u8)
        && lacks(tx[4], 44u8));
    let r6 = b + c;
    let r5 = tx[4] + seq![44u8] + r6;
    let r4 = tx[3] + seq![44u8] + r5;
    let r3 = tx[2] + seq![44u8] + r4;
    let r2 = tx[1] + seq![44u8] + r3;
    let r1 = tx[0] + seq![44u8] + r2;
    let nb = s + seq![44u8] + r1;
    assert(nb =~= s + seq![44u8] + tx[0] + seq![44u8] + tx[1] + seq![44u8] + tx[2] + seq![44u8]
        + tx[3] + seq![44u8] + tx[4] + seq![44u8] + b + c);
    lemma_skip_cons(s, r1, 0);
    lemma_skip_cons(tx[0], r2, 0);
    lemma_skip_cons(tx[1], r3, 0);
    lemma_skip_cons(tx[2], r4, 0);
    lemma_skip_cons(tx[3], r5, 0);
    lemma_skip_cons(tx[4], r6, 0);
    assert(skip_fields(nb, 1) == Some(r1));
    assert(skip_fields(nb, 2) == Some(r2)) by {
        lemma_skip_cons(s, r1, 1);
        lemma_skip_cons(tx[0], r2, 0);
    }
    assert(skip_fields(nb, 3) == Some(r3)) by {
        lemma_skip_cons(s, r1, 2);
        lemma_skip_cons(tx[0], r2, 1);
        lemma_skip_cons(tx[1], r3, 0);
    }
    assert(skip_fields(nb, 4) == Some(r4)) by {
        lemma_skip_cons(s, r1, 3);
        lemma_skip_cons(tx[0], r2, 2);
        lemma_skip_cons(tx[1], r3, 1);
        lemma_skip_cons(tx[2], r4, 0);
    }
    assert(skip_fields(nb, 5) == Some(r5)) by {
        lemma_skip_cons(s, r1, 4);
        lemma_skip_cons(tx[0], r2, 3);
        lemma_skip_cons(tx[1], r3, 2);
        lemma_skip_cons(tx[2], r4, 1);
        lemma_skip_cons(tx[3], r5, 0);
    }
    assert(skip_fields(nb, 6) == Some(r6)) by {
        lemma_skip_cons(s, r1, 5);
        lemma_skip_cons(tx[0], r2, 4);
        lemma_skip_cons(tx[1], r3, 3);
        lemma_skip_cons(tx[2], r4, 2);
        lemma_skip_cons(tx[3], r5, 1);
        lemma_skip_cons(tx[4], r6, 0);
    }
    assert(skip_fields(nb, 7) == skip_fields(r6, 1)) by {
        lemma_skip_cons(s, r1, 6);
        lemma_skip_cons(tx[0], r2, 5);
        lemma_skip_cons(tx[1], r3, 4);
        lemma_skip_cons(tx[2], r4, 3);
        lemma_skip_cons(tx[3], r5, 2);
        lemma_skip_cons(tx[4], r6, 1);
    }
    if comment.len() > 0 {
        assert(r6 =~= b + seq![44u8] + comment);
        lemma_skip_cons(b, comment, 0);
    } else {
        assert(r6 =~= b);
        lemma_index_of(b, 44u8);
        assert(skip_fields(b.subrange(0, 0), 0) == Some(b.subrange(0, 0)));
    }
    assert forall|i: nat| i < 5 implies nth_field(nb, i + 1) == Some(#[trigger] tx[i as int]) by {
        if i == 0 {
        } else if i == 1 {
        } else if i == 2 {
        } else if i == 3 {
        } else {
        }
    }
}

/// The report of a text whose fields hold what `t` holds.
proof fn lemma_telemetry_of_fields(nb: Seq<u8>, t: AprsTelemetryView)
    requires
        t.analog.len() == 5,
        first_field(nb) == t.sequence,
        forall|i: int| 0 <= i < 5 ==> analog_value(nb, i as nat) == #[trigger] t.analog[i],
        digital_value(nb) == t.digital,
        (match skip_fields(nb, 7) {
            Some(c) => c,
            None => Seq::empty(),
        }) == t.comment,
    ensures
        telemetry_of_body(nb) == t,
{
    reveal(telemetry_of_body);
    assert(telemetry_of_body(nb).analog =~= t.analog);
}

/// What a decoded report holds, field by field.
proof fn lemma_telemetry_fields(body: Seq<u8>)
    ensures
        telemetry_of_body(body).sequence == first_field(body),
        telemetry_of_body(body).analog.len() == 5,
        forall|i: int|
            0 <= i < 5 ==> #[trigger] telemetry_of_body(body).analog[i] == analog_value(
                body,
                i as nat,
            ),
        telemetry_of_body(body).digital == digital_value(body),
        telemetry_of_body(body).comment == match skip_fields(body, 7) {
            Some(c) => c,
            None => Seq::empty(),
        },
{
    reveal(telemetry_of_body);
}

/// Written telemetry text after `T#`: sequence, five analog texts, the bits
/// and the comment, separated by commas.
pub open spec fn telemetry_text(s: Seq<u8>, tx: Seq<Seq<u8>>, b: Seq<u8>, comment: Seq<u8>) -> Seq<
    u8,
> {
    let c = if comment.len() > 0 {
        seq![44u8] + comment
    } else {
        Seq::<u8>::empty()
    };
    s + seq![44u8] + (tx[0] + seq![44u8] + (tx[1] + seq![44u8] + (tx[2] + seq![44u8] + (tx[3]
        + seq![44u8] + (tx[4] + seq![44u8] + (b + c))))))
}

proof fn lemma_encode_telemetry_text(t: AprsTelemetryView)
    requires
        t.analog.len() == 5,
    ensures
        spec_encode_telemetry(t) == seq![84u8, 35u8] + telemetry_text(
            t.sequence,
            Seq::new(5, |i: int| analog_text(t.analog[i])),
            bits8(t.digital),
            t.comment,
        ),
{
    let a0 = t.analog;
    let a1 = a0.drop_first();
    let a2 = a1.drop_first();
    let a3 = a2.drop_first();
    let a4 = a3.drop_first();
    let a5 = a4.drop_first();
    let tx = Seq::new(5, |i: int| analog_text(t.analog[i]));
    lemma_analog_fields_front(a0);
    lemma_analog_fields_front(a1);
    lemma_analog_fields_front(a2);
    lemma_analog_fields_front(a3);
    lemma_analog_fields_front(a4);
    assert(a5 =~= Seq::<Option<Seq<u8>>>::empty());
    assert(analog_fields(a5) =~= Seq::<u8>::empty());
    assert(a1[0] == a0[1] && a2[0] == a0[2] && a3[0] == a0[3] && a4[0] == a0[4]);
    let f4 = analog_fields(a4);
    let f3 = analog_fields(a3);
    let f2 = analog_fields(a2);
    let f1 = analog_fields(a1);
    let f0 = analog_fields(a0);
    let b = bits8(t.digital);
    let c = if t.comment.len() > 0 {
        seq![44u8] + t.comment
    } else {
        Seq::<u8>::empty()
    };
    let comma = seq![44u8];
    let u = comma + (b + c);
    let r6 = b + c;
    let r5 = tx[4] + comma + r6;
    let r4 = tx[3] + comma + r5;
    let r3 = tx[2] + comma + r4;
    let r2 = tx[1] + comma + r3;
    let r1 = tx[0] + comma + r2;
    assert(f4 =~= comma + tx[4]);
    assert(f4 + u =~= comma + r5);
    assert(f3 == comma + tx[3] + f4);
    assert(f3 + u =~= comma + r4) by {
        lemma_concat_associative(comma + tx[3], f4, u);
        lemma_concat_associative(comma, tx[3], comma + r5);
        lemma_concat_associative(tx[3], comma, r5);
    }
    assert(f2 == comma + tx[2] + f3);
    assert(f2 + u =~= comma + r3) by {
        lemma_concat_associative(comma + tx[2], f3, u);
        lemma_concat_associative(comma, tx[2], comma + r4);
        lemma_concat_associative(tx[2], comma, r4);
    }
    assert(f1 == comma + tx[1] + f2);
    assert(f1 + u =~= comma + r2) by {
        lemma_concat_associative(comma + tx[1], f2, u);
        lemma_concat_associative(comma, tx[1], comma + r3);
        lemma_concat_associative(tx[1], comma, r3);
    }
    assert(f0 == comma + tx[0] + f1);
    assert(f0 + u =~= comma + r1) by {
        lemma_concat_associative(comma + tx[0], f1, u);
        lemma_concat_associative(comma, tx[0], comma + r2);
        lemma_concat_associative(tx[0], comma, r2);
    }
    let hd = seq![84u8, 35u8] + t.sequence;
    assert(spec_encode_telemetry(t) == hd + f0 + comma + b + c);
    assert(hd + f0 + comma + b + c =~= hd + (f0 + u));
    assert(telemetry_text(t.sequence, tx, b, t.comment) == t.sequence + comma + r1);
    assert(hd + (comma + r1) =~= seq![84u8, 35u8] + (t.sequence + comma + r1));
}

proof fn lemma_analog_same(nb: Seq<u8>, body: Seq<u8>, i: nat)
    requires
        nth_field(nb, i + 1) == Some(analog_text(analog_value(body, i))),
    ensures
        analog_value(nb, i) == analog_value(body, i),
{
    lemma_analog_text(body, i);
}

proof fn lemma_digital_bits(nb: Seq<u8>, d: u8)
    requires
        nth_field(nb, 6) == Some(bits8(d)),
    ensures
        digital_value(nb) == d,
{
    lemma_bits8_round_trip(d);
    assert(bits8(d).subrange(0, 8) =~= bits8(d));
}

/// A decoded telemetry report decodes back from its written form.
pub proof fn lemma_telemetry_round_trip(info: Seq<u8>)
    requires
        spec_parse_telemetry(info) is Ok,
    ensures
        spec_parse_telemetry(spec_encode_telemetry(spec_parse_telemetry(info)->Ok_0))
            == spec_parse_telemetry(info),
        spec_encode_telemetry(spec_parse_telemetry(info)->Ok_0)[0] == 84u8,
{
    let body = info.subrange(2, info.len() as int);
    let t = telemetry_of_body(body);
    lemma_telemetry_fields(body);
    let a = t.analog;
    let tx = Seq::new(5, |i: int| analog_text(a[i]));
    lemma_first_field_lacks(body);
    assert forall|i: int| 0 <= i < 5 implies lacks(#[trigger] tx[i], 44u8) by {
        lemma_analog_text(body, i as nat);
    }
    let b = bits8(t.digital);
    lemma_bits8_round_trip(t.digital);
    assert(lacks(b, 44u8)) by {
        assert forall|j: int| 0 <= j < b.len() implies #[trigger] b[j] != 44u8 by {
            assert(b[j] == 48u8 || b[j] == 49u8);
        }
    }
    lemma_seven_fields(t.sequence, tx, b, t.comment);
    let nb = telemetry_text(t.sequence, tx, b, t.comment);
    lemma_encode_telemetry_text(t);
    let e = spec_encode_telemetry(t);
    assert(e.subrange(2, e.len() as int) =~= nb);
    assert forall|i: int| 0 <= i < 5 implies analog_value(nb, i as nat) == #[trigger] a[i] by {
        assert(nth_field(nb, (i + 1) as nat) == Some(tx[i]));
        lemma_analog_same(nb, body, i as nat);
    }
    lemma_digital_bits(nb, t.digital);
    if t.comment.len() == 0 {
        assert(t.comment =~= Seq::<u8>::empty());
    }
    lemma_telemetry_of_fields(nb, t);
}

fn analog_exec(body: &[u8], i: usize) -> (r: Option<Vec<u8>>)
    requires
        i < 5,
    ensures
        opt_view(r) == analog_value(body@, i as nat),
{
    match nth_field_exec(body, i + 1) {
        Some(p) => float_field_text(p),
        None => None,
    }
}

fn bits_exec(p: &[u8]) -> (r: Option<u8>)
    requires
        p@.len() == 8,
    ensures
        match r {
            Some(v) => all_bits(p@) && v == bin_value(p@),
            None => !all_bits(p@),
        },
{
    let mut v: u8 = 0;
    let mut i: usize = 0;
    while i < 8
        invariant
            p@.len() == 8,
            i <= 8,
            all_bits(p@.subrange(0, i as int)),
            v == bin_value(p@.subrange(0, i as int)),
            v < pow2(i as nat),
        decreases 8 - i,
    {
        let c = p[i];
        if c != '0' as u8 && c != '1' as u8 {
            assert(!(p@[i as int] == 48u8 || p@[i as int] == 49u8));
            return None;
        }
        proof {
            assert(p@.subrange(0, i + 1).drop_last() =~= p@.subrange(0, i as int));
            reveal_with_fuel(pow2, 9);
        }
        v = v * 2 + (c - '0' as u8);
        i = i + 1;
        assert(all_bits(p@.subrange(0, i as int))) by {
            assert forall|j: int| 0 <= j < i implies (#[trigger] p@.subrange(0, i as int)[j]
                == 48u8 || p@.subrange(0, i as int)[j] == 49u8) by {
                if j < i - 1 {
                    assert(p@.subrange(0, i as int)[j] == p@.subrange(0, i - 1)[j]);
                }
            }
        }
    }
    assert(p@.subrange(0, 8) =~= p@);
    Some(v)
}

fn digital_exec(body: &[u8]) -> (r: u8)
    ensures
        r == digital_value(body@),
{
    match nth_field_exec(body, 6) {
        Some(p) => {
            if p.len() >= 8 {
                match bits_exec(vstd::slice::slice_subrange(p, 0, 8)) {
                    Some(v) => v,
                    None => 0,
                }
            } else {
                0
            }
        },
        None => 0,
    }
}

impl AprsTelemetry {
    /// Decode from the information field (including the leading `T` DTI byte).
    pub fn parse(info: &[u8]) -> (r: Result<Self, AprsError>)
        ensures
            match (r, spec_parse_telemetry(info@)) {
                (Ok(t), Ok(v)) => t@ == v,
                (Err(e), Err(v)) => e@ == v,
                _ => false,
            },
    {
        proof {
            reveal(telemetry_of_body);
        }
        if info.len() < 2 || info[1] != '#' as u8 {
            return Err(AprsError::TruncatedPacket { expected: 2, got: info.len() });
        }
        let body = vstd::slice::slice_subrange(info, 2, info.len());
        let sequence = copy_from(first_field_exec(body), 0);
        let analog: [Option<Vec<u8>>; 5] = [
            analog_exec(body, 0),
            analog_exec(body, 1),
            analog_exec(body, 2),
            analog_exec(body, 3),
            analog_exec(body, 4),
        ];
        let digital = digital_exec(body);
        let comment = match skip_fields_exec(body, 7) {
            Some(off) => copy_from(body, off),
            None => Vec::new(),
        };
        let t = AprsTelemetry { sequence, analog, digital, comment };
        proof {
            let v = spec_parse_telemetry(info@)->Ok_0;
            assert(t@.sequence =~= v.sequence);
            assert(t@.analog =~= v.analog);
            assert(t@.comment =~= v.comment);
        }
        Ok(t)
    }

    pub fn encode(&self) -> (r: Vec<u8>)
        ensures
            r@ == spec_encode_telemetry(self@),
    {
        let mut out: Vec<u8> = Vec::new();
        out.push('T' as u8);
        out.push('#' as u8);
        extend(&mut out, self.sequence.as_slice());
        let ghost head = out@;
        let mut i: usize = 0;
        while i < 5
            invariant
                i <= 5,
                self.analog@.len() == 5,
                out@ == head + analog_fields(
                    self@.analog.subrange(0, i as int),
                ),
            decreases 5 - i,
        {
            out.push(',' as u8);
            match &self.analog[i] {
                Some(v) => extend(&mut out, v.as_slice()),
                None => {},
            }
            proof {
                let a = self@.analog;
                assert(a.subrange(0, i + 1).drop_last() =~= a.subrange(0, i as int));
                assert(a.subrange(0, i + 1).last() == opt_view(self.analog@[i as int]));
            }
            i = i + 1;
            assert(out@ =~= head + analog_fields(self@.analog.subrange(0, i as int)));
        }
        assert(self@.analog.subrange(0, 5) =~= self@.analog);
        out.push(',' as u8);
        let ghost mid = out@;
        let mut div: u8 = 128;
        let mut k: usize = 0;
        assert(pow2(7) == 128) by {
            reveal_with_fuel(pow2, 8);
        }
        while k < 8
            invariant
                k <= 8,
                div as nat == pow2((7 - k) as nat) || (k == 8 && div == 0),
                out@ == mid + bits8(self.digital).subrange(0, k as int),
            decreases 8 - k,
        {
            proof {
                reveal_with_fuel(pow2, 9);
            }
            if (self.digital / div) % 2 == 1 {
                out.push('1' as u8);
            } else {
                out.push('0' as u8);
            }
            div = div / 2;
            k = k + 1;
            assert(out@ =~= mid + bits8(self.digital).subrange(0, k as int));
        }
        assert(bits8(self.digital).subrange(0, 8) =~= bits8(self.digital));
        if self.comment.len() > 0 {
            out.push(',' as u8);
            extend(&mut out, self.comment.as_slice());
        }
        assert(out@ =~= spec_encode_telemetry(self@));
        out
    }
}

// ─── TelemetryMetadata ───────────────────────────────────────────────────────
/// Equation coefficients for one analog channel, `value = a + b*raw + c*raw²`,
/// each as the number text that was received (trimmed of whitespace). `None`
/// means the field was absent or not a number; the coefficient then takes its
/// default, 0 for `a` and `c` and 1 for `b`.
#[derive(Debug, Clone, PartialEq, Eq)]
pub struct TelemetryEquation {
    pub a: Option<Vec<u8>>,
    pub b: Option<Vec<u8>>,
    pub c: Option<Vec<u8>>,
}

/// Mathematical model of [`TelemetryEquation`].
pub struct TelemetryEquationView {
    pub a: Option<Seq<u8>>,
    pub b: Option<Seq<u8>>,
    pub c: Option<Seq<u8>>,
}

impl View for TelemetryEquation {
    type V = TelemetryEquationView;

    open spec fn view(&self) -> TelemetryEquationView {
        TelemetryEquationView { a: opt_view(self.a), b: opt_view(self.b), c: opt_view(self.c) }
    }
}

/// Coefficient field `i` of the comma-separated `parts`: its trimmed text when
/// it exists and is a number.
pub open spec fn eqn_field(parts: Seq<Seq<u8>>, i: int) -> Option<Seq<u8>> {
    if 0 <= i < parts.len() && float_field(parts[i]) {
        Some(trim_ws(parts[i]))
    } else {
        None
    }
}

/// The five equations of an `EQNS.` text: channel `i` takes fields `3i`,
/// `3i + 1` and `3i + 2`.
pub open spec fn spec_parse_eqns(text: Seq<u8>) -> Seq<TelemetryEquationView> {
    let parts = spec_split(text, 44u8);
    Seq::new(
        5,
        |i: int|
            TelemetryEquationView {
                a: eqn_field(parts, 3 * i),
                b: eqn_field(parts, 3 * i + 1),
                c: eqn_field(parts, 3 * i + 2),
            },
    )
}

fn eqn_field_exec(parts: &Vec<Vec<u8>>, i: usize) -> (r: Option<Vec<u8>>)
    ensures
        opt_view(r) == (if i < parts@.len() && float_field(parts@[i as int]@) {
            Some(trim_ws(parts@[i as int]@))
        } else {
            None
        }),
{
    if i < parts.len() {
        float_field_text(parts[i].as_slice())
    } else {
        None
    }
}

/// Telemetry metadata assembled from PARM./UNIT./EQNS./BITS. message texts.
///
/// Each field corresponds to one of the message types that APRS uses to
/// describe a station's telemetry channels. They are sent as directed messages
/// to the station whose telemetry they describe.
#[derive(Debug, Clone, PartialEq, Eq)]
pub struct TelemetryMetadata {
    /// Channel names: up to 5 analog + up to 8 digital = 13 entries.
    pub param_names: Vec<Option<Vec<u8>>>,
    /// Unit labels: same layout as param_names.
    pub unit_labels: Vec<Option<Vec<u8>>>,
    /// Equation coefficients for each of the 5 analog channels.
    pub equations: Vec<TelemetryEquation>,
    /// Bit sense flags: bit N (MSB first) is `true` if a `1` means "on".
    pub bit_sense: u8,
    /// Project name (from BITS. message, after the sense flags).
    pub project_name: Vec<u8>,
}

/// `s` without its leading spaces.
pub open spec fn skip_spaces(s: Seq<u8>) -> Seq<u8>
    decreases s.len(),
{
    if s.len() > 0 && s[0] == 32u8 {
        skip_spaces(s.drop_first())
    } else {
        s
    }
}

/// A name field: its text after leading spaces, or `None` when nothing is left.
pub open spec fn csv_item(p: Seq<u8>) -> Option<Seq<u8>> {
    if skip_spaces(p).len() == 0 {
        None
    } else {
        Some(skip_spaces(p))
    }
}

/// The first `max` comma-separated fields of `text`, each read by [`csv_item`].
pub open spec fn spec_csv_fields(text: Seq<u8>, max: nat) -> Seq<Option<Seq<u8>>> {
    let parts = spec_split(text, 44u8);
    let n = if parts.len() < max {
        parts.len()
    } else {
        max
    };
    Seq::new(n, |i: int| csv_item(parts[i]))
}

/// The sense byte of a `BITS.` text: bit `7 - i` is set when byte `i` (of the
/// first eight before any comma) is `1`.
pub open spec fn sense_upto(s: Seq<u8>, n: nat) -> nat
    decreases n,
{
    if n == 0 {
        0
    } else {
        sense_upto(s, (n - 1) as nat) + if s[n - 1] == 49u8 {
            pow2((8 - n) as nat)
        } else {
            0
        }
    }
}

/// The sense bytes and project name of a `BITS.` text.
pub open spec fn spec_parse_bits(text: Seq<u8>) -> (u8, Seq<u8>) {
    let k = index_of(text, 44u8);
    let sense_bytes = if k < 0 {
        text
    } else {
        text.subrange(0, k)
    };
    let project = if k < 0 {
        Seq::empty()
    } else {
        text.subrange(k + 1, text.len() as int)
    };
    let n = if sense_bytes.len() < 8 {
        sense_bytes.len()
    } else {
        8
    };
    (sense_upto(sense_bytes, n) as u8, project)
}

fn skip_spaces_exec(p: &[u8]) -> (r: Option<Vec<u8>>)
    ensures
        match r {
            Some(v) => csv_item(p@) == Some(v@),
            None => csv_item(p@) is None,
        },
{
    let mut i: usize = 0;
    assert(p@.subrange(0, p@.len() as int) =~= p@);
    while i < p.len() && p[i] == ' ' as u8
        invariant
            i <= p@.len(),
            skip_spaces(p@) == skip_spaces(p@.subrange(i as int, p@.len() as int)),
        decreases p.len() - i,
    {
        assert(p@.subrange(i as int, p@.len() as int).drop_first() =~= p@.subrange(
            i + 1,
            p@.len() as int,
        ));
        i = i + 1;
    }
    if i == p.len() {
        assert(p@.subrange(i as int, p@.len() as int) =~= Seq::<u8>::empty());
        None
    } else {
        Some(copy_from(p, i))
    }
}

fn csv_fields(text: &[u8], max: usize) -> (r: Vec<Option<Vec<u8>>>)
    ensures
        r@.len() == spec_csv_fields(text@, max as nat).len(),
        forall|i: int| 0 <= i < r@.len() ==> opt_view(#[trigger] r@[i]) == spec_csv_fields(
            text@,
            max as nat,
        )[i],
{
    let parts = split_exec(text, ',' as u8);
    let n = if parts.len() < max {
        parts.len()
    } else {
        max
    };
    let mut r: Vec<Option<Vec<u8>>> = Vec::new();
    let mut i: usize = 0;
    while i < n
        invariant
            i <= n,
            n <= parts@.len(),
            n == spec_csv_fields(text@, max as nat).len(),
            parts@.len() == spec_split(text@, 44u8).len(),
            forall|j: int|
                0 <= j < parts@.len() ==> (#[trigger] parts@[j])@ == spec_split(text@, 44u8)[j],
            r@.len() == i,
            forall|j: int| 0 <= j < i ==> opt_view(#[trigger] r@[j]) == spec_csv_fields(
                text@,
                max as nat,
            )[j],
        decreases n - i,
    {
        let item = skip_spaces_exec(parts[i].as_slice());
        r.push(item);
        i = i + 1;
    }
    r
}

impl TelemetryMetadata {
    /// Parse the body of a `PARM.` message (text after the `PARM.` prefix).
    ///
    /// Returns up to 13 comma-separated names (5 analog + 8 digital).
    pub fn parse_parm(text: &[u8]) -> (r: Vec<Option<Vec<u8>>>)
        ensures
            r@.len() == spec_csv_fields(text@, 13).len(),
            forall|i: int| 0 <= i < r@.len() ==> opt_view(#[trigger] r@[i]) == spec_csv_fields(
                text@,
                13,
            )[i],
    {
        csv_fields(text, 13)
    }

    /// Parse the body of a `UNIT.` message.
    pub fn parse_unit(text: &[u8]) -> (r: Vec<Option<Vec<u8>>>)
        ensures
            r@.len() == spec_csv_fields(text@, 13).len(),
            forall|i: int| 0 <= i < r@.len() ==> opt_view(#[trigger] r@[i]) == spec_csv_fields(
                text@,
                13,
            )[i],
    {
        csv_fields(text, 13)
    }

    /// Parse the body of an `EQNS.` message.
    ///
    /// Format: `a1,b1,c1,a2,b2,c2,...` (5 triples, 15 values total).
    pub fn parse_eqns(text: &[u8]) -> (r: Vec<TelemetryEquation>)
        ensures
            r@.len() == 5,
            forall|i: int| 0 <= i < 5 ==> (#[trigger] r@[i])@ == spec_parse_eqns(text@)[i],
    {
        let parts = split_exec(text, ',' as u8);
        let ghost sp = spec_split(text@, 44u8);
        assert forall|j: int| 0 <= j < parts@.len() implies (#[trigger] parts@[j])@ == sp[j] by {}
        let mut r: Vec<TelemetryEquation> = Vec::new();
        let mut i: usize = 0;
        while i < 5
            invariant
                i <= 5,
                sp == spec_split(text@, 44u8),
                parts@.len() == sp.len(),
                forall|j: int| 0 <= j < parts@.len() ==> (#[trigger] parts@[j])@ == sp[j],
                r@.len() == i,
                forall|j: int| 0 <= j < i ==> (#[trigger] r@[j])@ == spec_parse_eqns(text@)[j],
            decreases 5 - i,
        {
            let a = eqn_field_exec(&parts, 3 * i);
            let b = eqn_field_exec(&parts, 3 * i + 1);
            let c = eqn_field_exec(&parts, 3 * i + 2);
            r.push(TelemetryEquation { a, b, c });
            i = i + 1;
        }
        r
    }

    /// Parse the body of a `BITS.` message.
    ///
    /// Format: `BBBBBBBB,Project Name` where B is `0` or `1` (MSB = channel 1).
    pub fn parse_bits(text: &[u8]) -> (r: (u8, Vec<u8>))
        ensures
            (r.0, r.1@) == spec_parse_bits(text@),
    {
        proof {
            lemma_index_of(text@, 44u8);
        }
        let comma = find_byte(text, ',' as u8);
        let sense_bytes = match comma {
            Some(pos) => vstd::slice::slice_subrange(text, 0, pos),
            None => text,
        };
        let project = match comma {
            Some(pos) => {
                assert(pos < text.len());
                copy_from(text, pos + 1)
            },
            None => Vec::new(),
        };
        let n: usize = if sense_bytes.len() < 8 {
            sense_bytes.len()
        } else {
            8
        };
        let mut sense: u8 = 0;
        let mut mask: u8 = 128;
        let mut i: usize = 0;
        assert(pow2(7) == 128) by {
            reveal_with_fuel(pow2, 8);
        }
        while i < n
            invariant
                n <= 8,
                n <= sense_bytes@.len(),
                i <= n,
                mask as nat == pow2((7 - i) as nat) || (i == 8 && mask == 0),
                i < 8 ==> mask as nat == pow2((7 - i) as nat),
                sense as nat == sense_upto(sense_bytes@, i as nat),
                sense as nat + 2 * pow2((7 - i) as nat) <= 256 || i == 8,
                i == 8 ==> sense as nat <= 255,
            decreases n - i,
        {
            proof {
                reveal_with_fuel(pow2, 9);
            }
            if sense_bytes[i] == '1' as u8 {
                sense = sense + mask;
            }
            mask = mask / 2;
            i = i + 1;
        }
        (sense, project)
    }
}

impl Clone for AprsTelemetry {
    fn clone(&self) -> (r: Self)
        ensures
            r@ == self@,
    {
        let analog: [Option<Vec<u8>>; 5] = [
            crate::util::copy_opt_vec(&self.analog[0]),
            crate::util::copy_opt_vec(&self.analog[1]),
            crate::util::copy_opt_vec(&self.analog[2]),
            crate::util::copy_opt_vec(&self.analog[3]),
            crate::util::copy_opt_vec(&self.analog[4]),
        ];
        let r = AprsTelemetry {
            sequence: crate::util::copy_vec(&self.sequence),
            analog,
            digital: self.digital,
            comment: crate::util::copy_vec(&self.comment),
        };
        assert(r@.analog =~= self@.analog);
        r
    }
}

} // verus!
