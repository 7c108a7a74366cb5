//! Decimal number fields kept as text: Unicode whitespace trimming (as
//! `str::trim` does it) and the grammar that `str::parse` accepts for a
//! floating-point number.
use crate::util::{
    all_digits, all_digits_exec, find_byte, index_of, is_digit, lemma_index_of, to_lower,
    lowercase,
};
use vstd::prelude::*;

verus! {

/// An ASCII whitespace byte (tab, line feed, vertical tab, form feed,
/// carriage return, space).
pub open spec fn is_ascii_ws(b: u8) -> bool {
    (9 <= b && b <= 13) || b == 32
}

/// Length of the UTF-8 encoding of a whitespace character (Unicode
/// `White_Space`) that starts at `s[i]`, or 0 when none does.
pub open spec fn ws_at(s: Seq<u8>, i: int) -> nat {
    if 0 <= i < s.len() && is_ascii_ws(s[i]) {
        1
    } else if 0 <= i && i + 2 <= s.len() && s[i] == 0xC2u8 && (s[i + 1] == 0x85u8 || s[i + 1]
        == 0xA0u8) {
        2
    } else if 0 <= i && i + 3 <= s.len() && ws3(s[i], s[i + 1], s[i + 2]) {
        3
    } else {
        0
    }
}

/// The three-byte encodings of U+1680, U+2000–U+200A, U+2028, U+2029,
/// U+202F, U+205F and U+3000.
pub open spec fn ws3(a: u8, b: u8, c: u8) -> bool {
    ||| (a == 0xE1u8 && b == 0x9Au8 && c == 0x80u8)
    ||| (a == 0xE2u8 && b == 0x80u8 && ((0x80u8 <= c && c <= 0x8Au8) || c == 0xA8u8 || c
        == 0xA9u8 || c == 0xAFu8))
    ||| (a == 0xE2u8 && b == 0x81u8 && c == 0x9Fu8)
    ||| (a == 0xE3u8 && b == 0x80u8 && c == 0x80u8)
}

/// Length of the UTF-8 encoding of a whitespace character that ends just
/// before `s[j]`, or 0 when none does.
pub open spec fn ws_before(s: Seq<u8>, j: int) -> nat {
    if 1 <= j <= s.len() && is_ascii_ws(s[j - 1]) {
        1
    } else if 2 <= j <= s.len() && s[j - 2] == 0xC2u8 && (s[j - 1] == 0x85u8 || s[j - 1]
        == 0xA0u8) {
        2
    } else if 3 <= j <= s.len() && ws3(s[j - 3], s[j - 2], s[j - 1]) {
        3
    } else {
        0
    }
}

/// Start of `s` once leading whitespace from `i` on is skipped.
pub open spec fn trim_start_from(s: Seq<u8>, i: int) -> int
    decreases s.len() - i,
{
    if i < 0 || i >= s.len() || ws_at(s, i) == 0 {
        i
    } else {
        trim_start_from(s, i + ws_at(s, i))
    }
}

/// End of `s[lo..j]` once trailing whitespace is dropped.
pub open spec fn trim_end_to(s: Seq<u8>, lo: int, j: int) -> int
    decreases j - lo,
{
    if j <= lo || ws_before(s, j) == 0 || j - ws_before(s, j) < lo {
        j
    } else {
        trim_end_to(s, lo, j - ws_before(s, j))
    }
}

/// `s` with leading and trailing whitespace removed, as `str::trim` does.
pub open spec fn trim_ws(s: Seq<u8>) -> Seq<u8> {
    let lo = trim_start_from(s, 0);
    let hi = trim_end_to(s, lo, s.len() as int);
    s.subrange(lo, hi)
}

proof fn lemma_trim_start_bounds(s: Seq<u8>, i: int)
    requires
        0 <= i <= s.len(),
    ensures
        i <= trim_start_from(s, i) <= s.len(),
    decreases s.len() - i,
{
    if i < s.len() && ws_at(s, i) > 0 {
        lemma_trim_start_bounds(s, i + ws_at(s, i));
    }
}

proof fn lemma_trim_end_bounds(s: Seq<u8>, lo: int, j: int)
    requires
        lo <= j,
    ensures
        lo <= trim_end_to(s, lo, j) <= j,
    decreases j - lo,
{
    if j > lo && ws_before(s, j) > 0 && j - ws_before(s, j) >= lo {
        lemma_trim_end_bounds(s, lo, j - ws_before(s, j));
    }
}

/// `t` equals the ASCII literal `lit` up to letter case.
pub open spec fn eq_ignore_case(t: Seq<u8>, lit: Seq<u8>) -> bool {
    t.len() == lit.len() && forall|i: int| 0 <= i < t.len() ==> to_lower(#[trigger] t[i]) == lit[i]
}

/// Position of the first `e` or `E` in `t`, or -1.
pub open spec fn exp_index(t: Seq<u8>) -> int
    decreases t.len(),
{
    if t.len() == 0 {
        -1
    } else if t[0] == 101u8 || t[0] == 69u8 {
        0
    } else if exp_index(t.drop_first()) < 0 {
        -1
    } else {
        exp_index(t.drop_first()) + 1
    }
}

/// `Digit+ | Digit+ '.' Digit* | Digit* '.' Digit+`.
pub open spec fn mantissa_ok(m: Seq<u8>) -> bool {
    let d = index_of(m, 46u8);
    if d < 0 {
        m.len() > 0 && all_digits(m)
    } else {
        all_digits(m.subrange(0, d)) && all_digits(m.subrange(d + 1, m.len() as int)) && m.len()
            >= 2
    }
}

/// `t` without one leading `+` or `-`.
pub open spec fn strip_sign(t: Seq<u8>) -> Seq<u8> {
    if t.len() > 0 && (t[0] == 43u8 || t[0] == 45u8) {
        t.drop_first()
    } else {
        t
    }
}

/// `Sign? Digit+`.
pub open spec fn exponent_ok(x: Seq<u8>) -> bool {
    strip_sign(x).len() > 0 && all_digits(strip_sign(x))
}

/// The text that `str::parse` accepts as a floating-point number:
/// `Sign? ( 'inf' | 'infinity' | 'nan' | Number )`, where
/// `Number ::= Mantissa (('e' | 'E') Sign? Digit+)?`, and the words
/// `inf`, `infinity` and `nan` are matched regardless of case.
pub open spec fn float_syntax(s: Seq<u8>) -> bool {
    let t = strip_sign(s);
    let k = exp_index(t);
    ||| eq_ignore_case(t, seq![105u8, 110u8, 102u8])
    ||| eq_ignore_case(t, seq![105u8, 110u8, 102u8, 105u8, 110u8, 105u8, 116u8, 121u8])
    ||| eq_ignore_case(t, seq![110u8, 97u8, 110u8])
    ||| (k < 0 && mantissa_ok(t))
    ||| (k >= 0 && mantissa_ok(t.subrange(0, k)) && exponent_ok(t.subrange(k + 1, t.len() as int)))
}

/// A field that `str::from_utf8` accepts and whose trimmed text
/// `str::parse` reads as a floating-point number.
pub open spec fn float_field(s: Seq<u8>) -> bool {
    vstd::utf8::valid_utf8(s) && float_syntax(trim_ws(s))
}

/// A byte of a number text: a letter, a digit, a sign or a point.
pub open spec fn number_byte(b: u8) -> bool {
    is_digit(b) || (65 <= b <= 90) || (97 <= b <= 122) || b == 43u8 || b == 45u8 || b == 46u8
}

pub open spec fn number_bytes(s: Seq<u8>) -> bool {
    forall|i: int| 0 <= i < s.len() ==> number_byte(#[trigger] s[i])
}

proof fn lemma_mantissa_bytes(m: Seq<u8>)
    requires
        mantissa_ok(m),
    ensures
        number_bytes(m),
{
    let d = index_of(m, 46u8);
    lemma_index_of(m, 46u8);
    assert forall|i: int| 0 <= i < m.len() implies number_byte(#[trigger] m[i]) by {
        if d < 0 {
            assert(is_digit(m[i]));
        } else if i < d {
            assert(m[i] == m.subrange(0, d)[i]);
        } else if i > d {
            assert(m[i] == m.subrange(d + 1, m.len() as int)[i - d - 1]);
        }
    }
}

proof fn lemma_concat_bytes(a: Seq<u8>, b: Seq<u8>)
    requires
        number_bytes(a),
        number_bytes(b),
    ensures
        number_bytes(a + b),
{
    assert forall|i: int| 0 <= i < (a + b).len() implies number_byte(#[trigger] (a + b)[i]) by {
        if i < a.len() {
            assert((a + b)[i] == a[i]);
        } else {
            assert((a + b)[i] == b[i - a.len()]);
        }
    }
}

/// The text of a floating-point number is made of letters, digits, signs and
/// points, and is not empty.
pub proof fn lemma_float_syntax_bytes(s: Seq<u8>)
    requires
        float_syntax(s),
    ensures
        number_bytes(s),
        s.len() > 0,
{
    let t = strip_sign(s);
    let k = exp_index(t);
    lemma_exp_index(t);
    if eq_ignore_case(t, seq![105u8, 110u8, 102u8]) || eq_ignore_case(
        t,
        seq![105u8, 110u8, 102u8, 105u8, 110u8, 105u8, 116u8, 121u8],
    ) || eq_ignore_case(t, seq![110u8, 97u8, 110u8]) {
        assert forall|i: int| 0 <= i < t.len() implies number_byte(#[trigger] t[i]) by {
            assert(97 <= to_lower(t[i]) <= 122);
        }
    } else if k < 0 {
        lemma_mantissa_bytes(t);
    } else {
        let m = t.subrange(0, k);
        let x = t.subrange(k + 1, t.len() as int);
        lemma_mantissa_bytes(m);
        let xs = strip_sign(x);
        assert(number_bytes(x)) by {
            assert forall|i: int| 0 <= i < x.len() implies number_byte(#[trigger] x[i]) by {
                if xs.len() < x.len() {
                    if i > 0 {
                        assert(x[i] == xs[i - 1]);
                        assert(is_digit(xs[i - 1]));
                    }
                } else {
                    assert(is_digit(xs[i]));
                }
            }
        }
        assert(t =~= m + seq![t[k]] + x);
        lemma_concat_bytes(m, seq![t[k]]);
        lemma_concat_bytes(m + seq![t[k]], x);
    }
    assert(number_bytes(s)) by {
        assert forall|i: int| 0 <= i < s.len() implies number_byte(#[trigger] s[i]) by {
            if t.len() < s.len() {
                if i > 0 {
                    assert(s[i] == t[i - 1]);
                }
            } else {
                assert(s[i] == t[i]);
            }
        }
    }
}

/// Trimming leaves text that starts and ends with a number byte unchanged.
pub proof fn lemma_trim_number_bytes(s: Seq<u8>)
    requires
        number_bytes(s),
    ensures
        trim_ws(s) == s,
{
    if s.len() > 0 {
        assert(number_byte(s[0]));
        assert(number_byte(s[s.len() - 1]));
        assert(ws_at(s, 0) == 0);
        assert(ws_before(s, s.len() as int) == 0);
    }
    assert(s.subrange(0, s.len() as int) =~= s);
}

/// The trimmed text of a number field is a number field, unchanged by
/// trimming again, made of number bytes.
pub proof fn lemma_float_field_trim(p: Seq<u8>)
    requires
        float_field(p),
    ensures
        float_field(trim_ws(p)),
        trim_ws(trim_ws(p)) == trim_ws(p),
        number_bytes(trim_ws(p)),
        trim_ws(p).len() > 0,
{
    let t = trim_ws(p);
    lemma_float_syntax_bytes(t);
    lemma_trim_number_bytes(t);
    assert(crate::text::all_ascii(t)) by {
        assert forall|i: int| 0 <= i < t.len() implies #[trigger] t[i] < 128 by {
            assert(number_byte(t[i]));
        }
    }
    crate::text::lemma_ascii_utf8(t);
}

fn ascii_ws(b: u8) -> (r: bool)
    ensures
        r == is_ascii_ws(b),
{
    (9 <= b && b <= 13) || b == 32
}

fn ws3_exec(a: u8, b: u8, c: u8) -> (r: bool)
    ensures
        r == ws3(a, b, c),
{
    (a == 0xE1 && b == 0x9A && c == 0x80) || (a == 0xE2 && b == 0x80 && ((0x80 <= c && c <= 0x8A)
        || c == 0xA8 || c == 0xA9 || c == 0xAF)) || (a == 0xE2 && b == 0x81 && c == 0x9F) || (a
        == 0xE3 && b == 0x80 && c == 0x80)
}

fn ws_at_exec(s: &[u8], i: usize) -> (r: usize)
    requires
        i <= s@.len(),
    ensures
        r == ws_at(s@, i as int),
{
    let n = s.len();
    if i < n && ascii_ws(s[i]) {
        1
    } else if n >= 2 && i <= n - 2 && s[i] == 0xC2 && (s[i + 1] == 0x85 || s[i + 1] == 0xA0) {
        2
    } else if n >= 3 && i <= n - 3 && ws3_exec(s[i], s[i + 1], s[i + 2]) {
        3
    } else {
        0
    }
}

fn ws_before_exec(s: &[u8], j: usize) -> (r: usize)
    requires
        j <= s@.len(),
    ensures
        r == ws_before(s@, j as int),
{
    if j >= 1 && ascii_ws(s[j - 1]) {
        1
    } else if j >= 2 && s[j - 2] == 0xC2 && (s[j - 1] == 0x85 || s[j - 1] == 0xA0) {
        2
    } else if j >= 3 && ws3_exec(s[j - 3], s[j - 2], s[j - 1]) {
        3
    } else {
        0
    }
}

/// Bounds of `s` once leading and trailing whitespace are trimmed.
pub fn trim_ws_bounds(s: &[u8]) -> (r: (usize, usize))
    ensures
        r.0 <= r.1 <= s@.len(),
        s@.subrange(r.0 as int, r.1 as int) == trim_ws(s@),
{
    let mut lo: usize = 0;
    proof {
        lemma_trim_start_bounds(s@, 0);
    }
    loop
        invariant
            lo <= s@.len(),
            trim_start_from(s@, 0) == trim_start_from(s@, lo as int),
        ensures
            lo <= s@.len(),
            lo == trim_start_from(s@, 0),
        decreases s@.len() - lo,
    {
        if lo >= s.len() {
            break ;
        }
        let w = ws_at_exec(s, lo);
        if w == 0 {
            break ;
        }
        lo = lo + w;
    }
    let mut hi: usize = s.len();
    proof {
        lemma_trim_end_bounds(s@, lo as int, s@.len() as int);
    }
    loop
        invariant
            lo <= hi <= s@.len(),
            lo == trim_start_from(s@, 0),
            trim_end_to(s@, lo as int, s@.len() as int) == trim_end_to(s@, lo as int, hi as int),
        ensures
            lo <= hi <= s@.len(),
            hi == trim_end_to(s@, lo as int, s@.len() as int),
        decreases hi,
    {
        if hi <= lo {
            break ;
        }
        let w = ws_before_exec(s, hi);
        if w == 0 || hi - w < lo {
            break ;
        }
        hi = hi - w;
    }
    (lo, hi)
}

fn eq_ignore_case_exec(t: &[u8], lit: &[u8]) -> (r: bool)
    ensures
        r == eq_ignore_case(t@, lit@),
{
    if t.len() != lit.len() {
        return false;
    }
    let mut i: usize = 0;
    while i < t.len()
        invariant
            t@.len() == lit@.len(),
            i <= t@.len(),
            forall|j: int| 0 <= j < i ==> to_lower(#[trigger] t@[j]) == lit@[j],
        decreases t.len() - i,
    {
        if lowercase(t[i]) != lit[i] {
            return false;
        }
        i = i + 1;
    }
    true
}

proof fn lemma_exp_index(t: Seq<u8>)
    ensures
        -1 <= exp_index(t) < t.len(),
        exp_index(t) >= 0 ==> (t[exp_index(t)] == 101u8 || t[exp_index(t)] == 69u8),
        forall|j: int|
            0 <= j < t.len() && (exp_index(t) < 0 || j < exp_index(t)) ==> !(t[j] == 101u8
                || t[j] == 69u8),
    decreases t.len(),
{
    if t.len() > 0 && !(t[0] == 101u8 || t[0] == 69u8) {
        lemma_exp_index(t.drop_first());
        assert forall|j: int|
            0 <= j < t.len() && (exp_index(t) < 0 || j < exp_index(t)) implies !(t[j] == 101u8
                || t[j] == 69u8) by {
            if j > 0 {
                assert(t[j] == t.drop_first()[j - 1]);
            }
        }
    }
}

proof fn lemma_exp_index_at(t: Seq<u8>, i: int)
    requires
        0 <= i <= t.len(),
        forall|j: int| 0 <= j < i ==> !(t[j] == 101u8 || t[j] == 69u8),
        i < t.len() ==> (t[i] == 101u8 || t[i] == 69u8),
    ensures
        exp_index(t) == (if i < t.len() {
            i
        } else {
            -1
        }),
    decreases i,
{
    if i > 0 {
        assert forall|j: int| 0 <= j < i - 1 implies !(t.drop_first()[j] == 101u8
            || t.drop_first()[j] == 69u8) by {
            assert(t.drop_first()[j] == t[j + 1]);
        }
        if i < t.len() {
            assert(t.drop_first()[i - 1] == t[i]);
        }
        lemma_exp_index_at(t.drop_first(), i - 1);
        assert(!(t[0] == 101u8 || t[0] == 69u8));
    } else if t.len() == 0 {
    }
}

fn exp_index_exec(t: &[u8]) -> (r: Option<usize>)
    ensures
        match r {
            Some(i) => exp_index(t@) == i as int,
            None => exp_index(t@) == -1,
        },
{
    let mut i: usize = 0;
    while i < t.len()
        invariant
            i <= t@.len(),
            forall|j: int| 0 <= j < i ==> !(t@[j] == 101u8 || t@[j] == 69u8),
        decreases t.len() - i,
    {
        if t[i] == 'e' as u8 || t[i] == 'E' as u8 {
            proof {
                lemma_exp_index_at(t@, i as int);
            }
            return Some(i);
        }
        i = i + 1;
    }
    proof {
        lemma_exp_index_at(t@, i as int);
    }
    None
}

fn mantissa_ok_exec(m: &[u8]) -> (r: bool)
    ensures
        r == mantissa_ok(m@),
{
    proof {
        lemma_index_of(m@, 46u8);
    }
    match find_byte(m, '.' as u8) {
        None => m.len() > 0 && all_digits_exec(m),
        Some(d) => {
            assert(d < m.len());
            all_digits_exec(vstd::slice::slice_subrange(m, 0, d)) && all_digits_exec(
            vstd::slice::slice_subrange(m, d + 1, m.len()),
        ) && m.len() >= 2
        },
    }
}

fn strip_sign_exec(t: &[u8]) -> (r: &[u8])
    ensures
        r@ == strip_sign(t@),
{
    if t.len() > 0 && (t[0] == '+' as u8 || t[0] == '-' as u8) {
        let r = vstd::slice::slice_subrange(t, 1, t.len());
        assert(r@ =~= t@.drop_first());
        r
    } else {
        t
    }
}

/// Whether `s` is a number as `str::parse` reads one.
pub fn float_syntax_exec(s: &[u8]) -> (r: bool)
    ensures
        r == float_syntax(s@),
{
    let t = strip_sign_exec(s);
    let inf: [u8; 3] = ['i' as u8, 'n' as u8, 'f' as u8];
    let infinity: [u8; 8] = [
        'i' as u8,
        'n' as u8,
        'f' as u8,
        'i' as u8,
        'n' as u8,
        'i' as u8,
        't' as u8,
        'y' as u8,
    ];
    let nan: [u8; 3] = ['n' as u8, 'a' as u8, 'n' as u8];
    assert(inf@ =~= seq![105u8, 110u8, 102u8]);
    assert(infinity@ =~= seq![105u8, 110u8, 102u8, 105u8, 110u8, 105u8, 116u8, 121u8]);
    assert(nan@ =~= seq![110u8, 97u8, 110u8]);
    if eq_ignore_case_exec(t, inf.as_slice()) || eq_ignore_case_exec(t, infinity.as_slice())
        || eq_ignore_case_exec(t, nan.as_slice()) {
        return true;
    }
    proof {
        lemma_exp_index(t@);
    }
    match exp_index_exec(t) {
        None => mantissa_ok_exec(t),
        Some(k) => {
            assert(k < t.len());
            let m = vstd::slice::slice_subrange(t, 0, k);
            let x = vstd::slice::slice_subrange(t, k + 1, t.len());
            if !mantissa_ok_exec(m) {
                return false;
            }
            let y = strip_sign_exec(x);
            y.len() > 0 && all_digits_exec(y)
        },
    }
}

/// The trimmed text of `s`, when it is a number as `str::parse` reads one
/// after `str::from_utf8` and `str::trim`.
pub fn float_field_text(s: &[u8]) -> (r: Option<Vec<u8>>)
    ensures
        match r {
            Some(t) => float_field(s@) && t@ == trim_ws(s@),
            None => !float_field(s@),
        },
{
    if crate::text::str_from_utf8(s).is_none() {
        return None;
    }
    let (lo, hi) = trim_ws_bounds(s);
    let t = vstd::slice::slice_subrange(s, lo, hi);
    if float_syntax_exec(t) {
        Some(crate::util::copy_range(s, lo, hi))
    } else {
        None
    }
}

/// `MHz` as bytes.
pub open spec fn mhz_marker() -> Seq<u8> {
    seq![77u8, 72u8, 122u8]
}

/// `s` without its leading spaces, or `s` itself when it is all spaces.
pub open spec fn skip_leading_spaces(s: Seq<u8>) -> Seq<u8> {
    let k = first_non_space(s);
    if k < 0 {
        s
    } else {
        s.subrange(k, s.len() as int)
    }
}

/// Index of the first byte of `s` that is not a space, or -1.
pub open spec fn first_non_space(s: Seq<u8>) -> int
    decreases s.len(),
{
    if s.len() == 0 {
        -1
    } else if s[0] != 32u8 {
        0
    } else if first_non_space(s.drop_first()) < 0 {
        -1
    } else {
        first_non_space(s.drop_first()) + 1
    }
}

/// Every byte of `s` is a digit or `.`.
pub open spec fn digits_or_dots(s: Seq<u8>) -> bool {
    forall|i: int| 0 <= i < s.len() ==> (is_digit(#[trigger] s[i]) || s[i] == 46u8)
}

/// The frequency written at the start of a comment as a number directly
/// followed by `MHz` (optionally after spaces): its text, when it is made of
/// digits and dots that `str::parse` reads as a number.
pub open spec fn spec_extract_frequency(comment: Seq<u8>) -> Option<Seq<u8>> {
    let k = crate::util::find_seq(comment, mhz_marker());
    if k <= 0 {
        None
    } else {
        let t = skip_leading_spaces(comment.subrange(0, k));
        if t.len() > 0 && digits_or_dots(t) && mantissa_ok(t) {
            Some(t)
        } else {
            None
        }
    }
}

proof fn lemma_first_non_space_at(s: Seq<u8>, i: int)
    requires
        0 <= i <= s.len(),
        forall|j: int| 0 <= j < i ==> s[j] == 32u8,
        i < s.len() ==> s[i] != 32u8,
    ensures
        first_non_space(s) == (if i < s.len() {
            i
        } else {
            -1
        }),
    decreases i,
{
    if i > 0 {
        assert forall|j: int| 0 <= j < i - 1 implies s.drop_first()[j] == 32u8 by {
            assert(s.drop_first()[j] == s[j + 1]);
        }
        if i < s.len() {
            assert(s.drop_first()[i - 1] == s[i]);
        }
        lemma_first_non_space_at(s.drop_first(), i - 1);
        assert(s[0] == 32u8);
    }
}

/// Extract a frequency in MHz from the start of a comment field.
///
/// Looks for a decimal number immediately followed by `MHz` (case-sensitive)
/// at the beginning of the slice and returns its text. The comment field is
/// not modified.
pub fn extract_frequency_mhz(comment: &[u8]) -> (r: Option<Vec<u8>>)
    ensures
        match (r, spec_extract_frequency(comment@)) {
            (Some(t), Some(v)) => t@ == v,
            (None, None) => true,
            _ => false,
        },
{
    let marker: [u8; 3] = ['M' as u8, 'H' as u8, 'z' as u8];
    let m = marker.as_slice();
    assert(m@ =~= mhz_marker());
    let pos = match crate::util::find_seq_exec(comment, m) {
        Some(p) => p,
        None => {
            return None;
        },
    };
    if pos == 0 {
        return None;
    }
    proof {
        crate::util::lemma_find_seq_from(comment@, mhz_marker(), 0);
    }
    let num = vstd::slice::slice_subrange(comment, 0, pos);
    let mut i: usize = 0;
    while i < num.len() && num[i] == ' ' as u8
        invariant
            i <= num@.len(),
            forall|j: int| 0 <= j < i ==> num@[j] == 32u8,
        decreases num.len() - i,
    {
        i = i + 1;
    }
    proof {
        lemma_first_non_space_at(num@, i as int);
    }
    let t = if i < num.len() {
        vstd::slice::slice_subrange(num, i, num.len())
    } else {
        num
    };
    assert(num@ =~= comment@.subrange(0, pos as int));
    assert(t@ =~= skip_leading_spaces(comment@.subrange(0, pos as int)));
    if t.len() == 0 {
        return None;
    }
    let mut j: usize = 0;
    while j < t.len()
        invariant
            j <= t@.len(),
            forall|k: int| 0 <= k < j ==> (is_digit(#[trigger] t@[k]) || t@[k] == 46u8),
            t@ == skip_leading_spaces(comment@.subrange(0, pos as int)),
            crate::util::find_seq(comment@, mhz_marker()) == pos as int,
            pos > 0,
        decreases t.len() - j,
    {
        if !(crate::util::digit(t[j]) || t[j] == '.' as u8) {
            assert(!digits_or_dots(t@));
            return None;
        }
        j = j + 1;
    }
    if mantissa_ok_exec(t) {
        let v = crate::util::copy_from(t, 0);
        assert(v@ =~= t@);
        Some(v)
    } else {
        None
    }
}

} // verus!
