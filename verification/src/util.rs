//! Byte-level helpers shared by the packet parsers: character classes,
//! decimal integers (parsing and zero-padded formatting) and searching.
use vstd::prelude::*;

verus! {

// ─── Character classes ─────────────────────────────────────────────────────

pub open spec fn is_digit(b: u8) -> bool {
    48 <= b <= 57
}

pub open spec fn is_upper(b: u8) -> bool {
    65 <= b <= 90
}

pub open spec fn is_lower(b: u8) -> bool {
    97 <= b <= 122
}

pub open spec fn is_alpha(b: u8) -> bool {
    is_upper(b) || is_lower(b)
}

pub open spec fn is_alnum(b: u8) -> bool {
    is_digit(b) || is_alpha(b)
}

pub open spec fn to_upper(b: u8) -> u8 {
    if is_lower(b) {
        (b - 32) as u8
    } else {
        b
    }
}

pub open spec fn to_lower(b: u8) -> u8 {
    if is_upper(b) {
        (b + 32) as u8
    } else {
        b
    }
}

pub fn digit(b: u8) -> (r: bool)
    ensures
        r == is_digit(b),
{
    b >= '0' as u8 && b <= '9' as u8
}

pub fn upper(b: u8) -> (r: bool)
    ensures
        r == is_upper(b),
{
    b >= 'A' as u8 && b <= 'Z' as u8
}

pub fn lower(b: u8) -> (r: bool)
    ensures
        r == is_lower(b),
{
    b >= 'a' as u8 && b <= 'z' as u8
}

pub fn alpha(b: u8) -> (r: bool)
    ensures
        r == is_alpha(b),
{
    upper(b) || lower(b)
}

pub fn alnum(b: u8) -> (r: bool)
    ensures
        r == is_alnum(b),
{
    digit(b) || alpha(b)
}

pub fn uppercase(b: u8) -> (r: u8)
    ensures
        r == to_upper(b),
{
    if lower(b) {
        b - 32
    } else {
        b
    }
}

pub fn lowercase(b: u8) -> (r: u8)
    ensures
        r == to_lower(b),
{
    if upper(b) {
        b + 32
    } else {
        b
    }
}

/// Every byte of `s` is an ASCII digit.
pub open spec fn all_digits(s: Seq<u8>) -> bool {
    forall|i: int| 0 <= i < s.len() ==> is_digit(#[trigger] s[i])
}

/// Every byte of `s` is an ASCII letter or digit.
pub open spec fn all_alnum(s: Seq<u8>) -> bool {
    forall|i: int| 0 <= i < s.len() ==> is_alnum(#[trigger] s[i])
}

/// `s` with every lowercase ASCII letter turned uppercase.
pub open spec fn upper_seq(s: Seq<u8>) -> Seq<u8> {
    s.map_values(|b: u8| to_upper(b))
}

/// `s` begins with `p`.
pub open spec fn starts_with(s: Seq<u8>, p: Seq<u8>) -> bool {
    p.len() <= s.len() && s.subrange(0, p.len() as int) == p
}

/// `s` ends with `p`.
pub open spec fn ends_with(s: Seq<u8>, p: Seq<u8>) -> bool {
    p.len() <= s.len() && s.subrange(s.len() - p.len(), s.len() as int) == p
}

pub fn all_digits_exec(b: &[u8]) -> (r: bool)
    ensures
        r == all_digits(b@),
{
    let mut i: usize = 0;
    while i < b.len()
        invariant
            i <= b.len(),
            all_digits(b@.subrange(0, i as int)),
            forall|j: int| 0 <= j < i ==> is_digit(b@[j]),
        decreases b.len() - i,
    {
        if !digit(b[i]) {
            return false;
        }
        i = i + 1;
    }
    true
}

pub fn all_alnum_exec(b: &[u8]) -> (r: bool)
    ensures
        r == all_alnum(b@),
{
    let mut i: usize = 0;
    while i < b.len()
        invariant
            i <= b.len(),
            forall|j: int| 0 <= j < i ==> is_alnum(b@[j]),
        decreases b.len() - i,
    {
        if !alnum(b[i]) {
            return false;
        }
        i = i + 1;
    }
    true
}

pub fn starts_with_exec(s: &[u8], p: &[u8]) -> (r: bool)
    ensures
        r == starts_with(s@, p@),
{
    if p.len() > s.len() {
        return false;
    }
    let mut i: usize = 0;
    while i < p.len()
        invariant
            p.len() <= s.len(),
            i <= p.len(),
            forall|j: int| 0 <= j < i ==> s@[j] == p@[j],
        decreases p.len() - i,
    {
        if s[i] != p[i] {
            assert(s@.subrange(0, p.len() as int)[i as int] != p@[i as int]);
            return false;
        }
        i = i + 1;
    }
    assert(s@.subrange(0, p.len() as int) =~= p@);
    true
}

/// Copy `b[lo..hi]` into a new vector.
pub fn copy_range(b: &[u8], lo: usize, hi: usize) -> (r: Vec<u8>)
    requires
        lo <= hi <= b@.len(),
    ensures
        r@ == b@.subrange(lo as int, hi as int),
{
    let mut r: Vec<u8> = Vec::new();
    let mut i = lo;
    while i < hi
        invariant
            lo <= i <= hi,
            hi <= b@.len(),
            r@ == b@.subrange(lo as int, i as int),
        decreases hi - i,
    {
        r.push(b[i]);
        i = i + 1;
        assert(r@ =~= b@.subrange(lo as int, i as int));
    }
    r
}

/// A copy of the bytes `v`.
pub fn copy_vec(v: &Vec<u8>) -> (r: Vec<u8>)
    ensures
        r@ == v@,
{
    let r = copy_range(v.as_slice(), 0, v.len());
    assert(r@ =~= v@);
    r
}

/// A copy of optional bytes.
pub fn copy_opt_vec(o: &Option<Vec<u8>>) -> (r: Option<Vec<u8>>)
    ensures
        match (r, *o) {
            (Some(a), Some(b)) => a@ == b@,
            (None, None) => true,
            _ => false,
        },
{
    match o {
        Some(v) => Some(copy_vec(v)),
        None => None,
    }
}

/// Copy `b[lo..]` into a new vector (empty when `lo` is past the end).
pub fn copy_from(b: &[u8], lo: usize) -> (r: Vec<u8>)
    ensures
        r@ == (if lo <= b@.len() { b@.subrange(lo as int, b@.len() as int) } else { Seq::empty() }),
{
    if lo <= b.len() {
        copy_range(b, lo, b.len())
    } else {
        Vec::new()
    }
}

/// Append all of `b` to `out`.
pub fn extend(out: &mut Vec<u8>, b: &[u8])
    ensures
        final(out)@ == old(out)@ + b@,
{
    let mut i: usize = 0;
    while i < b.len()
        invariant
            i <= b.len(),
            out@ == old(out)@ + b@.subrange(0, i as int),
        decreases b.len() - i,
    {
        out.push(b[i]);
        i = i + 1;
        assert(out@ =~= old(out)@ + b@.subrange(0, i as int));
    }
    assert(b@.subrange(0, b@.len() as int) =~= b@);
}

// ─── Searching ─────────────────────────────────────────────────────────────

/// Index of the first occurrence of `x` in `s`, or -1 when absent.
pub open spec fn index_of(s: Seq<u8>, x: u8) -> int
    decreases s.len(),
{
    if s.len() == 0 {
        -1
    } else if s[0] == x {
        0
    } else {
        let r = index_of(s.drop_first(), x);
        if r < 0 {
            -1
        } else {
            r + 1
        }
    }
}

/// What `index_of` finds: the first occurrence of `x`, or -1 when there is none.
pub proof fn lemma_index_of(s: Seq<u8>, x: u8)
    ensures
        -1 <= index_of(s, x) < s.len(),
        index_of(s, x) == -1 <==> (forall|j: int| 0 <= j < s.len() ==> s[j] != x),
        index_of(s, x) >= 0 ==> s[index_of(s, x)] == x,
        forall|j: int| 0 <= j < index_of(s, x) ==> s[j] != x,
    decreases s.len(),
{
    if s.len() > 0 && s[0] != x {
        lemma_index_of(s.drop_first(), x);
        if index_of(s.drop_first(), x) == -1 {
            assert forall|j: int| 0 <= j < s.len() implies s[j] != x by {
                if j > 0 {
                    assert(s[j] == s.drop_first()[j - 1]);
                }
            }
        } else {
            assert forall|j: int| 0 <= j < index_of(s, x) implies s[j] != x by {
                if j > 0 {
                    assert(s[j] == s.drop_first()[j - 1]);
                }
            }
        }
    }
}

/// A position `i` where `x` occurs in `s` for the first time pins `index_of`.
pub proof fn lemma_index_of_at(s: Seq<u8>, x: u8, i: int)
    requires
        0 <= i < s.len(),
        s[i] == x,
        forall|j: int| 0 <= j < i ==> s[j] != x,
    ensures
        index_of(s, x) == i,
{
    lemma_index_of(s, x);
}

/// Index of the first occurrence of `x` in `b`.
pub fn find_byte(b: &[u8], x: u8) -> (r: Option<usize>)
    ensures
        r matches Some(i) ==> index_of(b@, x) == i as int,
        r is None ==> index_of(b@, x) == -1,
{
    proof {
        lemma_index_of(b@, x);
    }
    let mut i: usize = 0;
    while i < b.len()
        invariant
            i <= b.len(),
            forall|j: int| 0 <= j < i ==> b@[j] != x,
        decreases b.len() - i,
    {
        if b[i] == x {
            proof {
                lemma_index_of_at(b@, x, i as int);
            }
            return Some(i);
        }
        i = i + 1;
    }
    None
}

// ─── Decimal integers ──────────────────────────────────────────────────────

/// The number written by the digit string `s` (most significant first).
pub open spec fn digits_value(s: Seq<u8>) -> nat
    decreases s.len(),
{
    if s.len() == 0 {
        0
    } else {
        digits_value(s.drop_last()) * 10 + (s.last() - 48) as nat
    }
}

/// What Rust's `str::parse` for an unsigned integer type whose maximum is `max`
/// gives for `s`: an optional `+` sign followed by at least one digit, with a
/// value that fits.
pub open spec fn spec_parse_unsigned(s: Seq<u8>, max: nat) -> Option<nat> {
    let d = if s.len() > 0 && s[0] == 43u8 {
        s.drop_first()
    } else {
        s
    };
    if d.len() > 0 && all_digits(d) && digits_value(d) <= max {
        Some(digits_value(d))
    } else {
        None
    }
}

/// What Rust's `str::parse::<i16>` gives for `s`: an optional `+` or `-` sign
/// followed by at least one digit, with a value that fits.
pub open spec fn spec_parse_i16(s: Seq<u8>) -> Option<int> {
    if s.len() > 0 && s[0] == 45u8 {
        let d = s.drop_first();
        if d.len() > 0 && all_digits(d) && digits_value(d) <= 32768 {
            Some(-(digits_value(d) as int))
        } else {
            None
        }
    } else {
        match spec_parse_unsigned(s, 32767) {
            Some(v) => Some(v as int),
            None => None,
        }
    }
}

/// Appending a digit multiplies the value by ten and adds the digit.
pub proof fn lemma_digits_value_push(s: Seq<u8>, b: u8)
    ensures
        digits_value(s.push(b)) == digits_value(s) * 10 + (b - 48) as nat,
{
    assert(s.push(b).drop_last() =~= s);
}

/// A prefix of a digit string has no greater value than the whole string.
pub proof fn lemma_digits_value_prefix_mono(s: Seq<u8>, i: int)
    requires
        0 <= i <= s.len(),
        all_digits(s),
    ensures
        digits_value(s.subrange(0, i)) <= digits_value(s),
    decreases s.len() - i,
{
    if i < s.len() {
        lemma_digits_value_prefix_mono(s, i + 1);
        assert(s.subrange(0, i + 1).drop_last() =~= s.subrange(0, i));
        assert(is_digit(s[i]));
    } else {
        assert(s.subrange(0, i) =~= s);
    }
}

/// `10^n`.
pub open spec fn pow10(n: nat) -> nat
    decreases n,
{
    if n == 0 {
        1
    } else {
        10 * pow10((n - 1) as nat)
    }
}

/// A digit string of length `n` stays below `10^n`.
pub proof fn lemma_digits_value_lt(s: Seq<u8>)
    requires
        all_digits(s),
    ensures
        digits_value(s) < pow10(s.len()),
    decreases s.len(),
{
    if s.len() > 0 {
        assert(is_digit(s[s.len() - 1]));
        lemma_digits_value_lt(s.drop_last());
    }
}

/// A field of at most three bytes parses to less than 1000.
pub proof fn lemma_parse_unsigned_short(s: Seq<u8>, max: nat)
    requires
        s.len() <= 3,
    ensures
        spec_parse_unsigned(s, max) matches Some(v) ==> v < 1000,
{
    let d = if s.len() > 0 && s[0] == 43u8 {
        s.drop_first()
    } else {
        s
    };
    if d.len() > 0 && all_digits(d) {
        lemma_digits_value_lt(d);
        reveal_with_fuel(pow10, 4);
        assert(pow10(d.len()) <= 1000);
    }
}

/// Value of the all-digit string `d`, or `None` when it exceeds `max`.
pub fn digits_value_bounded(d: &[u8], max: u64) -> (r: Option<u64>)
    requires
        all_digits(d@),
        max <= 0xffff_ffff,
    ensures
        r matches Some(v) ==> v == digits_value(d@) && v <= max,
        r is None ==> digits_value(d@) > max,
{
    let mut v: u64 = 0;
    let mut i: usize = 0;
    while i < d.len()
        invariant
            i <= d.len(),
            all_digits(d@),
            max <= 0xffff_ffff,
            v <= max,
            v == digits_value(d@.subrange(0, i as int)),
        decreases d.len() - i,
    {
        let c = (d[i] - '0' as u8) as u64;
        proof {
            assert(is_digit(d@[i as int]));
            lemma_digits_value_push(d@.subrange(0, i as int), d@[i as int]);
            assert(d@.subrange(0, i as int).push(d@[i as int]) =~= d@.subrange(0, i + 1));
        }
        let nv = v * 10 + c;
        if nv > max {
            proof {
                lemma_digits_value_prefix_mono(d@, i + 1);
            }
            return None;
        }
        v = nv;
        i = i + 1;
    }
    assert(d@.subrange(0, d@.len() as int) =~= d@);
    Some(v)
}

/// Parse `b` as Rust's `str::parse` does for an unsigned integer type whose
/// maximum is `max`.
pub fn parse_unsigned(b: &[u8], max: u64) -> (r: Option<u64>)
    requires
        max <= 0xffff_ffff,
    ensures
        r matches Some(v) ==> spec_parse_unsigned(b@, max as nat) == Some(v as nat),
        r is None ==> spec_parse_unsigned(b@, max as nat) is None,
{
    let d: &[u8] = if b.len() > 0 && b[0] == '+' as u8 {
        vstd::slice::slice_subrange(b, 1, b.len())
    } else {
        b
    };
    proof {
        if b@.len() > 0 && b@[0] == 43u8 {
            assert(d@ =~= b@.drop_first());
        }
    }
    if d.len() == 0 || !all_digits_exec(d) {
        return None;
    }
    digits_value_bounded(d, max)
}

/// Parse `b` as Rust's `str::parse::<i16>` does.
pub fn parse_i16(b: &[u8]) -> (r: Option<i16>)
    ensures
        r matches Some(v) ==> spec_parse_i16(b@) == Some(v as int),
        r is None ==> spec_parse_i16(b@) is None,
{
    if b.len() > 0 && b[0] == '-' as u8 {
        let d = vstd::slice::slice_subrange(b, 1, b.len());
        assert(d@ =~= b@.drop_first());
        if d.len() == 0 || !all_digits_exec(d) {
            return None;
        }
        match digits_value_bounded(d, 32768) {
            Some(v) => Some((0 - (v as i32)) as i16),
            None => None,
        }
    } else {
        match parse_unsigned(b, 32767) {
            Some(v) => Some(v as i16),
            None => None,
        }
    }
}

/// Decimal digits of `v`, without leading zeros ("0" for zero).
pub open spec fn dec_digits(v: nat) -> Seq<u8>
    decreases v,
{
    if v < 10 {
        seq![(48 + v) as u8]
    } else {
        dec_digits(v / 10).push((48 + v % 10) as u8)
    }
}

/// `format!("{:0w$}", v)`: the decimal digits of `v`, left-padded with `0`
/// to at least `w` characters.
pub open spec fn dec_pad(v: nat, w: nat) -> Seq<u8> {
    let d = dec_digits(v);
    if d.len() < w {
        Seq::new((w - d.len()) as nat, |i: int| 48u8) + d
    } else {
        d
    }
}

/// The decimal digits of `v` are digits whose value is `v`, as many as `v` needs.
pub proof fn lemma_dec_digits(v: nat)
    ensures
        dec_digits(v).len() >= 1,
        all_digits(dec_digits(v)),
        digits_value(dec_digits(v)) == v,
        v < 10 <==> dec_digits(v).len() == 1,
        v < 100 ==> dec_digits(v).len() <= 2,
        v < 1000 ==> dec_digits(v).len() <= 3,
        v < 10000 ==> dec_digits(v).len() <= 4,
        v < 100000 ==> dec_digits(v).len() <= 5,
        v >= 10 ==> dec_digits(v)[0] != 48u8,
    decreases v,
{
    if v >= 10 {
        lemma_dec_digits(v / 10);
        lemma_digits_value_push(dec_digits(v / 10), (48 + v % 10) as u8);
        assert((v / 10) * 10 + v % 10 == v);
        let c = (48 + v % 10) as u8;
        assert(c == 48 + v % 10);
        assert((c - 48) as nat == v % 10);
        assert(dec_digits(v) == dec_digits(v / 10).push(c));
        assert(digits_value(dec_digits(v)) == digits_value(dec_digits(v / 10)) * 10 + v % 10);
        assert(dec_digits(v)[0] == dec_digits(v / 10)[0]);
        if v / 10 >= 10 {
        } else {
            assert(dec_digits(v / 10) =~= seq![(48 + v / 10) as u8]);
        }
    } else {
        assert(dec_digits(v).drop_last() =~= Seq::<u8>::empty());
        assert(digits_value(dec_digits(v).drop_last()) == 0);
    }
}

/// Leading zeros do not change the value of a digit string.
pub proof fn lemma_zeros_value(z: Seq<u8>, s: Seq<u8>)
    requires
        forall|i: int| 0 <= i < z.len() ==> z[i] == 48u8,
    ensures
        digits_value(z + s) == digits_value(s),
    decreases s.len(),
{
    if s.len() == 0 {
        assert(z + s =~= z);
        lemma_zeros_only(z);
    } else {
        assert((z + s).drop_last() =~= z + s.drop_last());
        lemma_zeros_value(z, s.drop_last());
    }
}

/// A string of zeros has value 0.
pub proof fn lemma_zeros_only(z: Seq<u8>)
    requires
        forall|i: int| 0 <= i < z.len() ==> z[i] == 48u8,
    ensures
        digits_value(z) == 0,
    decreases z.len(),
{
    if z.len() > 0 {
        lemma_zeros_only(z.drop_last());
    }
}

/// The zero-padded decimal form of `v` is digits worth `v`, at least `w` of them.
pub proof fn lemma_dec_pad(v: nat, w: nat)
    ensures
        dec_pad(v, w).len() >= w,
        dec_pad(v, w).len() >= 1,
        all_digits(dec_pad(v, w)),
        digits_value(dec_pad(v, w)) == v,
        v < 10 && w <= 1 ==> dec_pad(v, w).len() == 1,
        v < 100 && w <= 2 ==> dec_pad(v, w).len() <= 2,
        v < 1000 ==> w == 3 ==> dec_pad(v, w).len() == 3,
        v < 100 ==> w == 2 ==> dec_pad(v, w).len() == 2,
        v < 10000 ==> w == 4 ==> dec_pad(v, w).len() == 4,
        v < 100000 ==> w == 5 ==> dec_pad(v, w).len() == 5,
{
    lemma_dec_digits(v);
    let d = dec_digits(v);
    if d.len() < w {
        let z = Seq::new((w - d.len()) as nat, |i: int| 48u8);
        lemma_zeros_value(z, d);
        assert forall|i: int| 0 <= i < dec_pad(v, w).len() implies is_digit(
            #[trigger] dec_pad(v, w)[i],
        ) by {
            if i >= z.len() {
                assert(dec_pad(v, w)[i] == d[i - z.len()]);
            }
        }
    }
}

/// The two decimal digits of a number below 100.
pub proof fn lemma_dec_pad2(x: nat)
    requires
        x < 100,
    ensures
        dec_pad(x, 2) == seq![(48 + x / 10) as u8, (48 + x % 10) as u8],
{
    if x < 10 {
        assert(dec_digits(x) == seq![(48 + x) as u8]);
        assert(dec_pad(x, 2) =~= seq![(48 + x / 10) as u8, (48 + x % 10) as u8]);
    } else {
        assert(dec_digits(x / 10) == seq![(48 + x / 10) as u8]);
        assert(dec_digits(x) =~= seq![(48 + x / 10) as u8, (48 + x % 10) as u8]);
    }
}

/// The three decimal digits of a number below 1000.
pub proof fn lemma_dec_pad3(x: nat)
    requires
        x < 1000,
    ensures
        dec_pad(x, 3) == seq![(48 + x / 100) as u8, (48 + (x / 10) % 10) as u8, (48 + x % 10) as u8],
{
    if x < 10 {
        assert(dec_digits(x) == seq![(48 + x) as u8]);
        assert(dec_pad(x, 3) =~= seq![
            (48 + x / 100) as u8,
            (48 + (x / 10) % 10) as u8,
            (48 + x % 10) as u8,
        ]);
    } else if x < 100 {
        assert(dec_digits(x / 10) == seq![(48 + x / 10) as u8]);
        assert(dec_digits(x) =~= seq![(48 + x / 10) as u8, (48 + x % 10) as u8]);
        assert(dec_pad(x, 3) =~= seq![
            (48 + x / 100) as u8,
            (48 + (x / 10) % 10) as u8,
            (48 + x % 10) as u8,
        ]);
    } else {
        let y = x / 10;
        assert(dec_digits(y / 10) == seq![(48 + y / 10) as u8]);
        assert(dec_digits(y) =~= seq![(48 + y / 10) as u8, (48 + y % 10) as u8]);
        assert(y / 10 == x / 100);
        assert(dec_digits(x) =~= seq![
            (48 + x / 100) as u8,
            (48 + (x / 10) % 10) as u8,
            (48 + x % 10) as u8,
        ]);
    }
}

/// The value of three decimal digits.
pub proof fn lemma_digits_value3(a: u8, b: u8, c: u8)
    requires
        is_digit(a),
        is_digit(b),
        is_digit(c),
    ensures
        digits_value(seq![a, b, c]) == ((a - 48) * 100 + (b - 48) * 10 + (c - 48)),
{
    let s = seq![a, b, c];
    assert(s.drop_last() =~= seq![a, b]);
    assert(seq![a, b].drop_last() =~= seq![a]);
    assert(seq![a].drop_last() =~= Seq::<u8>::empty());
    assert(digits_value(Seq::<u8>::empty()) == 0);
    assert(seq![a].last() == a);
    assert(digits_value(seq![a]) == (a - 48) as nat);
    assert(digits_value(seq![a, b]) == digits_value(seq![a]) * 10 + (b - 48) as nat);
    assert(digits_value(s) == digits_value(seq![a, b]) * 10 + (c - 48) as nat);
}

/// The value of four decimal digits.
pub proof fn lemma_digits_value4(a: u8, b: u8, c: u8, d: u8)
    requires
        is_digit(a),
        is_digit(b),
        is_digit(c),
        is_digit(d),
    ensures
        digits_value(seq![a, b, c, d]) == ((a - 48) * 1000 + (b - 48) * 100 + (c - 48) * 10 + (d
            - 48)),
{
    lemma_digits_value3(a, b, c);
    assert(seq![a, b, c, d].drop_last() =~= seq![a, b, c]);
}

/// The four decimal digits of a number below 10000.
pub proof fn lemma_dec_pad4(x: nat)
    requires
        x < 10000,
    ensures
        dec_pad(x, 4) == seq![
            (48 + x / 1000) as u8,
            (48 + (x / 100) % 10) as u8,
            (48 + (x / 10) % 10) as u8,
            (48 + x % 10) as u8,
        ],
{
    lemma_dec_digits(x);
    if x < 1000 {
        lemma_dec_pad3(x);
        let d = dec_digits(x);
        assert(dec_pad(x, 4) =~= seq![48u8] + dec_pad(x, 3));
    } else {
        let y = x / 10;
        lemma_dec_digits(y);
        lemma_dec_pad3(y);
        assert(dec_digits(y) == dec_pad(y, 3));
        assert(y / 100 == x / 1000);
        assert((y / 10) % 10 == (x / 100) % 10);
        assert(dec_digits(x) =~= seq![
            (48 + x / 1000) as u8,
            (48 + (x / 100) % 10) as u8,
            (48 + (x / 10) % 10) as u8,
            (48 + x % 10) as u8,
        ]);
    }
}

/// Three digit bytes are the zero-padded decimal form of their value.
pub proof fn lemma_digit_string3(s: Seq<u8>)
    requires
        all_digits(s),
        s.len() == 3,
    ensures
        dec_pad(digits_value(s), 3) == s,
{
    assert(is_digit(s[0]) && is_digit(s[1]) && is_digit(s[2]));
    lemma_digits_value3(s[0], s[1], s[2]);
    assert(s =~= seq![s[0], s[1], s[2]]);
    lemma_dec_pad3(digits_value(s));
}

/// Four digit bytes are the zero-padded decimal form of their value.
pub proof fn lemma_digit_string4(s: Seq<u8>)
    requires
        all_digits(s),
        s.len() == 4,
    ensures
        dec_pad(digits_value(s), 4) == s,
{
    assert(is_digit(s[0]) && is_digit(s[1]) && is_digit(s[2]) && is_digit(s[3]));
    lemma_digits_value4(s[0], s[1], s[2], s[3]);
    assert(s =~= seq![s[0], s[1], s[2], s[3]]);
    let v = digits_value(s) as int;
    let (a, b, c, d) = ((s[0] - 48) as int, (s[1] - 48) as int, (s[2] - 48) as int, (s[3] - 48) as int);
    vstd::arithmetic::div_mod::lemma_fundamental_div_mod_converse(v, 1000, a, b * 100 + c * 10 + d);
    vstd::arithmetic::div_mod::lemma_fundamental_div_mod_converse(v, 100, a * 10 + b, c * 10 + d);
    vstd::arithmetic::div_mod::lemma_fundamental_div_mod_converse(a * 10 + b, 10, a, b);
    vstd::arithmetic::div_mod::lemma_fundamental_div_mod_converse(v, 10, a * 100 + b * 10 + c, d);
    vstd::arithmetic::div_mod::lemma_fundamental_div_mod_converse(a * 100 + b * 10 + c, 10, a * 10 + b, c);
    lemma_dec_pad4(digits_value(s));
}

/// The value of two decimal digits.
pub proof fn lemma_digits_value2(a: u8, b: u8)
    requires
        is_digit(a),
        is_digit(b),
    ensures
        digits_value(seq![a, b]) == ((a - 48) * 10 + (b - 48)),
{
    assert(seq![a, b].drop_last() =~= seq![a]);
    assert(seq![a].drop_last() =~= Seq::<u8>::empty());
    assert(digits_value(Seq::<u8>::empty()) == 0);
    assert(seq![a].last() == a);
    assert(digits_value(seq![a]) == (a - 48) as nat);
}

/// Append the decimal digits of `v` to `out`.
pub fn push_dec(out: &mut Vec<u8>, v: u64)
    ensures
        final(out)@ == old(out)@ + dec_digits(v as nat),
    decreases v,
{
    if v >= 10 {
        push_dec(out, v / 10);
    }
    out.push('0' as u8 + (v % 10) as u8);
    proof {
        if v < 10 {
            assert(final(out)@ =~= old(out)@ + dec_digits(v as nat));
        } else {
            assert(final(out)@ =~= old(out)@ + dec_digits(v as nat));
        }
    }
}

/// Number of decimal digits of `v`.
pub fn dec_len(v: u64) -> (r: u64)
    ensures
        r == dec_digits(v as nat).len(),
    decreases v,
{
    proof {
        lemma_dec_len_small(v as nat);
    }
    if v >= 10 {
        proof {
            lemma_dec_len_small((v / 10) as nat);
        }
        1 + dec_len(v / 10)
    } else {
        1
    }
}

proof fn lemma_dec_len_small(v: nat)
    ensures
        dec_digits(v).len() <= v + 1,
        v >= 10 ==> dec_digits(v).len() == dec_digits(v / 10).len() + 1,
    decreases v,
{
    if v >= 10 {
        lemma_dec_len_small(v / 10);
    }
}

/// Append `format!("{:0w$}", v)` to `out`.
pub fn push_dec_pad(out: &mut Vec<u8>, v: u64, w: usize)
    ensures
        final(out)@ == old(out)@ + dec_pad(v as nat, w as nat),
{
    let n = dec_len(v);
    let w64 = w as u64;
    let mut k: u64 = n;
    while k < w64
        invariant
            n == dec_digits(v as nat).len(),
            w64 == w,
            n <= k,
            k <= w64 || k == n,
            n >= w64 ==> k == n,
            out@ == old(out)@ + Seq::new((k - n) as nat, |i: int| 48u8),
        decreases w - k,
    {
        out.push('0' as u8);
        k = k + 1;
        assert(out@ =~= old(out)@ + Seq::new((k - n) as nat, |i: int| 48u8));
    }
    let ghost mid = out@;
    push_dec(out, v);
    proof {
        if n < w {
            assert(out@ =~= old(out)@ + dec_pad(v as nat, w as nat));
        } else {
            assert(mid =~= old(out)@);
            assert(out@ =~= old(out)@ + dec_pad(v as nat, w as nat));
        }
    }
}

/// Remove trailing spaces from a byte string.
pub open spec fn trim_spaces_end(s: Seq<u8>) -> Seq<u8>
    decreases s.len(),
{
    if s.len() > 0 && s.last() == 32u8 {
        trim_spaces_end(s.drop_last())
    } else {
        s
    }
}

/// Trimming trailing spaces keeps a prefix that does not end in a space and
/// drops only spaces.
pub proof fn lemma_trim_spaces_end(s: Seq<u8>)
    ensures
        trim_spaces_end(s).len() <= s.len(),
        trim_spaces_end(s) == s.subrange(0, trim_spaces_end(s).len() as int),
        trim_spaces_end(s).len() == 0 || trim_spaces_end(s).last() != 32u8,
        forall|i: int| trim_spaces_end(s).len() <= i < s.len() ==> s[i] == 32u8,
    decreases s.len(),
{
    if s.len() > 0 && s.last() == 32u8 {
        lemma_trim_spaces_end(s.drop_last());
        let t = trim_spaces_end(s.drop_last());
        assert(s.drop_last().subrange(0, t.len() as int) =~= s.subrange(0, t.len() as int));
        assert forall|i: int| t.len() <= i < s.len() implies s[i] == 32u8 by {
            if i < s.len() - 1 {
                assert(s[i] == s.drop_last()[i]);
            }
        }
    } else {
        assert(s.subrange(0, s.len() as int) =~= s);
    }
}

/// Trailing spaces added to a string that does not end in one are trimmed
/// away again.
pub proof fn lemma_trim_spaces_pad(a: Seq<u8>, n: nat)
    requires
        a.len() == 0 || a.last() != 32u8,
    ensures
        trim_spaces_end(a + Seq::new(n, |i: int| 32u8)) == a,
    decreases n,
{
    let p = a + Seq::new(n, |i: int| 32u8);
    if n == 0 {
        assert(p =~= a);
        if a.len() > 0 {
            assert(p.last() == a.last());
        }
    } else {
        assert(p.drop_last() =~= a + Seq::new((n - 1) as nat, |i: int| 32u8));
        assert(p.last() == 32u8);
        lemma_trim_spaces_pad(a, (n - 1) as nat);
    }
}

/// Remove trailing spaces from `v` in place.
pub fn trim_spaces_end_exec(v: &mut Vec<u8>)
    ensures
        final(v)@ == trim_spaces_end(old(v)@),
{
    while v.len() > 0 && v[v.len() - 1] == ' ' as u8
        invariant
            trim_spaces_end(v@) == trim_spaces_end(old(v)@),
        decreases v.len(),
    {
        let ghost prev = v@;
        v.pop();
        assert(v@ =~= prev.drop_last());
    }
}

/// `p` occurs in `s` at position `i`.
pub open spec fn matches_at(s: Seq<u8>, p: Seq<u8>, i: int) -> bool {
    0 <= i && i + p.len() <= s.len() && s.subrange(i, i + p.len()) == p
}

/// First position at or after `i` where `p` occurs in `s`, or -1.
pub open spec fn find_seq_from(s: Seq<u8>, p: Seq<u8>, i: int) -> int
    decreases s.len() + 1 - i,
{
    if i < 0 || i + p.len() > s.len() {
        -1
    } else if matches_at(s, p, i) {
        i
    } else {
        find_seq_from(s, p, i + 1)
    }
}

/// First position where `p` occurs in `s`, or -1.
pub open spec fn find_seq(s: Seq<u8>, p: Seq<u8>) -> int {
    find_seq_from(s, p, 0)
}

/// What `find_seq_from` finds is -1 or an occurrence of `p` at or after `i`.
pub proof fn lemma_find_seq_from(s: Seq<u8>, p: Seq<u8>, i: int)
    requires
        0 <= i,
    ensures
        find_seq_from(s, p, i) == -1 || (i <= find_seq_from(s, p, i) && matches_at(
            s,
            p,
            find_seq_from(s, p, i),
        )),
    decreases s.len() + 1 - i,
{
    if i + p.len() <= s.len() && !matches_at(s, p, i) {
        lemma_find_seq_from(s, p, i + 1);
    }
}

fn matches_at_exec(s: &[u8], p: &[u8], i: usize) -> (r: bool)
    requires
        i + p@.len() <= s@.len(),
    ensures
        r == matches_at(s@, p@, i as int),
{
    let n: usize = s.len();
    let mut j: usize = 0;
    while j < p.len()
        invariant
            n == s@.len(),
            i + p@.len() <= s@.len(),
            j <= p@.len(),
            forall|k: int| 0 <= k < j ==> s@[i + k] == p@[k],
        decreases p.len() - j,
    {
        if s[i + j] != p[j] {
            assert(s@.subrange(i as int, i + p@.len())[j as int] != p@[j as int]);
            return false;
        }
        j = j + 1;
    }
    assert(s@.subrange(i as int, i + p@.len()) =~= p@);
    true
}

/// First position where `p` occurs in `s`.
pub fn find_seq_exec(s: &[u8], p: &[u8]) -> (r: Option<usize>)
    ensures
        match r {
            Some(i) => find_seq(s@, p@) == i as int,
            None => find_seq(s@, p@) == -1,
        },
{
    if p.len() > s.len() {
        return None;
    }
    let last: usize = s.len() - p.len();
    let mut i: usize = 0;
    loop
        invariant
            i <= last,
            last + p@.len() == s@.len(),
            find_seq(s@, p@) == find_seq_from(s@, p@, i as int),
        decreases last - i,
    {
        if matches_at_exec(s, p, i) {
            return Some(i);
        }
        if i == last {
            assert(find_seq_from(s@, p@, i + 1) == -1);
            return None;
        }
        i = i + 1;
    }
}

/// Length of the run of digits at the start of `s`.
pub open spec fn leading_digits(s: Seq<u8>) -> nat
    decreases s.len(),
{
    if s.len() > 0 && is_digit(s[0]) {
        1 + leading_digits(s.drop_first())
    } else {
        0
    }
}

/// The leading digits of `s` are digits, followed by a non-digit or the end.
pub proof fn lemma_leading_digits(s: Seq<u8>)
    ensures
        leading_digits(s) <= s.len(),
        all_digits(s.subrange(0, leading_digits(s) as int)),
        leading_digits(s) < s.len() ==> !is_digit(s[leading_digits(s) as int]),
    decreases s.len(),
{
    if s.len() > 0 && is_digit(s[0]) {
        lemma_leading_digits(s.drop_first());
        let n: int = leading_digits(s.drop_first()) as int;
        assert forall|k: int| 0 <= k < n + 1 implies is_digit(
            #[trigger] s.subrange(0, n + 1)[k],
        ) by {
            if k > 0 {
                assert(s.subrange(0, n + 1)[k] == s.drop_first().subrange(0, n)[k - 1]);
            }
        }
        if n + 1 < s.len() {
            assert(s[n + 1] == s.drop_first()[n]);
        }
    }
}

pub fn leading_digits_exec(s: &[u8]) -> (r: usize)
    ensures
        r == leading_digits(s@),
{
    let mut i: usize = 0;
    assert(s@.subrange(0, s@.len() as int) =~= s@);
    while i < s.len() && digit(s[i])
        invariant
            i <= s@.len(),
            leading_digits(s@) == i + leading_digits(s@.subrange(i as int, s@.len() as int)),
        decreases s.len() - i,
    {
        proof {
            let t = s@.subrange(i as int, s@.len() as int);
            assert(t.drop_first() =~= s@.subrange(i + 1, s@.len() as int));
        }
        i = i + 1;
    }
    proof {
        let t = s@.subrange(i as int, s@.len() as int);
        if i < s@.len() {
            assert(t[0] == s@[i as int]);
        }
    }
    i
}

/// The pieces of `s` between occurrences of `sep` (at least one piece), as
/// `<[u8]>::split` yields them.
pub open spec fn spec_split(s: Seq<u8>, sep: u8) -> Seq<Seq<u8>>
    decreases s.len(),
{
    let k = index_of(s, sep);
    if k < 0 {
        seq![s]
    } else {
        proof {
            lemma_index_of(s, sep);
        }
        seq![s.subrange(0, k)] + spec_split(s.subrange(k + 1, s.len() as int), sep)
    }
}

/// The pieces of a split hold no separator, and no byte that the whole
/// text lacks.
pub proof fn lemma_split_pieces(s: Seq<u8>, sep: u8, x: u8)
    ensures
        forall|i: int| 0 <= i < spec_split(s, sep).len() ==> lacks(#[trigger] spec_split(s, sep)[i], sep),
        lacks(s, x) ==> forall|i: int| 0 <= i < spec_split(s, sep).len() ==> lacks(
            #[trigger] spec_split(s, sep)[i],
            x,
        ),
    decreases s.len(),
{
    lemma_index_of(s, sep);
    let k = index_of(s, sep);
    if k >= 0 {
        let rest = s.subrange(k + 1, s.len() as int);
        lemma_split_pieces(rest, sep, x);
        let ps = spec_split(s, sep);
        let head = s.subrange(0, k);
        assert(ps == seq![head] + spec_split(rest, sep));
        assert forall|i: int| 0 <= i < ps.len() implies lacks(#[trigger] ps[i], sep) by {
            if i > 0 {
                assert(ps[i] == spec_split(rest, sep)[i - 1]);
            }
        }
        if lacks(s, x) {
            assert forall|i: int| 0 <= i < ps.len() implies lacks(#[trigger] ps[i], x) by {
                if i > 0 {
                    assert(ps[i] == spec_split(rest, sep)[i - 1]);
                    assert(lacks(rest, x));
                }
            }
        }
    }
}

/// `s` holds no byte `x`.
pub open spec fn lacks(s: Seq<u8>, x: u8) -> bool {
    forall|i: int| 0 <= i < s.len() ==> #[trigger] s[i] != x
}

/// The pieces `ps` with `sep` between each two.
pub open spec fn join(ps: Seq<Seq<u8>>, sep: u8) -> Seq<u8>
    decreases ps.len(),
{
    if ps.len() == 0 {
        Seq::empty()
    } else if ps.len() == 1 {
        ps[0]
    } else {
        ps[0] + seq![sep] + join(ps.drop_first(), sep)
    }
}

/// Splitting pieces joined by a separator that none of them holds gives the
/// pieces back.
pub proof fn lemma_split_join(ps: Seq<Seq<u8>>, sep: u8)
    requires
        ps.len() >= 1,
        forall|i: int| 0 <= i < ps.len() ==> lacks(#[trigger] ps[i], sep),
    ensures
        spec_split(join(ps, sep), sep) == ps,
    decreases ps.len(),
{
    let j = join(ps, sep);
    if ps.len() == 1 {
        assert(lacks(ps[0], sep));
        lemma_index_of(j, sep);
        assert(spec_split(j, sep) =~= ps);
    } else {
        let rest = ps.drop_first();
        assert forall|i: int| 0 <= i < rest.len() implies lacks(#[trigger] rest[i], sep) by {
            assert(rest[i] == ps[i + 1]);
        }
        lemma_split_join(rest, sep);
        let k = ps[0].len() as int;
        assert(lacks(ps[0], sep));
        assert forall|i: int| 0 <= i < k implies j[i] != sep by {
            assert(j[i] == ps[0][i]);
        }
        lemma_index_of_at(j, sep, k);
        assert(j.subrange(0, k) =~= ps[0]);
        assert(j.subrange(k + 1, j.len() as int) =~= join(rest, sep));
        assert(spec_split(j, sep) =~= ps);
    }
}

/// Joining two non-empty lists of pieces puts one separator between them.
pub proof fn lemma_join_append(a: Seq<Seq<u8>>, b: Seq<Seq<u8>>, sep: u8)
    requires
        a.len() >= 1,
        b.len() >= 1,
    ensures
        join(a + b, sep) == join(a, sep) + seq![sep] + join(b, sep),
    decreases a.len(),
{
    if a.len() == 1 {
        assert((a + b).drop_first() =~= b);
        assert((a + b)[0] == a[0]);
    } else {
        lemma_join_append(a.drop_first(), b, sep);
        assert((a + b).drop_first() =~= a.drop_first() + b);
        assert((a + b)[0] == a[0]);
        assert(join(a + b, sep) =~= join(a, sep) + seq![sep] + join(b, sep));
    }
}

/// Pieces that lack `x`, joined by another separator, lack `x`.
pub proof fn lemma_join_lacks(ps: Seq<Seq<u8>>, sep: u8, x: u8)
    requires
        x != sep,
        forall|i: int| 0 <= i < ps.len() ==> lacks(#[trigger] ps[i], x),
    ensures
        lacks(join(ps, sep), x),
    decreases ps.len(),
{
    if ps.len() == 1 {
        assert(lacks(ps[0], x));
    } else if ps.len() > 1 {
        let rest = ps.drop_first();
        assert forall|i: int| 0 <= i < rest.len() implies lacks(#[trigger] rest[i], x) by {
            assert(rest[i] == ps[i + 1]);
        }
        lemma_join_lacks(rest, sep, x);
        assert(lacks(ps[0], x));
        let j = join(ps, sep);
        let k = ps[0].len() as int;
        assert forall|i: int| 0 <= i < j.len() implies #[trigger] j[i] != x by {
            if i < k {
                assert(j[i] == ps[0][i]);
            } else if i > k {
                assert(j[i] == join(rest, sep)[i - k - 1]);
            }
        }
    }
}

/// Split `s` on `sep`.
pub fn split_exec(s: &[u8], sep: u8) -> (r: Vec<Vec<u8>>)
    ensures
        r@.len() == spec_split(s@, sep).len(),
        forall|i: int| 0 <= i < r@.len() ==> (#[trigger] r@[i])@ == spec_split(s@, sep)[i],
{
    let mut r: Vec<Vec<u8>> = Vec::new();
    let mut start: usize = 0;
    assert(s@.subrange(0, s@.len() as int) =~= s@);
    assert(r@.map_values(|v: Vec<u8>| v@) =~= Seq::<Seq<u8>>::empty());
    loop
        invariant
            start <= s@.len(),
            spec_split(s@, sep) == r@.map_values(|v: Vec<u8>| v@) + spec_split(
                s@.subrange(start as int, s@.len() as int),
                sep,
            ),
        decreases s@.len() - start,
    {
        let rest = vstd::slice::slice_subrange(s, start, s.len());
        match find_byte(rest, sep) {
            Some(k) => {
                proof {
                    lemma_index_of(rest@, sep);
                }
                let piece = copy_range(s, start, start + k);
                let ghost before = r@;
                r.push(piece);
                proof {
                    assert(piece@ =~= rest@.subrange(0, k as int));
                    assert(rest@.subrange(k + 1, rest@.len() as int) =~= s@.subrange(
                        start + k + 1,
                        s@.len() as int,
                    ));
                    assert(r@.map_values(|v: Vec<u8>| v@) =~= before.map_values(|v: Vec<u8>| v@)
                        + seq![piece@]);
                }
                start = start + k + 1;
            },
            None => {
                let piece = copy_range(s, start, s.len());
                let ghost before = r@;
                r.push(piece);
                proof {
                    assert(r@.map_values(|v: Vec<u8>| v@) =~= before.map_values(|v: Vec<u8>| v@)
                        + seq![piece@]);
                }
                assert forall|i: int| 0 <= i < r@.len() implies (#[trigger] r@[i])@ == spec_split(
                    s@,
                    sep,
                )[i] by {
                    assert(r@.map_values(|v: Vec<u8>| v@)[i] == r@[i]@);
                }
                return r;
            },
        }
    }
}


/// `s` begins with `p` exactly when `p` fits in `s` and each byte of `p`
/// stands at the same place in `s`.
pub proof fn lemma_starts_with_bytes(s: Seq<u8>, p: Seq<u8>)
    ensures
        starts_with(s, p) <==> (p.len() <= s.len() && forall|i: int|
            0 <= i < p.len() ==> #[trigger] s[i] == p[i]),
{
    if p.len() <= s.len() {
        if forall|i: int| 0 <= i < p.len() ==> #[trigger] s[i] == p[i] {
            assert(s.subrange(0, p.len() as int) =~= p);
        }
        if starts_with(s, p) {
            assert forall|i: int| 0 <= i < p.len() implies #[trigger] s[i] == p[i] by {
                assert(s.subrange(0, p.len() as int)[i] == s[i]);
            }
        }
    }
}

} // verus!
