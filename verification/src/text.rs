//! Conversions between byte strings and Rust strings.
use vstd::prelude::*;
use vstd::string::StringSliceAdditionalSpecFns;
use vstd::utf8::*;

verus! {

/// Every byte of `s` is 7-bit ASCII.
pub open spec fn all_ascii(s: Seq<u8>) -> bool {
    forall|i: int| 0 <= i < s.len() ==> #[trigger] s[i] < 128
}

/// The characters that the ASCII bytes `s` stand for.
pub open spec fn ascii_chars(s: Seq<u8>) -> Seq<char> {
    s.map_values(|b: u8| b as char)
}

/// ASCII bytes are valid UTF-8, and they decode to the characters with the
/// same code.
pub proof fn lemma_ascii_utf8(s: Seq<u8>)
    requires
        all_ascii(s),
    ensures
        valid_utf8(s),
        decode_utf8(s) == ascii_chars(s),
    decreases s.len(),
{
    if s.len() > 0 {
        let b = s[0];
        assert(b < 128);
        assert((b & 0x7f) as u32 == b as u32) by (bit_vector)
            requires
                b < 128,
        ;
        let rest = s.subrange(1, s.len() as int);
        assert(pop_first_scalar(s) == rest);
        lemma_ascii_utf8(rest);
        assert(ascii_chars(s) =~= seq![b as char] + ascii_chars(rest));
    } else {
        assert(ascii_chars(s) =~= Seq::<char>::empty());
    }
}

/// Name for what `String::from_utf8_lossy` returns: the characters of `b`
/// with every invalid UTF-8 sequence replaced by U+FFFD.
pub uninterp spec fn utf8_lossy(b: Seq<u8>) -> Seq<char>;

/// Calls `std::str::from_utf8`. Its documentation promises `Ok` exactly when
/// `b` is valid UTF-8, and then a string slice over the same bytes.
#[verifier::external_body]
pub(crate) fn str_from_utf8(b: &[u8]) -> (r: Option<&str>)
    ensures
        r is Some <==> valid_utf8(b@),
        r matches Some(s) ==> s.spec_bytes() == b@ && s@ == decode_utf8(b@),
{
    std::str::from_utf8(b).ok()
}

/// Calls `String::from_utf8_lossy`. Its documentation promises that a valid
/// UTF-8 input comes back with the same characters; for other inputs the
/// result is only named.
#[verifier::external_body]
pub(crate) fn string_from_utf8_lossy(b: &[u8]) -> (r: String)
    ensures
        r@ == utf8_lossy(b@),
        valid_utf8(b@) ==> r@ == decode_utf8(b@),
{
    String::from_utf8_lossy(b).into_owned()
}

/// A string slice over ASCII bytes.
pub fn ascii_str(b: &[u8]) -> (r: &str)
    requires
        all_ascii(b@),
    ensures
        r.spec_bytes() == b@,
        r@ == ascii_chars(b@),
{
    proof {
        lemma_ascii_utf8(b@);
    }
    match str_from_utf8(b) {
        Some(s) => s,
        None => "",
    }
}

/// An owned string holding the ASCII bytes `b`.
pub fn ascii_string(b: &[u8]) -> (r: String)
    requires
        all_ascii(b@),
    ensures
        r@ == ascii_chars(b@),
{
    let s = ascii_str(b);
    s.to_owned()
}

} // verus!
