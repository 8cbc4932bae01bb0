//! Byte and character helpers shared by the scanners: conversions between
//! `str`, `String` and character vectors, and ASCII views of byte strings.

use vstd::prelude::*;

verus! {

/// The characters of an ASCII byte string, one for each byte.
pub open spec fn ascii_chars(b: Seq<u8>) -> Seq<char> {
    b.map_values(|c: u8| c as char)
}

/// Relies on `str::chars` collected into a `Vec`: the characters of the
/// string, in order.
#[verifier::external_body]
pub(crate) fn chars_of(s: &str) -> (r: Vec<char>)
    ensures
        r@ == s@,
{
    s.chars().collect()
}

/// Relies on `String`'s `FromIterator<&char>`: a string of exactly these
/// characters, in order.
#[verifier::external_body]
pub(crate) fn string_of_chars(chars: &Vec<char>) -> (r: String)
    ensures
        r@ == chars@,
{
    chars.iter().collect()
}

/// The string whose characters are the bytes of an ASCII byte string.
pub fn string_of_ascii(b: &Vec<u8>) -> (r: String)
    ensures
        r@ == ascii_chars(b@),
{
    let mut chars: Vec<char> = Vec::new();
    let mut i: usize = 0;
    while i < b.len()
        invariant
            i <= b@.len(),
            chars@ == ascii_chars(b@.take(i as int)),
        decreases b@.len() - i,
    {
        chars.push(b[i] as char);
        assert(ascii_chars(b@.take(i + 1)) =~= ascii_chars(b@.take(i as int)).push(b@[i as int] as char));
        i += 1;
    }
    assert(b@.take(b@.len() as int) =~= b@);
    string_of_chars(&chars)
}

/// The decimal digits of `n`, as ASCII bytes, most significant first.
pub open spec fn decimal_ascii(n: nat) -> Seq<u8>
    decreases n,
{
    if n < 10 {
        seq![(48 + n) as u8]
    } else {
        decimal_ascii(n / 10).push((48 + n % 10) as u8)
    }
}

/// The decimal digits of `n`, as ASCII bytes.
pub fn decimal_ascii_of(n: u64) -> (r: Vec<u8>)
    ensures
        r@ == decimal_ascii(n as nat),
    decreases n,
{
    if n < 10 {
        let mut v: Vec<u8> = Vec::new();
        v.push(48 + n as u8);
        v
    } else {
        let mut v = decimal_ascii_of(n / 10);
        v.push(48 + (n % 10) as u8);
        v
    }
}

/// The decimal text of `n`.
pub fn decimal_text(n: u64) -> (r: String)
    ensures
        r@ == ascii_chars(decimal_ascii(n as nat)),
{
    let digits = decimal_ascii_of(n);
    string_of_ascii(&digits)
}

} // verus!
