//! Hexadecimal text of byte strings, and the two reorderings the proxies apply
//! to hashes and nonces before comparing them with a peer's text.

use vstd::prelude::*;
use crate::text::{ascii_chars, chars_of, string_of_ascii, string_of_chars};
use vstd::string::StringSliceAdditionalSpecFns;

verus! {

/// The lower-case hexadecimal digit of a value below 16.
pub open spec fn hex_digit(n: u8) -> u8 {
    if n < 10 {
        (48 + n) as u8
    } else {
        (87 + n) as u8
    }
}

/// Two lower-case hexadecimal digits for each byte, high digit first.
pub open spec fn hex_ascii(b: Seq<u8>) -> Seq<u8>
    decreases b.len(),
{
    if b.len() == 0 {
        Seq::empty()
    } else {
        hex_ascii(b.drop_last()) + seq![hex_digit(b.last() / 16), hex_digit(b.last() % 16)]
    }
}

/// The value of one hexadecimal digit, in either case.
pub open spec fn hex_value(c: u8) -> Option<u8> {
    if 48 <= c <= 57 {
        Some((c - 48) as u8)
    } else if 97 <= c <= 102 {
        Some((c - 87) as u8)
    } else if 65 <= c <= 70 {
        Some((c - 55) as u8)
    } else {
        None
    }
}

/// An even number of hexadecimal digits.
pub open spec fn is_hex_ascii(s: Seq<u8>) -> bool {
    &&& s.len() % 2 == 0
    &&& forall|i: int| 0 <= i < s.len() ==> (#[trigger] hex_value(s[i])) is Some
}

/// The bytes that pairs of hexadecimal digits spell, high digit first.
pub open spec fn hex_decoded(s: Seq<u8>) -> Seq<u8> {
    Seq::new(
        (s.len() / 2) as nat,
        |i: int| (hex_value(s[2 * i])->0 * 16 + hex_value(s[2 * i + 1])->0) as u8,
    )
}

/// Relies on `hex::decode`: an even-length run of hexadecimal digits of
/// either case decodes pair by pair, high digit first; an odd length or any
/// other byte is an error.
#[verifier::external_body]
fn decode_hex(text: &[u8]) -> (r: Option<Vec<u8>>)
    ensures
        r is Some <==> is_hex_ascii(text@),
        r is Some ==> r->0@ == hex_decoded(text@),
{
    hex::decode(text).ok()
}

fn hex_digit_of(n: u8) -> (r: u8)
    requires
        n < 16,
    ensures
        r == hex_digit(n),
{
    if n < 10 {
        48 + n
    } else {
        87 + n
    }
}

/// The lower-case hexadecimal digits of `bytes`, as ASCII bytes.
pub fn hex_ascii_of(bytes: &[u8]) -> (r: Vec<u8>)
    ensures
        r@ == hex_ascii(bytes@),
{
    let mut out: Vec<u8> = Vec::new();
    let mut i: usize = 0;
    while i < bytes.len()
        invariant
            i <= bytes@.len(),
            out@ == hex_ascii(bytes@.take(i as int)),
        decreases bytes@.len() - i,
    {
        let b = bytes[i];
        out.push(hex_digit_of(b / 16));
        out.push(hex_digit_of(b % 16));
        assert(bytes@.take(i + 1).drop_last() =~= bytes@.take(i as int));
        i += 1;
    }
    assert(bytes@.take(bytes@.len() as int) =~= bytes@);
    out
}

/// The lower-case hexadecimal text of `bytes`, two digits per byte.
pub fn encode_hex(bytes: &[u8]) -> (r: String)
    ensures
        r@ == ascii_chars(hex_ascii(bytes@)),
{
    let digits = hex_ascii_of(bytes);
    string_of_ascii(&digits)
}

/// Every byte is a hexadecimal digit.
pub open spec fn all_hex_digits(s: Seq<u8>) -> bool {
    forall|i: int| 0 <= i < s.len() ==> (#[trigger] hex_value(s[i])) is Some
}

/// The bytes that the digit pairs of `s` spell, pairs counted from the
/// start, high digit first; a single last digit spells a byte of its own.
pub open spec fn pair_values(s: Seq<u8>) -> Seq<u8> {
    Seq::new(
        ((s.len() + 1) / 2) as nat,
        |i: int|
            if 2 * i + 1 < s.len() {
                (hex_value(s[2 * i])->0 * 16 + hex_value(s[2 * i + 1])->0) as u8
            } else {
                hex_value(s[2 * i])->0
            },
    )
}

fn hex_value_of(c: u8) -> (r: Option<u8>)
    ensures
        r == hex_value(c),
{
    if 48 <= c && c <= 57 {
        Some(c - 48)
    } else if 97 <= c && c <= 102 {
        Some(c - 87)
    } else if 65 <= c && c <= 70 {
        Some(c - 55)
    } else {
        None
    }
}

/// The hexadecimal text of the same bytes in reverse order: a hash as a
/// block explorer writes it, from the order the template protocol carries.
/// Each pair of digits, counted from the start, is one byte (a single last
/// digit too); the result is in lower case.
pub fn reverse_hash(hash: &str) -> (r: String)
    requires
        all_hex_digits(hash.spec_bytes()),
    ensures
        r@ == ascii_chars(hex_ascii(pair_values(hash.spec_bytes()).reverse())),
{
    let s = hash.as_bytes();
    let n = s.len();
    let pieces = n / 2 + n % 2;
    let mut values: Vec<u8> = Vec::new();
    let mut i: usize = 0;
    while i < pieces
        invariant
            n == s@.len(),
            pieces == (n + 1) / 2,
            all_hex_digits(s@),
            i <= pieces,
            values@.len() == i,
            forall|j: int| 0 <= j < i ==> values@[j] == pair_values(s@)[j],
        decreases pieces - i,
    {
        assert(hex_value(s@[2 * i as int]) is Some);
        let hi = match hex_value_of(s[2 * i]) {
            Some(v) => v,
            None => 0,
        };
        let v = if 2 * i + 1 < n {
            assert(hex_value(s@[2 * i + 1]) is Some);
            let lo = match hex_value_of(s[2 * i + 1]) {
                Some(v) => v,
                None => 0,
            };
            hi * 16 + lo
        } else {
            hi
        };
        values.push(v);
        i += 1;
    }
    assert(values@ =~= pair_values(s@));
    let reversed = reversed_bytes(values.as_slice());
    encode_hex(reversed.as_slice())
}

/// The same bytes in reverse order.
pub fn reversed_bytes(bytes: &[u8]) -> (r: Vec<u8>)
    ensures
        r@ == bytes@.reverse(),
{
    let mut out: Vec<u8> = Vec::new();
    let mut i: usize = bytes.len();
    while i > 0
        invariant
            i <= bytes@.len(),
            out@ == bytes@.skip(i as int).reverse(),
        decreases i,
    {
        i -= 1;
        out.push(bytes[i]);
        assert(bytes@.skip(i as int).reverse() =~= bytes@.skip(i + 1).reverse().push(bytes@[i as int]));
    }
    assert(bytes@.skip(0) =~= bytes@);
    out
}

/// The characters of `s` in reverse order.
pub fn reverse_string(s: &str) -> (r: String)
    ensures
        r@ == s@.reverse(),
{
    let chars = chars_of(s);
    let mut out: Vec<char> = Vec::new();
    let mut i: usize = chars.len();
    while i > 0
        invariant
            i <= chars@.len(),
            chars@ == s@,
            out@ == chars@.skip(i as int).reverse(),
        decreases i,
    {
        i -= 1;
        out.push(chars[i]);
        assert(chars@.skip(i as int).reverse() =~= chars@.skip(i + 1).reverse().push(chars@[i as int]));
    }
    assert(chars@.skip(0) =~= chars@);
    string_of_chars(&out)
}

/// The nonce as the companion writes it: the bytes that the hexadecimal text
/// spells, in reverse order, written again as lower-case hexadecimal.
/// `None` where the text is not an even run of hexadecimal digits.
pub fn byte_swapped_hex(text: &[u8]) -> (r: Option<Vec<u8>>)
    ensures
        r is Some <==> is_hex_ascii(text@),
        r is Some ==> r->0@ == hex_ascii(hex_decoded(text@).reverse()),
{
    match decode_hex(text) {
        Some(bytes) => {
            let reversed = reversed_bytes(bytes.as_slice());
            Some(hex_ascii_of(reversed.as_slice()))
        },
        None => None,
    }
}

} // verus!
