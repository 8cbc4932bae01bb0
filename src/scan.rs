//! Scanning of metrics exposition text as bytes: lines, substring search,
//! whitespace-separated fields and decimal numbers.

use vstd::prelude::*;
use crate::framing::{complete_len, copy_range, has_no_newline, lemma_complete_len_bounds, NEWLINE};

verus! {

pub const CARRIAGE_RETURN: u8 = 13;

/// A line without the carriage return of a CRLF ending.
pub open spec fn strip_cr(l: Seq<u8>) -> Seq<u8> {
    if l.len() > 0 && l.last() == CARRIAGE_RETURN {
        l.drop_last()
    } else {
        l
    }
}

/// The lines of a text in which every line ends with a newline (or that is
/// empty), without their endings.
pub open spec fn terminated_lines(x: Seq<u8>) -> Seq<Seq<u8>>
    decreases x.len(),
    via terminated_lines_decreases
{
    if x.len() == 0 {
        Seq::empty()
    } else {
        let y = x.drop_last();
        let j = complete_len(y) as int;
        terminated_lines(y.take(j)).push(strip_cr(y.skip(j)))
    }
}

#[via_fn]
proof fn terminated_lines_decreases(x: Seq<u8>) {
    if x.len() > 0 {
        lemma_complete_len_bounds(x.drop_last());
    }
}

/// The lines of a text as `str::lines` gives them: split at each newline,
/// a CRLF ending dropped, and no empty line after a final newline.
pub open spec fn text_lines(b: Seq<u8>) -> Seq<Seq<u8>> {
    let k = complete_len(b) as int;
    if k < b.len() {
        terminated_lines(b.take(k)).push(b.skip(k))
    } else {
        terminated_lines(b.take(k))
    }
}

fn strip_cr_of(l: Vec<u8>) -> (r: Vec<u8>)
    ensures
        r@ == strip_cr(l@),
{
    let mut l = l;
    if l.len() > 0 && l[l.len() - 1] == CARRIAGE_RETURN {
        l.pop();
    }
    l
}

/// The lines of `b`, as `text_lines` states.
pub fn text_lines_of(b: &[u8]) -> (r: Vec<Vec<u8>>)
    ensures
        r@.map_values(|l: Vec<u8>| l@) == text_lines(b@),
{
    let ghost bs = b@;
    let mut lines: Vec<Vec<u8>> = Vec::new();
    let mut start: usize = 0;
    let mut i: usize = 0;
    let all = b;
    while i < all.len()
        invariant
            start <= i <= all@.len(),
            all@ == bs,
            start == complete_len(bs.take(i as int)),
            has_no_newline(bs.subrange(start as int, i as int)),
            lines@.map_values(|l: Vec<u8>| l@) == terminated_lines(bs.take(start as int)),
        decreases all@.len() - i,
    {
        assert(bs.take(i + 1).drop_last() =~= bs.take(i as int));
        if all[i] == NEWLINE {
            let piece = copy_range(all, start, i);
            let line = strip_cr_of(piece);
            let ghost before = lines@;
            lines.push(line);
            proof {
                let x = bs.take(i + 1);
                assert(x.drop_last() =~= bs.take(i as int));
                assert(bs.take(i as int).take(start as int) =~= bs.take(start as int));
                assert(bs.take(i as int).skip(start as int) =~= bs.subrange(start as int, i as int));
                assert(lines@.map_values(|l: Vec<u8>| l@) =~= before.map_values(|l: Vec<u8>| l@).push(
                    line@,
                ));
            }
            start = i + 1;
            assert(bs.subrange(start as int, i + 1) =~= Seq::<u8>::empty());
        } else {
            assert(bs.subrange(start as int, i + 1) =~= bs.subrange(start as int, i as int).push(
                bs[i as int],
            ));
        }
        i += 1;
    }
    assert(bs.take(i as int) =~= bs);
    if start < all.len() {
        let ghost before = lines@;
        let tail = copy_range(all, start, all.len());
        lines.push(tail);
        assert(tail@ =~= bs.skip(start as int));
        assert(lines@.map_values(|l: Vec<u8>| l@) =~= before.map_values(|l: Vec<u8>| l@).push(
            tail@,
        ));
    }
    lines
}

/// `n` occurs in `h` starting at `i`.
pub open spec fn occurs_at(h: Seq<u8>, n: Seq<u8>, i: int) -> bool {
    0 <= i && i + n.len() <= h.len() && h.subrange(i, i + n.len()) == n
}

/// The first position at or after `from` where `n` occurs in `h`.
pub open spec fn first_from(h: Seq<u8>, n: Seq<u8>, from: int) -> Option<int>
    decreases h.len() + 1 - from,
{
    if from < 0 || from + n.len() > h.len() {
        None
    } else if occurs_at(h, n, from) {
        Some(from)
    } else {
        first_from(h, n, from + 1)
    }
}

pub open spec fn contains(h: Seq<u8>, n: Seq<u8>) -> bool {
    first_from(h, n, 0) is Some
}

pub open spec fn starts_with(h: Seq<u8>, n: Seq<u8>) -> bool {
    occurs_at(h, n, 0)
}

/// Whether `n` occurs in `h` at `i`.
pub fn occurs_at_exec(h: &[u8], n: &[u8], i: usize) -> (r: bool)
    ensures
        r == occurs_at(h@, n@, i as int),
{
    if i > h.len() || n.len() > h.len() - i {
        return false;
    }
    let mut k: usize = 0;
    while k < n.len()
        invariant
            k <= n@.len(),
            i + n@.len() <= h.len(),
            forall|m: int| 0 <= m < k ==> h@[i + m] == n@[m],
        decreases n@.len() - k,
    {
        if h[i + k] != n[k] {
            assert(h@.subrange(i as int, i + n@.len())[k as int] != n@[k as int]);
            return false;
        }
        k += 1;
    }
    assert(h@.subrange(i as int, i + n@.len()) =~= n@);
    true
}

/// The first position at or after `from` where `n` occurs in `h`.
pub fn find_from(h: &[u8], n: &[u8], from: usize) -> (r: Option<usize>)
    ensures
        r matches Some(i) ==> first_from(h@, n@, from as int) == Some(i as int),
        r matches Some(i) ==> from <= i && occurs_at(h@, n@, i as int) && i + n.len() <= h.len(),
        r is None ==> first_from(h@, n@, from as int) is None,
{
    if from > h.len() {
        return None;
    }
    let mut i: usize = from;
    while n.len() <= h.len() - i
        invariant
            from <= i <= h.len(),
            first_from(h@, n@, from as int) == first_from(h@, n@, i as int),
        decreases h@.len() - i,
    {
        if occurs_at_exec(h, n, i) {
            return Some(i);
        }
        if i == h.len() {
            assert(first_from(h@, n@, i + 1) is None);
            return None;
        }
        i += 1;
    }
    None
}

/// ASCII whitespace: space, tab, line feed, vertical tab, form feed and
/// carriage return.
pub open spec fn is_ws(c: u8) -> bool {
    c == 32 || (9 <= c <= 13)
}

/// The first position at or after `i` that is not whitespace.
pub open spec fn skip_ws(l: Seq<u8>, i: int) -> int
    decreases l.len() - i,
{
    if i < 0 || i >= l.len() {
        i
    } else if is_ws(l[i]) {
        skip_ws(l, i + 1)
    } else {
        i
    }
}

/// The first position at or after `i` that is whitespace.
pub open spec fn skip_word(l: Seq<u8>, i: int) -> int
    decreases l.len() - i,
{
    if i < 0 || i >= l.len() {
        i
    } else if is_ws(l[i]) {
        i
    } else {
        skip_word(l, i + 1)
    }
}

/// The second whitespace-separated field of a line.
pub open spec fn second_field(l: Seq<u8>) -> Option<Seq<u8>> {
    let a = skip_ws(l, 0);
    let b = skip_word(l, a);
    let c = skip_ws(l, b);
    let d = skip_word(l, c);
    if c < d {
        Some(l.subrange(c, d))
    } else {
        None
    }
}

fn is_ws_exec(c: u8) -> (r: bool)
    ensures
        r == is_ws(c),
{
    c == 32 || (9 <= c && c <= 13)
}

fn skip_ws_exec(l: &[u8], i: usize) -> (r: usize)
    requires
        i <= l@.len(),
    ensures
        r == skip_ws(l@, i as int),
        i <= r <= l@.len(),
{
    let mut j = i;
    while j < l.len() && is_ws_exec(l[j])
        invariant
            i <= j <= l@.len(),
            skip_ws(l@, i as int) == skip_ws(l@, j as int),
        decreases l@.len() - j,
    {
        j += 1;
    }
    j
}

fn skip_word_exec(l: &[u8], i: usize) -> (r: usize)
    requires
        i <= l@.len(),
    ensures
        r == skip_word(l@, i as int),
        i <= r <= l@.len(),
{
    let mut j = i;
    while j < l.len() && !is_ws_exec(l[j])
        invariant
            i <= j <= l@.len(),
            skip_word(l@, i as int) == skip_word(l@, j as int),
        decreases l@.len() - j,
    {
        j += 1;
    }
    j
}

/// The second whitespace-separated field of a line.
pub fn second_field_of(l: &[u8]) -> (r: Option<Vec<u8>>)
    ensures
        r matches Some(f) ==> second_field(l@) == Some(f@),
        r is None ==> second_field(l@) is None,
{
    let a = skip_ws_exec(l, 0);
    let b = skip_word_exec(l, a);
    let c = skip_ws_exec(l, b);
    let d = skip_word_exec(l, c);
    if c < d {
        Some(copy_range(l, c, d))
    } else {
        None
    }
}

/// The text after the last space of a line, without surrounding
/// whitespace; `None` when the line has no space.
pub open spec fn last_field(l: Seq<u8>) -> Option<Seq<u8>> {
    match last_space(l, l.len() as int) {
        Some(p) => Some(trim(l.skip(p + 1))),
        None => None,
    }
}

/// The last position before `end` that holds a space.
pub open spec fn last_space(l: Seq<u8>, end: int) -> Option<int>
    decreases end,
{
    if end <= 0 || end > l.len() {
        None
    } else if l[end - 1] == 32 {
        Some(end - 1)
    } else {
        last_space(l, end - 1)
    }
}

/// The end of `s` without its trailing whitespace.
pub open spec fn trim_end_len(s: Seq<u8>, end: int) -> int
    decreases end,
{
    if end <= 0 || end > s.len() {
        if end > s.len() { s.len() as int } else { 0 }
    } else if is_ws(s[end - 1]) {
        trim_end_len(s, end - 1)
    } else {
        end
    }
}

/// `s` without leading and trailing whitespace.
pub open spec fn trim(s: Seq<u8>) -> Seq<u8> {
    let a = skip_ws(s, 0);
    let b = trim_end_len(s, s.len() as int);
    if a < b {
        s.subrange(a, b)
    } else {
        Seq::empty()
    }
}

/// The last field of a line, as `last_field` states.
pub fn last_field_of(l: &[u8]) -> (r: Option<Vec<u8>>)
    ensures
        r matches Some(f) ==> last_field(l@) == Some(f@),
        r is None ==> last_field(l@) is None,
{
    let mut end: usize = l.len();
    while end > 0 && l[end - 1] != 32
        invariant
            end <= l@.len(),
            last_space(l@, l@.len() as int) == last_space(l@, end as int),
        decreases end,
    {
        end -= 1;
    }
    if end == 0 {
        return None;
    }
    let p = end - 1;
    let rest = copy_range(l, p + 1, l.len());
    assert(rest@ =~= l@.skip(p + 1));
    let a = skip_ws_exec(rest.as_slice(), 0);
    let mut b: usize = rest.len();
    while b > 0 && is_ws_exec(rest[b - 1])
        invariant
            b <= rest@.len(),
            trim_end_len(rest@, rest@.len() as int) == trim_end_len(rest@, b as int),
        decreases b,
    {
        b -= 1;
    }
    if a < b {
        Some(copy_range(rest.as_slice(), a, b))
    } else {
        Some(Vec::new())
    }
}

/// The value of a run of decimal digits, most significant first.
pub open spec fn decimal_value(s: Seq<u8>) -> int
    decreases s.len(),
{
    if s.len() == 0 {
        0
    } else {
        decimal_value(s.drop_last()) * 10 + (s.last() - 48)
    }
}

pub open spec fn is_digit(c: u8) -> bool {
    48 <= c <= 57
}

/// A count written in decimal digits: at least one digit, only
/// digits, and a value that fits a `u64`.
pub open spec fn digits_u64(s: Seq<u8>) -> Option<u64> {
    if s.len() > 0 && (forall|i: int| 0 <= i < s.len() ==> is_digit(#[trigger] s[i]))
        && decimal_value(s) <= u64::MAX {
        Some(decimal_value(s) as u64)
    } else {
        None
    }
}

proof fn lemma_decimal_nonneg(s: Seq<u8>)
    requires
        forall|i: int| 0 <= i < s.len() ==> is_digit(#[trigger] s[i]),
    ensures
        decimal_value(s) >= 0,
    decreases s.len(),
{
    if s.len() > 0 {
        assert(s.last() == s[s.len() - 1]);
        lemma_decimal_nonneg(s.drop_last());
    }
}

proof fn lemma_decimal_grows(s: Seq<u8>)
    requires
        s.len() > 0,
        forall|i: int| 0 <= i < s.len() ==> is_digit(#[trigger] s[i]),
    ensures
        decimal_value(s) >= decimal_value(s.drop_last()),
{
    assert(s.last() == s[s.len() - 1]);
    lemma_decimal_nonneg(s.drop_last());
}

/// A count as `u64`'s `FromStr` reads it: decimal digits after an optional
/// `+` sign.
pub open spec fn decimal_u64(s: Seq<u8>) -> Option<u64> {
    if s.len() > 0 && s[0] == 43 {
        digits_u64(s.skip(1))
    } else {
        digits_u64(s)
    }
}

/// Reads a decimal count, as `decimal_u64` states.
pub fn parse_decimal_u64(s: &[u8]) -> (r: Option<u64>)
    ensures
        r == decimal_u64(s@),
{
    if s.len() > 0 && s[0] == 43 {
        let rest = copy_range(s, 1, s.len());
        assert(rest@ =~= s@.skip(1));
        parse_digits(rest.as_slice())
    } else {
        parse_digits(s)
    }
}

fn parse_digits(s: &[u8]) -> (r: Option<u64>)
    ensures
        r == digits_u64(s@),
{
    if s.len() == 0 {
        return None;
    }
    let mut acc: u64 = 0;
    let mut i: usize = 0;
    while i < s.len()
        invariant
            i <= s@.len(),
            forall|k: int| 0 <= k < i ==> is_digit(#[trigger] s@[k]),
            acc == decimal_value(s@.take(i as int)),
        decreases s@.len() - i,
    {
        let c = s[i];
        assert(s@.take(i + 1).drop_last() =~= s@.take(i as int));
        if c < 48 || c > 57 {
            return None;
        }
        let d = (c - 48) as u64;
        if acc > (u64::MAX - d) / 10 {
            proof {
                let t = s@.take(i + 1);
                assert forall|k: int| 0 <= k < t.len() implies is_digit(#[trigger] t[k]) by {
                    assert(t[k] == s@[k]);
                }
                assert(decimal_value(t) == acc * 10 + d);
                assert(acc * 10 + d > u64::MAX) by (nonlinear_arith)
                    requires
                        acc > (u64::MAX - d) / 10,
                        d <= 9,
                ;
                // the value only grows with more digits
                if forall|k: int| 0 <= k < s@.len() ==> is_digit(#[trigger] s@[k]) {
                    lemma_prefix_value_grows(s@, i + 1, s@.len() as int);
                }
                assert(s@.take(s@.len() as int) =~= s@);
            }
            return None;
        }
        acc = acc * 10 + d;
        i += 1;
    }
    assert(s@.take(s@.len() as int) =~= s@);
    Some(acc)
}

proof fn lemma_prefix_value_grows(s: Seq<u8>, i: int, j: int)
    requires
        0 <= i <= j <= s.len(),
        forall|k: int| 0 <= k < j ==> is_digit(#[trigger] s[k]),
    ensures
        decimal_value(s.take(j)) >= decimal_value(s.take(i)),
    decreases j - i,
{
    if i < j {
        lemma_prefix_value_grows(s, i, j - 1);
        assert(s.take(j).drop_last() =~= s.take(j - 1));
        assert forall|k: int| 0 <= k < s.take(j).len() implies is_digit(#[trigger] s.take(j)[k]) by {
            assert(s.take(j)[k] == s[k]);
        }
        lemma_decimal_grows(s.take(j));
    }
}

} // verus!
