//! Cross-process correlation: a companion proxy exposes the timestamps it
//! recorded as gauges in its metrics text; these scanners find the series
//! that matches an event seen here and turn its timestamp into a latency.
//! A missing series, a malformed line or an unreadable value yields no
//! sample, never an error.

use vstd::prelude::*;
use vstd::string::StringSliceAdditionalSpecFns;
use crate::hexcodec::{byte_swapped_hex, hex_ascii, hex_decoded, is_hex_ascii};
use crate::framing::{copy_range, views};
use crate::scan::{
    contains, first_from, last_field, last_field_of, decimal_u64, parse_decimal_u64, second_field,
    second_field_of, find_from, text_lines, text_lines_of, starts_with, occurs_at_exec,
};

verus! {

/// How a submitted-share timestamp series starts in the metrics text.
pub const SHARE_SERIES_PREFIX: &'static str = "share_submission_timestamp{nonce=\"";

/// Where a nonce label value starts when the nonce was recorded as JSON text
/// (the label value itself holds quotes, escaped).
pub const QUOTED_NONCE_OPEN: &'static str = "nonce=\"\\\"";

/// Where such a nonce label value ends.
pub const QUOTED_NONCE_CLOSE: &'static str = "\\\"";

/// The label that tells whether a new-job timestamp came with a new
/// previous-block hash.
pub const FLAG_LABEL: &'static str = "flag=";

/// The label of a previous-block-hash timestamp series.
pub const PREVHASH_LABEL: &'static str = "prevhash=";

/// The label of a template-id timestamp series.
pub const ID_LABEL: &'static str = "id=";

pub const QUOTE: &'static str = "\"";

/// Milliseconds from `previous_ms` to `now_ms`; negative when the clocks
/// disagree.
pub open spec fn latency(now_ms: u64, previous_ms: u64) -> i128 {
    (now_ms - previous_ms) as i128
}

pub fn latency_ms(now_ms: u64, previous_ms: u64) -> (r: i128)
    ensures
        r == latency(now_ms, previous_ms),
{
    now_ms as i128 - previous_ms as i128
}

// ---- submitted shares (binary-protocol solution) ----

/// The latency that one line gives for a share whose nonce is written `key`:
/// the line is a submitted-share series that mentions `key`, and its second
/// field is a millisecond timestamp.
pub open spec fn share_line_latency(l: Seq<u8>, key: Seq<u8>, now_ms: u64) -> Option<i128> {
    if starts_with(l, SHARE_SERIES_PREFIX.spec_bytes()) && contains(l, key) {
        match second_field(l) {
            Some(f) => match decimal_u64(f) {
                Some(t) => Some(latency(now_ms, t)),
                None => None,
            },
            None => None,
        }
    } else {
        None
    }
}

pub open spec fn share_latencies(lines: Seq<Seq<u8>>, key: Seq<u8>, now_ms: u64) -> Seq<i128>
    decreases lines.len(),
{
    if lines.len() == 0 {
        Seq::empty()
    } else {
        let rest = share_latencies(lines.drop_last(), key, now_ms);
        match share_line_latency(lines.last(), key, now_ms) {
            Some(x) => rest.push(x),
            None => rest,
        }
    }
}

fn share_line_latency_of(l: &[u8], key: &[u8], now_ms: u64) -> (r: Option<i128>)
    ensures
        r == share_line_latency(l@, key@, now_ms),
{
    if occurs_at_exec(l, SHARE_SERIES_PREFIX.as_bytes(), 0) && find_from(l, key, 0).is_some() {
        match second_field_of(l) {
            Some(f) => match parse_decimal_u64(f.as_slice()) {
                Some(t) => Some(latency_ms(now_ms, t)),
                None => None,
            },
            None => None,
        }
    } else {
        None
    }
}

/// The latency of every submitted-share series in `body` that mentions
/// `key`, in the order of the lines.
pub fn share_submission_latencies(body: &[u8], key: &[u8], now_ms: u64) -> (r: Vec<i128>)
    ensures
        r@ == share_latencies(text_lines(body@), key@, now_ms),
{
    let lines = text_lines_of(body);
    let ghost ls = views(lines@);
    let mut out: Vec<i128> = Vec::new();
    let mut i: usize = 0;
    while i < lines.len()
        invariant
            i <= lines@.len(),
            ls == views(lines@),
            out@ == share_latencies(ls.take(i as int), key@, now_ms),
        decreases lines@.len() - i,
    {
        assert(ls.take(i + 1).drop_last() =~= ls.take(i as int));
        assert(ls.take(i + 1).last() == lines@[i as int]@);
        match share_line_latency_of(lines[i].as_slice(), key, now_ms) {
            Some(x) => out.push(x),
            None => {},
        }
        i += 1;
    }
    assert(ls.take(i as int) =~= ls);
    out
}

// ---- mined block (line-protocol submitblock) ----

/// The nonce label value of a line, between the first quoted-nonce opening
/// and the next closing after it.
pub open spec fn quoted_nonce(l: Seq<u8>) -> Option<Seq<u8>> {
    match first_from(l, QUOTED_NONCE_OPEN.spec_bytes(), 0) {
        Some(p) => {
            let s = p + QUOTED_NONCE_OPEN.spec_bytes().len();
            match first_from(l, QUOTED_NONCE_CLOSE.spec_bytes(), s) {
                Some(e) => Some(l.subrange(s, e)),
                None => None,
            }
        },
        None => None,
    }
}

/// The line records a nonce whose byte-swapped hexadecimal form occurs in
/// the submitted block.
pub open spec fn nonce_in_block(l: Seq<u8>, block: Seq<u8>) -> bool {
    match quoted_nonce(l) {
        Some(n) => is_hex_ascii(n) && contains(block, hex_ascii(hex_decoded(n).reverse())),
        None => false,
    }
}

/// The first line, at or after `i`, whose nonce occurs in the block.
pub open spec fn first_nonce_line(lines: Seq<Seq<u8>>, block: Seq<u8>, i: int) -> Option<int>
    decreases lines.len() - i,
{
    if i < 0 || i >= lines.len() {
        None
    } else if nonce_in_block(lines[i], block) {
        Some(i)
    } else {
        first_nonce_line(lines, block, i + 1)
    }
}

pub open spec fn block_latency(metrics: Seq<u8>, block: Seq<u8>, now_ms: u64) -> Option<i128> {
    let lines = text_lines(metrics);
    match first_nonce_line(lines, block, 0) {
        Some(i) => match second_field(lines[i]) {
            Some(f) => match decimal_u64(f) {
                Some(t) => Some(latency(now_ms, t)),
                None => None,
            },
            None => None,
        },
        None => None,
    }
}

fn quoted_nonce_of(l: &[u8]) -> (r: Option<Vec<u8>>)
    ensures
        r matches Some(n) ==> quoted_nonce(l@) == Some(n@),
        r is None ==> quoted_nonce(l@) is None,
{
    let open = QUOTED_NONCE_OPEN.as_bytes();
    match find_from(l, open, 0) {
        Some(p) => {
            let s = p + open.len();
            match find_from(l, QUOTED_NONCE_CLOSE.as_bytes(), s) {
                Some(e) => Some(copy_range(l, s, e)),
                None => None,
            }
        },
        None => None,
    }
}

fn nonce_in_block_of(l: &[u8], block: &[u8]) -> (r: bool)
    ensures
        r == nonce_in_block(l@, block@),
{
    match quoted_nonce_of(l) {
        Some(n) => match byte_swapped_hex(n.as_slice()) {
            Some(swapped) => find_from(block, swapped.as_slice(), 0).is_some(),
            None => false,
        },
        None => false,
    }
}

/// The latency of the recorded share whose nonce, byte-swapped, occurs in
/// the submitted block: the first such line of `metrics` decides, and gives
/// nothing when its second field is no timestamp.
pub fn block_found_latency(metrics: &[u8], block: &[u8], now_ms: u64) -> (r: Option<i128>)
    ensures
        r == block_latency(metrics@, block@, now_ms),
{
    let lines = text_lines_of(metrics);
    let ghost ls = views(lines@);
    let mut i: usize = 0;
    while i < lines.len()
        invariant
            i <= lines@.len(),
            ls == views(lines@),
            ls == text_lines(metrics@),
            first_nonce_line(ls, block@, 0) == first_nonce_line(ls, block@, i as int),
        decreases lines@.len() - i,
    {
        if nonce_in_block_of(lines[i].as_slice(), block) {
            return match second_field_of(lines[i].as_slice()) {
                Some(f) => match parse_decimal_u64(f.as_slice()) {
                    Some(t) => Some(latency_ms(now_ms, t)),
                    None => None,
                },
                None => None,
            };
        }
        i += 1;
    }
    None
}

// ---- new jobs (line protocol, previous-block-hash flag) ----

/// One new-job latency read from a companion's metrics text.
pub struct JobLatency {
    pub latency_ms: i128,
    /// The job came with a new previous-block hash (the flag is not
    /// `same`).
    pub prevhash_changed: bool,
}

pub open spec fn flag_line_latency(l: Seq<u8>, now_ms: u64) -> Option<JobLatency> {
    match first_from(l, FLAG_LABEL.spec_bytes(), 0) {
        Some(p) => if p + 6 < l.len() {
            match last_field(l) {
                Some(f) => match decimal_u64(f) {
                    Some(t) => Some(
                        JobLatency { latency_ms: latency(now_ms, t), prevhash_changed: l[p + 6] != 115 },
                    ),
                    None => None,
                },
                None => None,
            }
        } else {
            None
        },
        None => None,
    }
}

pub open spec fn flag_latencies(lines: Seq<Seq<u8>>, now_ms: u64) -> Seq<JobLatency>
    decreases lines.len(),
{
    if lines.len() == 0 {
        Seq::empty()
    } else {
        let rest = flag_latencies(lines.drop_last(), now_ms);
        match flag_line_latency(lines.last(), now_ms) {
            Some(x) => rest.push(x),
            None => rest,
        }
    }
}

fn flag_line_latency_of(l: &[u8], now_ms: u64) -> (r: Option<JobLatency>)
    ensures
        r == flag_line_latency(l@, now_ms),
{
    match find_from(l, FLAG_LABEL.as_bytes(), 0) {
        Some(p) => if p < l.len() && 6 < l.len() - p {
            match last_field_of(l) {
                Some(f) => match parse_decimal_u64(f.as_slice()) {
                    Some(t) => Some(
                        JobLatency { latency_ms: latency_ms(now_ms, t), prevhash_changed: l[p + 6] != 115 },
                    ),
                    None => None,
                },
                None => None,
            }
        } else {
            None
        },
        None => None,
    }
}

/// Every flagged new-job latency in `body`, in the order of the lines. The
/// value sits after the last space of a line; the flag's first letter, six
/// bytes after the `flag=` label, tells a changed previous-block hash from
/// the same one (`s`).
pub fn flagged_job_latencies(body: &[u8], now_ms: u64) -> (r: Vec<JobLatency>)
    ensures
        r@ == flag_latencies(text_lines(body@), now_ms),
{
    let lines = text_lines_of(body);
    let ghost ls = views(lines@);
    let mut out: Vec<JobLatency> = Vec::new();
    let mut i: usize = 0;
    while i < lines.len()
        invariant
            i <= lines@.len(),
            ls == views(lines@),
            out@ == flag_latencies(ls.take(i as int), now_ms),
        decreases lines@.len() - i,
    {
        assert(ls.take(i + 1).drop_last() =~= ls.take(i as int));
        assert(ls.take(i + 1).last() == lines@[i as int]@);
        match flag_line_latency_of(lines[i].as_slice(), now_ms) {
            Some(x) => out.push(x),
            None => {},
        }
        i += 1;
    }
    assert(ls.take(i as int) =~= ls);
    out
}

// ---- new jobs (binary protocol, previous-block hash or template id) ----

/// One new-job latency read from a template proxy's metrics text.
pub struct TemplateLatency {
    pub latency_ms: i128,
    /// Read from a previous-block-hash series; otherwise from a template-id
    /// series.
    pub from_prevhash: bool,
}

pub open spec fn template_line_latency(l: Seq<u8>, now_ms: u64) -> Option<TemplateLatency> {
    let stamp = match last_field(l) {
        Some(f) => decimal_u64(f),
        None => None,
    };
    match first_from(l, PREVHASH_LABEL.spec_bytes(), 0) {
        Some(p) => match first_from(l, QUOTE.spec_bytes(), p + PREVHASH_LABEL.spec_bytes().len() + 1) {
            Some(_) => match stamp {
                Some(t) => Some(TemplateLatency { latency_ms: latency(now_ms, t), from_prevhash: true }),
                None => None,
            },
            None => None,
        },
        None => if contains(l, ID_LABEL.spec_bytes()) {
            match stamp {
                Some(t) => Some(TemplateLatency { latency_ms: latency(now_ms, t), from_prevhash: false }),
                None => None,
            }
        } else {
            None
        },
    }
}

pub open spec fn template_latencies(lines: Seq<Seq<u8>>, now_ms: u64) -> Seq<TemplateLatency>
    decreases lines.len(),
{
    if lines.len() == 0 {
        Seq::empty()
    } else {
        let rest = template_latencies(lines.drop_last(), now_ms);
        match template_line_latency(lines.last(), now_ms) {
            Some(x) => rest.push(x),
            None => rest,
        }
    }
}

fn stamp_of(l: &[u8]) -> (r: Option<u64>)
    ensures
        r == match last_field(l@) {
            Some(f) => decimal_u64(f),
            None => None,
        },
{
    match last_field_of(l) {
        Some(f) => parse_decimal_u64(f.as_slice()),
        None => None,
    }
}

fn template_line_latency_of(l: &[u8], now_ms: u64) -> (r: Option<TemplateLatency>)
    ensures
        r == template_line_latency(l@, now_ms),
{
    let label = PREVHASH_LABEL.as_bytes();
    match find_from(l, label, 0) {
        Some(p) => {
            let s = p + label.len();
            if s >= l.len() {
                assert(first_from(l@, QUOTE.spec_bytes(), s + 1) is None);
                return None;
            }
            match find_from(l, QUOTE.as_bytes(), s + 1) {
                Some(_) => match stamp_of(l) {
                    Some(t) => Some(TemplateLatency { latency_ms: latency_ms(now_ms, t), from_prevhash: true }),
                    None => None,
                },
                None => None,
            }
        },
        None => if find_from(l, ID_LABEL.as_bytes(), 0).is_some() {
            match stamp_of(l) {
                Some(t) => Some(TemplateLatency { latency_ms: latency_ms(now_ms, t), from_prevhash: false }),
                None => None,
            }
        } else {
            None
        },
    }
}

/// Every new-job latency in `body`, in the order of the lines: a
/// `prevhash=` series with a closing quote after its opening one, or else an
/// `id=` series; the value sits after the last space of the line.
pub fn template_job_latencies(body: &[u8], now_ms: u64) -> (r: Vec<TemplateLatency>)
    ensures
        r@ == template_latencies(text_lines(body@), now_ms),
{
    let lines = text_lines_of(body);
    let ghost ls = views(lines@);
    let mut out: Vec<TemplateLatency> = Vec::new();
    let mut i: usize = 0;
    while i < lines.len()
        invariant
            i <= lines@.len(),
            ls == views(lines@),
            out@ == template_latencies(ls.take(i as int), now_ms),
        decreases lines@.len() - i,
    {
        assert(ls.take(i + 1).drop_last() =~= ls.take(i as int));
        assert(ls.take(i + 1).last() == lines@[i as int]@);
        match template_line_latency_of(lines[i].as_slice(), now_ms) {
            Some(x) => out.push(x),
            None => {},
        }
        i += 1;
    }
    assert(ls.take(i as int) =~= ls);
    out
}

} // verus!
