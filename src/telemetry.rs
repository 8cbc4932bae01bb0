//! What each observed protocol event records: the timestamp gauges that a
//! companion proxy scrapes, and the keys they are found by.

use vstd::prelude::*;
use std::collections::VecDeque;
use crate::correlate::{share_latencies, share_submission_latencies};
use crate::hexcodec::{encode_hex, hex_ascii, hex_ascii_of, reversed_bytes};
use crate::metrics::{
    label_view, lemma_fire_untouched, lemma_ttl_set_then_query, no_expiry_for, spec_advance, spec_get,
    spec_set_with_ttl, GaugeState, Labels, TtlGauge,
};
use crate::scan::text_lines;
use crate::text::{ascii_chars, decimal_ascii, decimal_ascii_of, decimal_text, string_of_ascii};

verus! {

/// How long a submitted share's timestamp stays exposed.
pub const SHARE_TTL_MS: u64 = 10000;

/// How long a new job's or new previous-block hash's timestamp stays
/// exposed.
pub const JOB_TTL_MS: u64 = 1000;

fn one_label(s: String) -> (r: Vec<String>)
    ensures
        label_view(r@) == seq![s@],
{
    let mut v: Vec<String> = Vec::new();
    v.push(s);
    assert(label_view(v@) =~= seq![s@]);
    v
}

/// Sets the one-label tuple `label` to `now_ms` with a time to live, and
/// returns the tuple.
fn record_one(gauge: &mut TtlGauge, label: String, now_ms: u64, ttl_ms: u64) -> (labels: Vec<String>)
    requires
        old(gauge).wf(),
        now_ms + ttl_ms <= u64::MAX,
    ensures
        final(gauge).wf(),
        label_view(labels@) == seq![label@],
        final(gauge)@ == spec_set_with_ttl(old(gauge)@, seq![label@], now_ms, now_ms, ttl_ms),
{
    let kept = label.clone();
    gauge.set_with_ttl(one_label(label), now_ms, now_ms, ttl_ms);
    one_label(kept)
}

/// A submitted share: its nonce text labels the timestamp `now_ms`, which
/// expires after `SHARE_TTL_MS`.
pub fn record_share(gauge: &mut TtlGauge, nonce: String, now_ms: u64) -> (labels: Vec<String>)
    requires
        old(gauge).wf(),
        now_ms + SHARE_TTL_MS <= u64::MAX,
    ensures
        final(gauge).wf(),
        label_view(labels@) == seq![nonce@],
        final(gauge)@ == spec_set_with_ttl(old(gauge)@, seq![nonce@], now_ms, now_ms, SHARE_TTL_MS),
{
    record_one(gauge, nonce, now_ms, SHARE_TTL_MS)
}

/// A submitted share's timestamp: after `record_share` at `now_ms`, the
/// nonce's series reads `now_ms` until `SHARE_TTL_MS` have passed and is
/// absent from then on, and no other label tuple that had no removal
/// scheduled is set or removed.
pub proof fn lemma_share_timestamp_lifetime(
    g: GaugeState,
    nonce: Seq<char>,
    now_ms: u64,
    t: u64,
    other: Labels,
)
    requires
        no_expiry_for(g.expiries, seq![nonce]),
        no_expiry_for(g.expiries, other),
        other != seq![nonce],
        now_ms + SHARE_TTL_MS <= u64::MAX,
    ensures
        ({
            let after = spec_advance(spec_set_with_ttl(g, seq![nonce], now_ms, now_ms, SHARE_TTL_MS), t);
            &&& t < now_ms + SHARE_TTL_MS ==> spec_get(after, seq![nonce]) == Some(now_ms)
            &&& t >= now_ms + SHARE_TTL_MS ==> spec_get(after, seq![nonce]) is None
            &&& spec_get(after, other) == spec_get(g, other)
        }),
{
    lemma_ttl_set_then_query(g, seq![nonce], now_ms, now_ms, SHARE_TTL_MS, t);
    let g1 = spec_set_with_ttl(g, seq![nonce], now_ms, now_ms, SHARE_TTL_MS);
    assert(no_expiry_for(g1.expiries, other)) by {
        assert forall|i: int| 0 <= i < g1.expiries.len() implies (#[trigger] g1.expiries[i]).0
            != other by {
            if i < g.expiries.len() {
                assert(g1.expiries[i] == g.expiries[i]);
            }
        }
    }
    lemma_fire_untouched(g1.series, g1.expiries, t, other);
}

/// An extended share of the binary protocol: its nonce in decimal labels
/// the timestamp `now_ms`, which expires after `SHARE_TTL_MS`.
pub fn record_extended_share(gauge: &mut TtlGauge, nonce: u32, now_ms: u64) -> (labels: Vec<String>)
    requires
        old(gauge).wf(),
        now_ms + SHARE_TTL_MS <= u64::MAX,
    ensures
        final(gauge).wf(),
        label_view(labels@) == seq![ascii_chars(decimal_ascii(nonce as nat))],
        final(gauge)@ == spec_set_with_ttl(
            old(gauge)@,
            seq![ascii_chars(decimal_ascii(nonce as nat))],
            now_ms,
            now_ms,
            SHARE_TTL_MS,
        ),
{
    record_one(gauge, decimal_text(nonce as u64), now_ms, SHARE_TTL_MS)
}

/// A new template: its id in decimal labels the timestamp `now_ms`, which
/// expires after `JOB_TTL_MS`.
pub fn record_new_template(gauge: &mut TtlGauge, template_id: u64, now_ms: u64) -> (labels: Vec<String>)
    requires
        old(gauge).wf(),
        now_ms + JOB_TTL_MS <= u64::MAX,
    ensures
        final(gauge).wf(),
        label_view(labels@) == seq![ascii_chars(decimal_ascii(template_id as nat))],
        final(gauge)@ == spec_set_with_ttl(
            old(gauge)@,
            seq![ascii_chars(decimal_ascii(template_id as nat))],
            now_ms,
            now_ms,
            JOB_TTL_MS,
        ),
{
    record_one(gauge, decimal_text(template_id), now_ms, JOB_TTL_MS)
}

/// A new previous-block hash: its hexadecimal text labels the timestamp
/// `now_ms`, which expires after `JOB_TTL_MS`. Returns the hash in block
/// order (bytes reversed), as block explorers write it, after the label
/// tuple.
pub fn record_new_prev_hash(gauge: &mut TtlGauge, prev_hash: &[u8], now_ms: u64) -> (r: (
    Vec<String>,
    String,
))
    requires
        old(gauge).wf(),
        now_ms + JOB_TTL_MS <= u64::MAX,
    ensures
        final(gauge).wf(),
        final(gauge)@ == spec_set_with_ttl(
            old(gauge)@,
            seq![ascii_chars(hex_ascii(prev_hash@))],
            now_ms,
            now_ms,
            JOB_TTL_MS,
        ),
        label_view(r.0@) == seq![ascii_chars(hex_ascii(prev_hash@))],
        r.1@ == ascii_chars(hex_ascii(prev_hash@.reverse())),
{
    let labels = record_one(gauge, encode_hex(prev_hash), now_ms, JOB_TTL_MS);
    let reversed = reversed_bytes(prev_hash);
    let digits = hex_ascii_of(reversed.as_slice());
    (labels, string_of_ascii(&digits))
}

/// The latency of a found block: the first submitted-share series of a
/// companion's metrics text whose nonce label holds the solution's header
/// nonce in decimal and whose value is a timestamp. `None` when there is
/// none.
pub fn solution_latency(metrics: &[u8], header_nonce: u32, now_ms: u64) -> (r: Option<i128>)
    ensures
        ({
            let all = share_latencies(text_lines(metrics@), decimal_ascii(header_nonce as nat), now_ms);
            r == if all.len() > 0 {
                Some(all[0])
            } else {
                None
            }
        }),
{
    let key = decimal_ascii_of(header_nonce as u64);
    let all = share_submission_latencies(metrics, key.as_slice(), now_ms);
    if all.len() > 0 {
        Some(all[0])
    } else {
        None
    }
}

/// The times at which new previous-block hashes were announced upstream,
/// oldest first, each waiting for the job notification that follows it.
pub struct NotifyTimers {
    started: VecDeque<u64>,
}

impl NotifyTimers {
    pub closed spec fn pending(&self) -> Seq<u64> {
        self.started@
    }

    pub fn new() -> (r: NotifyTimers)
        ensures
            r.pending() == Seq::<u64>::empty(),
    {
        NotifyTimers { started: VecDeque::new() }
    }

    /// A new previous-block hash was announced at `now_ms`.
    pub fn start(&mut self, now_ms: u64)
        ensures
            final(self).pending() == old(self).pending().push(now_ms),
    {
        self.started.push_back(now_ms);
    }

    /// A job notification reached the miner at `now_ms`: the oldest waiting
    /// announcement is matched with it, and the time between them returned
    /// (zero if the clock went back). `None` when nothing waits.
    pub fn on_notify(&mut self, now_ms: u64) -> (r: Option<u64>)
        ensures
            old(self).pending().len() == 0 ==> r is None && final(self).pending() == old(
                self,
            ).pending(),
            old(self).pending().len() > 0 ==> {
                &&& r == Some(
                    if now_ms >= old(self).pending()[0] {
                        (now_ms - old(self).pending()[0]) as u64
                    } else {
                        0
                    },
                )
                &&& final(self).pending() == old(self).pending().drop_first()
            },
    {
        match self.started.pop_front() {
            Some(t) => Some(now_ms.saturating_sub(t)),
            None => None,
        }
    }
}

} // verus!
