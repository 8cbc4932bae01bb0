//! The node-to-pool HTTP interceptor's decisions: what a JSON-RPC request
//! asks for, and how the previous-block hash of each block template compares
//! with the one seen before.

use vstd::prelude::*;
use crate::json::{is_json, nested_str_member, nested_str_member_of, opt_view, str_member, str_member_of};
use crate::metrics::{label_view, spec_set_with_ttl, TtlGauge};
use crate::text::{chars_of, string_of_chars};

verus! {

/// How long a template's previous-block-hash timestamp stays exposed.
pub const TEMPLATE_TTL_MS: u64 = 1000;

/// What a JSON-RPC request to the node asks for, as far as the proxy cares.
#[derive(Clone, Copy, PartialEq, Eq, Structural, Debug)]
pub enum RpcKind {
    SubmitBlock,
    GetBlockTemplate,
    Other,
}

pub open spec fn spec_rpc_kind(method: Option<Seq<char>>) -> RpcKind {
    match method {
        Some(m) => if m == "submitblock"@ {
            RpcKind::SubmitBlock
        } else if m == "getblocktemplate"@ {
            RpcKind::GetBlockTemplate
        } else {
            RpcKind::Other
        },
        None => RpcKind::Other,
    }
}

/// The kind of a request whose `method` member is `method` (when that is a
/// string).
pub fn rpc_kind(method: &Option<String>) -> (r: RpcKind)
    ensures
        r == spec_rpc_kind(
            match method {
                Some(m) => Some(m@),
                None => None,
            },
        ),
{
    match method {
        Some(m) => if *m == "submitblock".to_owned() {
            RpcKind::SubmitBlock
        } else if *m == "getblocktemplate".to_owned() {
            RpcKind::GetBlockTemplate
        } else {
            RpcKind::Other
        },
        None => RpcKind::Other,
    }
}

/// The kind of a request body, by its string `method` member; a body that
/// is no JSON document is `Other`.
pub fn classify_rpc(body: &[u8]) -> (r: RpcKind)
    ensures
        r == spec_rpc_kind(str_member(body@, "method"@)),
        !is_json(body@) ==> r == RpcKind::Other,
{
    let method = str_member_of(body, "method");
    rpc_kind(&method)
}

/// The `result.previousblockhash` string of a block template answer.
pub fn template_prev_hash(body: &[u8]) -> (r: Option<String>)
    ensures
        opt_view(r) == nested_str_member(body@, "result"@, "previousblockhash"@),
        !is_json(body@) ==> r is None,
{
    nested_str_member_of(body, "result", "previousblockhash")
}

/// `s` with its two-character pairs, counted from the start, in reverse
/// order (a shorter last piece stays whole and comes first).
pub open spec fn pair_reversed(s: Seq<char>) -> Seq<char>
    decreases s.len(),
{
    if s.len() <= 2 {
        s
    } else {
        pair_reversed(s.skip(2)) + s.take(2)
    }
}

/// A hash written the other way round: its hexadecimal digit pairs in
/// reverse order, each pair as it was.
pub fn block_order_hash(hash: &str) -> (r: String)
    ensures
        r@ == pair_reversed(hash@),
{
    let chars = chars_of(hash);
    let n = chars.len();
    let mut c: usize = n / 2;
    let mut out: Vec<char> = Vec::new();
    let mut k: usize = 2 * c;
    while k < n
        invariant
            2 * c <= k <= n,
            chars@.len() == n,
            out@ == chars@.subrange(2 * c, k as int),
        decreases n - k,
    {
        out.push(chars[k]);
        assert(chars@.subrange(2 * c, k + 1) =~= chars@.subrange(2 * c, k as int).push(chars@[k as int]));
        k += 1;
    }
    assert(out@ =~= chars@.skip(2 * c));
    while c > 0
        invariant
            2 * c <= n,
            chars@.len() == n,
            out@ == pair_reversed(chars@.skip(2 * c)),
        decreases c,
    {
        let ghost before = out@;
        c -= 1;
        out.push(chars[2 * c]);
        out.push(chars[2 * c + 1]);
        proof {
            let t = chars@.skip(2 * c);
            assert(t.skip(2) =~= chars@.skip(2 * c + 2));
            assert(t.take(2) =~= seq![chars@[2 * c], chars@[2 * c + 1]]);
            if t.len() <= 2 {
                assert(t.skip(2).len() == 0);
                assert(pair_reversed(t.skip(2)) =~= Seq::<char>::empty());
                assert(t =~= t.take(2));
            }
            assert(out@ =~= before + t.take(2));
        }
    }
    assert(chars@.skip(0) =~= chars@);
    string_of_chars(&out)
}

/// How a template's previous-block hash compares with the last one seen.
#[derive(Clone, Copy, PartialEq, Eq, Structural, Debug)]
pub enum PrevHashFlag {
    Same,
    Different,
}

impl PrevHashFlag {
    pub open spec fn spec_label(self) -> Seq<char> {
        match self {
            PrevHashFlag::Same => "same"@,
            PrevHashFlag::Different => "different"@,
        }
    }

    /// The label value: `same` or `different`.
    pub fn label(&self) -> (r: String)
        ensures
            r@ == self.spec_label(),
    {
        match self {
            PrevHashFlag::Same => "same".to_owned(),
            PrevHashFlag::Different => "different".to_owned(),
        }
    }
}

/// The last previous-block hash seen, shared by all requests.
pub struct PrevHashTracker {
    last: Option<String>,
}

impl PrevHashTracker {
    pub closed spec fn last(&self) -> Option<Seq<char>> {
        match self.last {
            Some(s) => Some(s@),
            None => None,
        }
    }

    pub fn new() -> (r: PrevHashTracker)
        ensures
            r.last() is None,
    {
        PrevHashTracker { last: None }
    }

    /// Compares `hash` with the last hash seen (the first one counts as the
    /// same) and remembers it.
    pub fn observe(&mut self, hash: String) -> (r: PrevHashFlag)
        ensures
            r == match old(self).last() {
                Some(p) => if p == hash@ {
                    PrevHashFlag::Same
                } else {
                    PrevHashFlag::Different
                },
                None => PrevHashFlag::Same,
            },
            final(self).last() == Some(hash@),
    {
        let flag = match &self.last {
            Some(p) => if *p == hash {
                PrevHashFlag::Same
            } else {
                PrevHashFlag::Different
            },
            None => PrevHashFlag::Same,
        };
        self.last = Some(hash);
        flag
    }
}

/// Records the previous-block hash of a block template answer: the hash in
/// block order and its flag label the timestamp `now_ms`, which expires
/// after `TEMPLATE_TTL_MS`. Returns the label tuple, or `None` (and changes
/// nothing) when the answer holds no string `result.previousblockhash`.
pub fn record_template(
    tracker: &mut PrevHashTracker,
    gauge: &mut TtlGauge,
    answer: &[u8],
    now_ms: u64,
) -> (r: Option<Vec<String>>)
    requires
        old(gauge).wf(),
        now_ms + TEMPLATE_TTL_MS <= u64::MAX,
    ensures
        final(gauge).wf(),
        r is Some <==> nested_str_member(answer@, "result"@, "previousblockhash"@) is Some,
        r is None ==> *final(gauge) == *old(gauge) && *final(tracker) == *old(tracker),
        r matches Some(labels) ==> {
            let hash = pair_reversed(nested_str_member(answer@, "result"@, "previousblockhash"@)->0);
            &&& labels@.len() == 2
            &&& labels@[0]@ == hash
            &&& final(tracker).last() == Some(hash)
            &&& labels@[1]@ == (match old(tracker).last() {
                Some(p) => if p == hash {
                    PrevHashFlag::Same
                } else {
                    PrevHashFlag::Different
                },
                None => PrevHashFlag::Same,
            }).spec_label()
            &&& final(gauge)@ == spec_set_with_ttl(
                old(gauge)@,
                label_view(labels@),
                now_ms,
                now_ms,
                TEMPLATE_TTL_MS,
            )
        },
{
    let raw = match template_prev_hash(answer) {
        Some(h) => h,
        None => return None,
    };
    let hash = block_order_hash(raw.as_str());
    let flag = tracker.observe(hash.clone());
    let mut labels: Vec<String> = Vec::new();
    labels.push(hash);
    labels.push(flag.label());
    let mut kept: Vec<String> = Vec::new();
    kept.push(labels[0].clone());
    kept.push(labels[1].clone());
    assert(label_view(kept@) =~= label_view(labels@));
    gauge.set_with_ttl(kept, now_ms, now_ms, TEMPLATE_TTL_MS);
    Some(labels)
}

} // verus!
