//! The block reward resolver: the explorer endpoints to ask, what their
//! answers must hold, and the bounded retry around them.

use vstd::prelude::*;
use vstd::string::{StringExecFns, StringSliceAdditionalSpecFns};
use crate::json::{
    is_json, json_parses, opt_view, query_sample_text, query_sample_text_of, str_member,
    str_member_of, u64_member, u64_member_of,
};
use vstd::utf8::encode_utf8;
use crate::scan::{decimal_u64, parse_decimal_u64};

verus! {

/// How many times the resolver asks before it gives up.
pub const MAX_REWARD_ATTEMPTS: usize = 24;

/// The pause between two attempts, in milliseconds.
pub const REWARD_RETRY_DELAY_MS: u64 = 5000;

/// The network whose explorer is asked.
#[derive(Clone, Copy, PartialEq, Eq, Structural, Debug)]
pub enum Network {
    Mainnet,
    Testnet3,
    Testnet4,
}

pub open spec fn spec_network(name: Seq<char>) -> Option<Network> {
    if name == ""@ {
        Some(Network::Mainnet)
    } else if name == "testnet3"@ {
        Some(Network::Testnet3)
    } else if name == "testnet4"@ {
        Some(Network::Testnet4)
    } else {
        None
    }
}

/// The network that a selector names: empty for the main network,
/// `testnet3` or `testnet4`; `None` for anything else.
pub fn parse_network(name: &str) -> (r: Option<Network>)
    ensures
        r == spec_network(name@),
{
    let n = name.to_owned();
    if n == "".to_owned() {
        Some(Network::Mainnet)
    } else if n == "testnet3".to_owned() {
        Some(Network::Testnet3)
    } else if n == "testnet4".to_owned() {
        Some(Network::Testnet4)
    } else {
        None
    }
}

pub open spec fn api_base(n: Network) -> Seq<char> {
    match n {
        Network::Mainnet => "https://mempool.space/api"@,
        Network::Testnet3 => "https://mempool.space/testnet/api"@,
        Network::Testnet4 => "https://mempool.space/testnet4/api"@,
    }
}

fn api_base_of(n: Network) -> (r: String)
    ensures
        r@ == api_base(n),
{
    match n {
        Network::Mainnet => String::from_str("https://mempool.space/api"),
        Network::Testnet3 => String::from_str("https://mempool.space/testnet/api"),
        Network::Testnet4 => String::from_str("https://mempool.space/testnet4/api"),
    }
}

/// The explorer endpoint that describes a block.
pub fn block_url(n: Network, hash: &str) -> (r: String)
    ensures
        r@ == api_base(n) + "/block/"@ + hash@,
{
    let mut url = api_base_of(n);
    url.append("/block/");
    url.append(hash);
    url
}

/// The explorer endpoint for the reward statistics of the latest block.
pub fn reward_stats_url(n: Network) -> (r: String)
    ensures
        r@ == api_base(n) + "/v1/mining/reward-stats/1"@,
{
    let mut url = api_base_of(n);
    url.append("/v1/mining/reward-stats/1");
    url
}

/// Why one attempt to resolve a reward failed.
#[derive(Clone, Copy, PartialEq, Eq, Structural, Debug)]
pub enum RewardError {
    /// The network selector names no known network.
    UnknownNetwork,
    /// An answer could not be fetched.
    Transport,
    /// An answer is no JSON document.
    NotJson,
    /// The block answer has no integer `height`.
    MissingHeight,
    /// The statistics answer lacks an integer `startBlock` or `endBlock`.
    MissingWindow,
    /// The statistics cover more than the block, or another block.
    HeightMismatch,
    /// The statistics' `totalReward` is no decimal amount.
    BadTotal,
}

/// The block height in an explorer's block answer: its `height` member.
pub fn read_height(body: &[u8]) -> (r: Result<u64, RewardError>)
    ensures
        r == if !is_json(body@) {
            Err(RewardError::NotJson)
        } else {
            match u64_member(body@, "height"@) {
                Some(h) => Ok(h),
                None => Err(RewardError::MissingHeight),
            }
        },
{
    if !json_parses(body) {
        return Err(RewardError::NotJson);
    }
    match u64_member_of(body, "height") {
        Some(h) => Ok(h),
        None => Err(RewardError::MissingHeight),
    }
}

/// What a reward-statistics answer says: the first and last block it
/// covers, and its total reward when that is a string.
pub struct RewardWindow {
    pub start_block: u64,
    pub end_block: u64,
    pub total_reward: Option<String>,
}

/// The window of a reward-statistics answer: its `startBlock`, `endBlock`
/// and `totalReward` members.
pub fn read_reward_window(body: &[u8]) -> (r: Result<RewardWindow, RewardError>)
    ensures
        !is_json(body@) ==> r matches Err(RewardError::NotJson),
        is_json(body@) ==> (r is Ok <==> (u64_member(body@, "startBlock"@) is Some && u64_member(
            body@,
            "endBlock"@,
        ) is Some)),
        is_json(body@) && !(r is Ok) ==> r matches Err(RewardError::MissingWindow),
        r matches Ok(w) ==> {
            &&& Some(w.start_block) == u64_member(body@, "startBlock"@)
            &&& Some(w.end_block) == u64_member(body@, "endBlock"@)
            &&& opt_view(w.total_reward) == str_member(body@, "totalReward"@)
        },
{
    if !json_parses(body) {
        return Err(RewardError::NotJson);
    }
    let start_block = match u64_member_of(body, "startBlock") {
        Some(x) => x,
        None => return Err(RewardError::MissingWindow),
    };
    let end_block = match u64_member_of(body, "endBlock") {
        Some(x) => x,
        None => return Err(RewardError::MissingWindow),
    };
    let total_reward = str_member_of(body, "totalReward");
    Ok(RewardWindow { start_block, end_block, total_reward })
}

pub open spec fn spec_settle_reward(height: u64, w: RewardWindow) -> Result<u64, RewardError> {
    if w.start_block == w.end_block && w.end_block == height {
        match w.total_reward {
            Some(t) => match decimal_u64(encode_utf8(t@)) {
                Some(v) => Ok(v),
                None => Err(RewardError::BadTotal),
            },
            None => Err(RewardError::BadTotal),
        }
    } else {
        Err(RewardError::HeightMismatch)
    }
}

/// The reward of the block at `height`, when the statistics cover exactly
/// that one block.
pub fn settle_reward(height: u64, window: &RewardWindow) -> (r: Result<u64, RewardError>)
    ensures
        r == spec_settle_reward(height, *window),
{
    if window.start_block == window.end_block && window.end_block == height {
        match &window.total_reward {
            Some(t) => match parse_decimal_u64(t.as_str().as_bytes()) {
                Some(v) => Ok(v),
                None => Err(RewardError::BadTotal),
            },
            None => Err(RewardError::BadTotal),
        }
    } else {
        Err(RewardError::HeightMismatch)
    }
}

/// What the resolver does after an attempt.
#[derive(Clone, Copy, PartialEq, Eq, Structural, Debug)]
pub enum Resolution {
    /// The reward is known.
    Resolved(u64),
    /// Wait this many milliseconds, then attempt again.
    RetryAfter(u64),
    /// The last attempt failed: give up.
    Exhausted,
}

pub open spec fn spec_resolution(attempts_before: nat, result: Result<u64, RewardError>) -> Resolution {
    match result {
        Ok(v) => Resolution::Resolved(v),
        Err(_) => if attempts_before + 1 < MAX_REWARD_ATTEMPTS {
            Resolution::RetryAfter(REWARD_RETRY_DELAY_MS)
        } else {
            Resolution::Exhausted
        },
    }
}

/// The retry state of one reward resolution: how many attempts were made.
pub struct RewardResolver {
    attempts: usize,
}

impl RewardResolver {
    pub closed spec fn attempts(&self) -> nat {
        self.attempts as nat
    }

    pub fn new() -> (r: RewardResolver)
        ensures
            r.attempts() == 0,
    {
        RewardResolver { attempts: 0 }
    }

    /// Whether another attempt is still allowed.
    pub fn may_attempt(&self) -> (r: bool)
        ensures
            r == (self.attempts() < MAX_REWARD_ATTEMPTS),
    {
        self.attempts < MAX_REWARD_ATTEMPTS
    }

    /// Records the outcome of one attempt and says what comes next.
    pub fn on_attempt(&mut self, result: Result<u64, RewardError>) -> (r: Resolution)
        requires
            old(self).attempts() < MAX_REWARD_ATTEMPTS,
        ensures
            r == spec_resolution(old(self).attempts(), result),
            final(self).attempts() == old(self).attempts() + 1,
    {
        self.attempts = self.attempts + 1;
        match result {
            Ok(v) => Resolution::Resolved(v),
            Err(_) => if self.attempts < MAX_REWARD_ATTEMPTS {
                Resolution::RetryAfter(REWARD_RETRY_DELAY_MS)
            } else {
                Resolution::Exhausted
            },
        }
    }
}

/// A run of failed attempts: the resolver waits the fixed delay after each
/// failure but the last allowed one, gives up at that one, and never
/// reports a reward.
pub proof fn lemma_resolver_gives_up(results: Seq<Result<u64, RewardError>>)
    requires
        results.len() == MAX_REWARD_ATTEMPTS,
        forall|i: int| 0 <= i < results.len() ==> (#[trigger] results[i]) is Err,
    ensures
        forall|i: int|
            0 <= i < MAX_REWARD_ATTEMPTS - 1 ==> spec_resolution(i as nat, #[trigger] results[i])
                == Resolution::RetryAfter(REWARD_RETRY_DELAY_MS),
        spec_resolution((MAX_REWARD_ATTEMPTS - 1) as nat, results[MAX_REWARD_ATTEMPTS - 1])
            == Resolution::Exhausted,
        forall|i: int|
            0 <= i < MAX_REWARD_ATTEMPTS ==> !(spec_resolution(i as nat, #[trigger] results[i]) is Resolved),
{
}

/// The value of the first sample of a metrics query answer
/// (`data.result[0].value[1]`, a decimal string).
pub fn template_value_from_query(body: &[u8]) -> (r: Option<u64>)
    ensures
        r == match query_sample_text(body@) {
            Some(t) => decimal_u64(encode_utf8(t)),
            None => None,
        },
{
    match query_sample_text_of(body) {
        Some(text) => parse_decimal_u64(text.as_str().as_bytes()),
        None => None,
    }
}

} // verus!
