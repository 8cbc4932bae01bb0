use mining_proxy::metrics::TtlGauge;
use mining_proxy::reward::{
    block_url, parse_network, read_height, read_reward_window,
    reward_stats_url, settle_reward, template_value_from_query, Network, Resolution, RewardError,
    RewardResolver, RewardWindow, MAX_REWARD_ATTEMPTS, REWARD_RETRY_DELAY_MS,
};
use mining_proxy::rpc::{block_order_hash, classify_rpc, record_template, PrevHashFlag, PrevHashTracker, RpcKind};
use mining_proxy::telemetry::{
    record_extended_share, record_new_prev_hash, record_new_template, solution_latency, NotifyTimers,
};

#[test]
fn resolver_gives_up_after_bounded_attempts() {
    let mut r = RewardResolver::new();
    let mut steps = Vec::new();
    while r.may_attempt() {
        steps.push(r.on_attempt(Err(RewardError::HeightMismatch)));
    }
    assert_eq!(steps.len(), 24);
    assert_eq!(MAX_REWARD_ATTEMPTS, 24);
    for s in &steps[..23] {
        assert_eq!(*s, Resolution::RetryAfter(5000));
    }
    assert_eq!(steps[23], Resolution::Exhausted);
    assert_eq!(REWARD_RETRY_DELAY_MS, 5000);
}

#[test]
fn resolver_stops_at_first_success() {
    let mut r = RewardResolver::new();
    assert_eq!(r.on_attempt(Err(RewardError::Transport)), Resolution::RetryAfter(5000));
    assert_eq!(r.on_attempt(Ok(312500000)), Resolution::Resolved(312500000));
}

#[test]
fn reward_window_must_be_the_block() {
    let w = RewardWindow { start_block: 10, end_block: 10, total_reward: Some("625000".to_string()) };
    assert_eq!(settle_reward(10, &w), Ok(625000));
    assert_eq!(settle_reward(11, &w), Err(RewardError::HeightMismatch));
    let wide = RewardWindow { start_block: 9, end_block: 10, total_reward: Some("1".to_string()) };
    assert_eq!(settle_reward(10, &wide), Err(RewardError::HeightMismatch));
    let bad = RewardWindow { start_block: 10, end_block: 10, total_reward: Some("x".to_string()) };
    assert_eq!(settle_reward(10, &bad), Err(RewardError::BadTotal));
    let plus = RewardWindow { start_block: 10, end_block: 10, total_reward: Some("+42".to_string()) };
    assert_eq!(settle_reward(10, &plus), Ok(42));
    let none = RewardWindow { start_block: 10, end_block: 10, total_reward: None };
    assert_eq!(settle_reward(10, &none), Err(RewardError::BadTotal));
}

#[test]
fn reading_explorer_answers() {
    assert_eq!(read_height(b"{\"height\":840000,\"id\":\"x\"}"), Ok(840000));
    assert_eq!(read_height(b"{\"id\":\"x\"}"), Err(RewardError::MissingHeight));
    assert_eq!(read_height(b"<html>"), Err(RewardError::NotJson));
    let stats = b"{\"startBlock\":840000,\"endBlock\":840000,\"totalReward\":\"312500000\"}";
    let w = read_reward_window(stats).unwrap();
    assert_eq!((w.start_block, w.end_block), (840000, 840000));
    assert_eq!(w.total_reward, Some("312500000".to_string()));
    assert!(matches!(read_reward_window(b"{\"startBlock\":1}"), Err(RewardError::MissingWindow)));
    assert!(matches!(read_reward_window(b"{\"startBlock\":1,\"endBlock\":-2}"), Err(RewardError::MissingWindow)));
    assert!(matches!(read_reward_window(b"[1"), Err(RewardError::NotJson)));
    let no_total = read_reward_window(b"{\"startBlock\":3,\"endBlock\":4,\"totalReward\":5}").unwrap();
    assert_eq!((no_total.start_block, no_total.end_block, no_total.total_reward), (3, 4, None));
    assert_eq!(read_height(b"{\"height\":\"7\"}"), Err(RewardError::MissingHeight));
    let h = read_height(b"{\"height\":840000}").unwrap();
    assert_eq!(settle_reward(h, &w), Ok(312500000));
    assert_eq!(settle_reward(h + 1, &w), Err(RewardError::HeightMismatch));
}

#[test]
fn explorer_urls_per_network() {
    assert_eq!(parse_network(""), Some(Network::Mainnet));
    assert_eq!(parse_network("testnet4"), Some(Network::Testnet4));
    assert_eq!(parse_network("regtest"), None);
    assert_eq!(block_url(Network::Mainnet, "00ab"), "https://mempool.space/api/block/00ab");
    assert_eq!(block_url(Network::Testnet3, "ff"), "https://mempool.space/testnet/api/block/ff");
    assert_eq!(
        reward_stats_url(Network::Testnet4),
        "https://mempool.space/testnet4/api/v1/mining/reward-stats/1"
    );
}

#[test]
fn template_value_from_metrics_query() {
    let body = b"{\"status\":\"success\",\"data\":{\"resultType\":\"vector\",\"result\":[{\"metric\":{},\"value\":[1700000000.1,\"312500000\"]}]}}";
    assert_eq!(template_value_from_query(body), Some(312500000));
    assert_eq!(template_value_from_query(b"{\"data\":{\"result\":[]}}"), None);
    assert_eq!(template_value_from_query(b"{\"data\":{\"result\":[{\"value\":[1,\"12.5\"]}]}}"), None);
    assert_eq!(template_value_from_query(b"{\"data\":{\"result\":[{\"value\":[1,\"+8\"]}]}}"), Some(8));
    assert_eq!(template_value_from_query(b"nope"), None);
}

#[test]
fn rpc_methods_are_classified() {
    assert_eq!(classify_rpc(b"{\"method\":\"submitblock\",\"params\":[\"00\"]}"), RpcKind::SubmitBlock);
    assert_eq!(classify_rpc(b"{\"method\":\"getblocktemplate\"}"), RpcKind::GetBlockTemplate);
    assert_eq!(classify_rpc(b"{\"method\":\"getblockcount\"}"), RpcKind::Other);
    assert_eq!(classify_rpc(b"not json"), RpcKind::Other);
    assert_eq!(classify_rpc(b"{\"method\":[\"submitblock\"]}"), RpcKind::Other);
    assert_eq!(classify_rpc(b"{\"params\":[]}"), RpcKind::Other);
}

#[test]
fn template_prevhash_flags() {
    let mut tracker = PrevHashTracker::new();
    let mut gauge = TtlGauge::new();
    let a = b"{\"result\":{\"previousblockhash\":\"00112233\"}}";
    let b = b"{\"result\":{\"previousblockhash\":\"44556677\"}}";
    let first = record_template(&mut tracker, &mut gauge, a, 1000).unwrap();
    assert_eq!(first, vec!["33221100".to_string(), "same".to_string()]);
    assert_eq!(gauge.get(&first), Some(1000));
    let second = record_template(&mut tracker, &mut gauge, a, 1100).unwrap();
    assert_eq!(second[1], "same");
    let third = record_template(&mut tracker, &mut gauge, b, 1200).unwrap();
    assert_eq!(third, vec!["77665544".to_string(), "different".to_string()]);
    assert!(record_template(&mut tracker, &mut gauge, b"{\"result\":{}}", 1300).is_none());
    assert!(record_template(&mut tracker, &mut gauge, b"{\"result\":{\"previousblockhash\":7}}", 1300).is_none());
    let odd = record_template(&mut tracker, &mut gauge, b"{\"result\":{\"previousblockhash\":\"0A1bz\"}}", 1300).unwrap();
    assert_eq!(odd, vec!["z1b0A".to_string(), "different".to_string()]);
    assert!(record_template(&mut tracker, &mut gauge, b"xx", 1300).is_none());
    gauge.advance(2200);
    assert_eq!(gauge.get(&third), None);
    let mut t = PrevHashTracker::new();
    assert_eq!(t.observe("x".to_string()), PrevHashFlag::Same);
    assert_eq!(t.observe("y".to_string()), PrevHashFlag::Different);
    assert_eq!(block_order_hash("0a0b"), "0b0a");
    assert_eq!(block_order_hash("0a1b"), "1b0a");
    assert_eq!(block_order_hash("ABcd"), "cdAB");
    assert_eq!(block_order_hash("abc"), "cab");
    assert_eq!(block_order_hash(""), "");
}

#[test]
fn binary_protocol_events_label_their_timestamps() {
    let mut g = TtlGauge::new();
    assert_eq!(record_extended_share(&mut g, 4027316975, 50), vec!["4027316975".to_string()]);
    assert_eq!(g.get(&vec!["4027316975".to_string()]), Some(50));
    assert_eq!(record_new_template(&mut g, 0, 60), vec!["0".to_string()]);
    assert_eq!(g.get(&vec!["0".to_string()]), Some(60));
    let (labels, block) = record_new_prev_hash(&mut g, &[0x01, 0x02, 0xff], 70);
    assert_eq!(labels, vec!["0102ff".to_string()]);
    assert_eq!(block, "ff0201");
    assert_eq!(g.get(&vec!["0102ff".to_string()]), Some(70));
    g.advance(1069);
    assert_eq!(g.get(&vec!["0102ff".to_string()]), Some(70));
    g.advance(1070);
    assert_eq!(g.get(&vec!["0102ff".to_string()]), None);
    assert_eq!(g.get(&vec!["4027316975".to_string()]), Some(50));
}

#[test]
fn solution_matches_decimal_nonce_series() {
    let body = b"share_submission_timestamp{nonce=\"4027316975\"} 1000\n";
    assert_eq!(solution_latency(body, 4027316975, 1800), Some(800));
    assert_eq!(solution_latency(body, 8, 1800), None);
    let twice = b"share_submission_timestamp{nonce=\"4027316975\"} bad\n\
share_submission_timestamp{nonce=\"4027316975\"} 1000\n\
share_submission_timestamp{nonce=\"4027316975\"} 1500\n";
    assert_eq!(solution_latency(twice, 4027316975, 1800), Some(800));
}

#[test]
fn notify_timers_pair_oldest_first() {
    let mut t = NotifyTimers::new();
    assert_eq!(t.on_notify(5), None);
    t.start(100);
    t.start(150);
    assert_eq!(t.on_notify(180), Some(80));
    assert_eq!(t.on_notify(140), Some(0));
    assert_eq!(t.on_notify(200), None);
}
