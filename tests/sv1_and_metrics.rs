use mining_proxy::metrics::TtlGauge;
use mining_proxy::sv1::{
    client_event, decode_sv1_line, server_event, ClientEvent, ShareOutcome, Sv1Relay,
};
use mining_proxy::telemetry::{record_share, SHARE_TTL_MS};

fn labels(v: &[&str]) -> Vec<String> {
    v.iter().map(|s| s.to_string()).collect()
}

#[test]
fn submit_counts_once_and_records_nonce_with_ttl() {
    let mut relay = Sv1Relay::new();
    let line = b"{\"id\":1,\"method\":\"mining.submit\",\"params\":[\"w\",\"j\",\"00\",\"5f\",\"deadbeef\"]}\n";
    let frames = relay.on_client_read(line);
    assert_eq!(frames.len(), 1);
    assert_eq!(frames[0].bytes, line.to_vec());
    let submits: Vec<&Option<String>> = frames
        .iter()
        .filter_map(|f| match &f.event {
            Some(ClientEvent::ShareSubmitted { nonce }) => Some(nonce),
            _ => None,
        })
        .collect();
    assert_eq!(submits.len(), 1);
    let nonce = submits[0].clone().unwrap();
    assert_eq!(nonce, "\"deadbeef\"");

    let now = 1_700_000_000_000u64;
    let mut gauge = TtlGauge::new();
    assert_eq!(record_share(&mut gauge, nonce.clone(), now), labels(&["\"deadbeef\""]));
    assert_eq!(gauge.get(&labels(&["\"deadbeef\""])), Some(now));
    assert!(gauge.advance(now + SHARE_TTL_MS - 1).is_empty());
    assert_eq!(gauge.get(&labels(&["\"deadbeef\""])), Some(now));
    let removed = gauge.advance(now + 10_000);
    assert_eq!(removed, vec![labels(&["\"deadbeef\""])]);
    assert_eq!(gauge.get(&labels(&["\"deadbeef\""])), None);
}

#[test]
fn submit_without_nonce_still_counts() {
    let m = decode_sv1_line(b"{\"id\":4,\"method\":\"mining.submit\",\"params\":[\"w\"]}\n").unwrap();
    assert!(matches!(client_event(&m), ClientEvent::ShareSubmitted { nonce: None }));
    let other = decode_sv1_line(b"{\"id\":5,\"method\":\"mining.authorize\"}").unwrap();
    assert!(matches!(client_event(&other), ClientEvent::Other));
}

#[test]
fn first_result_is_subscription_then_valid_then_stale() {
    let mut relay = Sv1Relay::new();
    let frames = relay.on_server_read(
        b"{\"id\":1,\"result\":true}\n{\"id\":2,\"result\":true}\n{\"id\":3,\"error\":[\"x\"]}\n",
    );
    let outcomes: Vec<ShareOutcome> =
        frames.into_iter().map(|f| f.event.unwrap().share).collect();
    assert!(matches!(
        outcomes.as_slice(),
        [ShareOutcome::SubscribeAck, ShareOutcome::Accepted, ShareOutcome::Rejected]
    ));
}

#[test]
fn undecodable_line_is_forwarded_without_event() {
    let mut relay = Sv1Relay::new();
    let frames = relay.on_server_read(b"garbage\n{\"method\":\"mining.notify\",\"params\":[\"j\",\"ph\"]}\n");
    assert_eq!(frames.len(), 2);
    assert_eq!(frames[0].bytes, b"garbage\n".to_vec());
    assert!(frames[0].event.is_none());
    let e = frames[1].event.as_ref().unwrap();
    assert!(e.notify && e.notify_with_prevhash);
    assert!(matches!(e.share, ShareOutcome::Neither));
}

#[test]
fn relay_hands_on_trailing_bytes_at_end() {
    let mut relay = Sv1Relay::new();
    let frames = relay.on_client_read(b"{\"id\":1}\n{\"id\"");
    assert_eq!(frames.len(), 1);
    assert_eq!(relay.client_pending_len(), 5);
    assert_eq!(relay.finish_client(), b"{\"id\"".to_vec());
    assert_eq!(relay.client_pending_len(), 0);
    relay.on_server_read(b"tail");
    assert_eq!(relay.finish_server(), b"tail".to_vec());
}

#[test]
fn decoded_members_are_read() {
    let m = decode_sv1_line(b"{\"method\":\"mining.notify\",\"params\":[\"j\",1,null],\"result\":true,\"error\":[1]}").unwrap();
    assert_eq!(m.method, Some("mining.notify".to_string()));
    assert_eq!(m.params, Some(vec!["\"j\"".to_string(), "1".to_string(), "null".to_string()]));
    assert_eq!(m.result, Some(true));
    assert!(m.error_is_array);
    let n = decode_sv1_line(b"{\"method\":5,\"params\":{},\"result\":\"true\",\"error\":null}").unwrap();
    assert_eq!(n.method, None);
    assert_eq!(n.params, None);
    assert_eq!(n.result, None);
    assert!(!n.error_is_array);
    assert!(decode_sv1_line(b"{\"method\"").is_none());
}

#[test]
fn notify_without_prevhash_param() {
    let m = decode_sv1_line(b"{\"method\":\"mining.notify\",\"params\":[\"j\"]}").unwrap();
    let mut seen = false;
    let e = server_event(&m, &mut seen);
    assert!(e.notify);
    assert!(!e.notify_with_prevhash);
    assert!(!seen);
}

#[test]
fn result_false_is_neither() {
    let m = decode_sv1_line(b"{\"id\":7,\"result\":false,\"error\":null}").unwrap();
    let mut seen = true;
    assert!(matches!(server_event(&m, &mut seen).share, ShareOutcome::Neither));
}

#[test]
fn ttl_value_present_before_and_absent_after() {
    let mut g = TtlGauge::new();
    g.set_with_ttl(labels(&["a"]), 42, 100, 1000);
    g.advance(1099);
    assert_eq!(g.get(&labels(&["a"])), Some(42));
    g.advance(1100);
    assert_eq!(g.get(&labels(&["a"])), None);
}

#[test]
fn reset_before_expiry_is_removed_by_first_expiry() {
    let mut g = TtlGauge::new();
    g.set(labels(&["b"]), 7);
    g.set_with_ttl(labels(&["a", "same"]), 1, 0, 1000);
    g.advance(500);
    g.set_with_ttl(labels(&["a", "same"]), 2, 500, 1000);
    assert_eq!(g.get(&labels(&["a", "same"])), Some(2));
    let removed = g.advance(1000);
    assert_eq!(removed, vec![labels(&["a", "same"])]);
    assert_eq!(g.get(&labels(&["a", "same"])), None);
    assert_eq!(g.get(&labels(&["b"])), Some(7));
    let removed = g.advance(1500);
    assert_eq!(removed, vec![labels(&["a", "same"])]);
    assert_eq!(g.get(&labels(&["b"])), Some(7));
}

#[test]
fn removing_absent_labels_is_a_no_op() {
    let mut g = TtlGauge::new();
    g.remove(&labels(&["x"]));
    g.set(labels(&["x"]), 3);
    g.set(labels(&["x"]), 4);
    assert_eq!(g.get(&labels(&["x"])), Some(4));
    g.remove(&labels(&["x"]));
    g.remove(&labels(&["x"]));
    assert_eq!(g.get(&labels(&["x"])), None);
}
