use mining_proxy::correlate::{
    block_found_latency, flagged_job_latencies, latency_ms, share_submission_latencies,
    template_job_latencies,
};
use mining_proxy::scan::{find_from, last_field_of, parse_decimal_u64, second_field_of, text_lines_of};

#[test]
fn lines_like_str_lines() {
    assert_eq!(text_lines_of(b"a\r\nb\n\nc"), vec![b"a".to_vec(), b"b".to_vec(), b"".to_vec(), b"c".to_vec()]);
    assert_eq!(text_lines_of(b"a\n"), vec![b"a".to_vec()]);
    assert!(text_lines_of(b"").is_empty());
}

#[test]
fn fields_and_numbers() {
    assert_eq!(second_field_of(b"  name{l=\"x\"}   1234  "), Some(b"1234".to_vec()));
    assert_eq!(second_field_of(b"only"), None);
    assert_eq!(last_field_of(b"a b  77 "), Some(b"".to_vec()));
    assert_eq!(last_field_of(b"metric{x=\"1\"} 99"), Some(b"99".to_vec()));
    assert_eq!(last_field_of(b"nospace"), None);
    assert_eq!(parse_decimal_u64(b"18446744073709551615"), Some(u64::MAX));
    assert_eq!(parse_decimal_u64(b"18446744073709551616"), None);
    assert_eq!(parse_decimal_u64(b""), None);
    assert_eq!(parse_decimal_u64(b"1.5"), None);
    assert_eq!(parse_decimal_u64(b"+15"), Some(15));
    assert_eq!(parse_decimal_u64(b"+"), None);
    assert_eq!(parse_decimal_u64(b"-1"), None);
    assert_eq!(parse_decimal_u64(b"++1"), None);
    assert_eq!(find_from(b"abcabc", b"ca", 0), Some(2));
    assert_eq!(find_from(b"abcabc", b"ab", 1), Some(3));
    assert_eq!(find_from(b"abc", b"zz", 0), None);
    assert_eq!(latency_ms(1000, 1500), -500);
}

const SHARES: &[u8] = b"# HELP share_submission_timestamp Timestamp of the submitted share\n\
# TYPE share_submission_timestamp gauge\n\
share_submission_timestamp{nonce=\"12345\"} 1700000000000\n\
share_submission_timestamp{nonce=\"999\"} 1700000000500\n";

#[test]
fn share_latency_by_decimal_nonce() {
    assert_eq!(share_submission_latencies(SHARES, b"12345", 1700000000250), vec![250]);
    assert_eq!(share_submission_latencies(SHARES, b"999", 1700000001000), vec![500]);
    assert!(share_submission_latencies(SHARES, b"4242", 1700000001000).is_empty());
}

#[test]
fn block_latency_searches_swapped_nonce() {
    let metrics = b"share_submission_timestamp{nonce=\"\\\"deadbeef\\\"\"} 1000\n";
    assert_eq!(block_found_latency(metrics, b"{\"params\":[\"00efbeadde00\"]}", 1600), Some(600));
    assert_eq!(block_found_latency(metrics, b"{\"params\":[\"00deadbeef00\"]}", 1600), None);
    let bad = b"share_submission_timestamp{nonce=\"\\\"xyz\\\"\"} 1000\n";
    assert_eq!(block_found_latency(bad, b"efbeadde", 1600), None);
}

#[test]
fn first_matching_nonce_line_decides() {
    let metrics = b"s{nonce=\"\\\"deadbeef\\\"\"} notanumber\ns{nonce=\"\\\"deadbeef\\\"\"} 10\n";
    assert_eq!(block_found_latency(metrics, b"efbeadde", 20), None);
}

#[test]
fn flagged_jobs_tell_same_from_different() {
    let body = b"sv1_new_job_vec{flag=\"same\",prevhash=\"aa\"} 1000\n\
sv1_new_job_vec{flag=\"different\",prevhash=\"bb\"} 1200\n\
sv1_new_job_vec{flag=\"different\",prevhash=\"cc\"} bad\n";
    let v = flagged_job_latencies(body, 2000);
    assert_eq!(v.len(), 2);
    assert_eq!(v[0].latency_ms, 1000);
    assert!(!v[0].prevhash_changed);
    assert_eq!(v[1].latency_ms, 800);
    assert!(v[1].prevhash_changed);
}

#[test]
fn template_jobs_from_prevhash_or_id() {
    let body = b"# HELP sv2_new_job_timestamp_pool x\n\
sv2_new_job_prev_hash_timestamp_pool{prevhash=\"ab\"} 100\n\
sv2_new_job_timestamp_pool{id=\"7\"} 300\n\
broken{prevhash=\n";
    let v = template_job_latencies(body, 1000);
    assert_eq!(v.len(), 2);
    assert_eq!(v[0].latency_ms, 900);
    assert!(v[0].from_prevhash);
    assert_eq!(v[1].latency_ms, 700);
    assert!(!v[1].from_prevhash);
}
