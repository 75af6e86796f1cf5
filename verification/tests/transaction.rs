use conduit_core::clock::Instant;
use conduit_core::net::SockAddr;
use conduit_core::routing::tried_backends_in_pool;
use conduit_core::transaction::{ClientProtocol, TagSet, Transaction};

fn txn() -> Transaction {
    Transaction::new(1, SockAddr::v4(127, 0, 0, 1, 53), ClientProtocol::Udp)
}

#[test]
fn tag_set_clear_removes_bool_flag() {
    let mut tags = TagSet::default();
    tags.set_bool("flag", true);
    assert!(tags.has("flag"));
    tags.clear("flag");
    assert!(!tags.has("flag"));
}

#[test]
fn tag_set_clear_removes_string_tag() {
    let mut tags = TagSet::default();
    tags.set_string("tier", "vip");
    assert!(tags.has("tier"));
    tags.clear("tier");
    assert!(!tags.has("tier"));
}

#[test]
fn tag_set_clear_removes_both_maps_for_key() {
    let mut tags = TagSet::default();
    tags.set_bool("mixed", true);
    tags.set_string("mixed", "value");
    tags.clear("mixed");
    assert!(!tags.has("mixed"));
    assert!(!tags.bool_flags().iter().any(|(k, _)| k == "mixed"));
}

#[test]
fn false_flag_is_not_a_tag_and_is_not_exported() {
    let mut tags = TagSet::default();
    tags.set_bool("off", false);
    tags.set_bool("on", true);
    tags.set_bool("on", true);
    tags.set_string("s", "v");
    assert!(!tags.has("off"));
    assert!(tags.has("on"));
    assert_eq!(tags.bool_flags().len(), 2);
    let (bools, strings) = tags.export_all_tags();
    assert_eq!(bools, vec![("on".to_string(), true)]);
    assert_eq!(strings, vec![("s".to_string(), "v".to_string())]);
}

#[test]
fn take_effective_source_ignores_retry_stash_on_first_forward() {
    let mut txn = txn();
    let plain: u32 = 0x7f00_0001;
    let retry: u32 = 0x0a00_0005;
    txn.source_override_v4 = Some(plain);
    txn.retry_source_override_v4 = Some(retry);
    txn.attempt_count = 1;
    assert_eq!(txn.take_effective_source_override_v4(), Some(plain));
    assert_eq!(txn.retry_source_override_v4, Some(retry));
}

#[test]
fn take_effective_source_consumes_retry_stash_on_retry_forward() {
    let mut txn = txn();
    let loopback6: u128 = 1;
    txn.set_retry_source_override_v6(loopback6);
    txn.attempt_count = 2;
    assert_eq!(txn.take_effective_source_override_v6(), Some(loopback6));
    assert!(txn.retry_source_override_v6.is_none());
}

#[test]
fn complete_forward_rtt_records_milliseconds() {
    let mut txn = txn();
    assert_eq!(txn.last_forward_ms(), 0);
    let started = Instant::now().minus_secs(1);
    txn.mark_forward_started(started);
    txn.complete_forward_rtt(started);
    assert!(txn.last_forward_ms() >= 1000);
    assert!(txn.forward_started_at.is_none());

    txn.mark_forward_started(Instant::now().minus_secs(2));
    txn.complete_forward_rtt_from_mark();
    assert!(txn.last_forward_ms() >= 2000);
    assert!(txn.forward_started_at.is_none());
}

#[test]
fn record_attempt_selects_and_counts() {
    let mut txn = txn();
    let a = SockAddr::v4(10, 0, 0, 1, 53);
    let b = SockAddr::v4(10, 0, 0, 2, 53);
    txn.record_attempt("p".into(), a, "alpha".into());
    txn.record_attempt("q".into(), b, "beta".into());
    txn.record_attempt("p".into(), b, "beta".into());
    assert_eq!(txn.attempt_count, 3);
    assert_eq!(txn.attempts[2].attempt, 3);
    assert_eq!(txn.selected_pool.as_deref(), Some("p"));
    assert_eq!(txn.selected_backend, Some(b));
    assert_eq!(txn.selected_backend_label.as_deref(), Some("beta"));
    assert_eq!(tried_backends_in_pool(&txn.attempts, "p"), vec![a, b]);
    assert_eq!(tried_backends_in_pool(&txn.attempts, "q"), vec![b]);
    assert!(tried_backends_in_pool(&txn.attempts, "r").is_empty());
}

#[test]
fn builders_and_small_setters() {
    let mut txn = txn().with_query_wire(vec![1, 2]).with_listener_label("lab").with_global_query_index(9);
    assert_eq!(txn.query_wire, vec![1, 2]);
    assert_eq!(txn.listener_label.as_deref(), Some("lab"));
    assert_eq!(txn.global_query_index, 9);
    txn.retry_pool = Some("r".into());
    assert_eq!(txn.take_retry_pool().as_deref(), Some("r"));
    assert!(txn.retry_pool.is_none());
    txn.set_soft_drop();
    assert!(txn.soft_drop);
    txn.dropped = true;
    txn.clear_soft_drop();
    assert!(!txn.soft_drop && !txn.dropped);
    txn.set_rcode(3);
    assert_eq!(txn.rcode(), Some(3));
}
