use conduit_core::net::IpAddress;
use conduit_core::snapshot::{CompiledForward, CompiledPoolForward, RuntimeSnapshot};

fn v4(last: u8) -> IpAddress {
    IpAddress::v4(192, 0, 2, last)
}

fn snapshot() -> RuntimeSnapshot {
    RuntimeSnapshot {
        generation: 3,
        forward: CompiledForward { sources_v4: vec![v4(1), v4(2)], sources_v6: vec![] },
        pool_forward: vec![
            ("edge".to_string(), CompiledPoolForward { sources_v4: Some(vec![v4(2), v4(9)]), sources_v6: None }),
            ("empty".to_string(), CompiledPoolForward { sources_v4: Some(vec![]), sources_v6: None }),
        ],
    }
}

fn sorted(mut v: Vec<IpAddress>) -> Vec<IpAddress> {
    v.sort();
    v
}

#[test]
fn pool_override_wins_when_non_empty() {
    let s = snapshot();
    assert_eq!(s.sources_v4_for_pool(Some("edge")), &vec![v4(2), v4(9)]);
    assert_eq!(s.sources_v4_for_pool(Some("empty")), &vec![v4(1), v4(2)]);
    assert_eq!(s.sources_v4_for_pool(Some("other")), &vec![v4(1), v4(2)]);
    assert_eq!(s.sources_v4_for_pool(None), &vec![v4(1), v4(2)]);
    assert!(s.sources_v6_for_pool(Some("edge")).is_empty());
}

#[test]
fn allowed_sources_are_global_union_pool() {
    let s = snapshot();
    assert_eq!(sorted(s.allowed_sources_v4_for_pool(Some("edge"))), vec![v4(1), v4(2), v4(9)]);
    assert_eq!(sorted(s.allowed_sources_v4_for_pool(None)), vec![v4(1), v4(2)]);
    assert!(s.allowed_sources_v6_for_pool(Some("edge")).is_empty());
}

#[test]
fn egress_binds_every_source_once() {
    let s = snapshot();
    assert_eq!(sorted(s.egress_bind_addresses_v4()), vec![v4(1), v4(2), v4(9)]);
    assert!(s.egress_bind_addresses_v6().is_empty());
}
