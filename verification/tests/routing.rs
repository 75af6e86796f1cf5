use conduit_core::net::SockAddr;
use conduit_core::stages::route::{RouteFailure, RouteOutcome, RouteStage};
use conduit_core::transaction::{ClientProtocol, Transaction};
use conduit_core::routing::{
    backend_metric_label, backend_metric_label_for_addr, default_pool_name, listener_metric_label,
    select_backend, BackendHealthInput, PoolHealthInput, RouteBackend, RoutePool,
};

fn backend(last: u8, weight: u32, name: Option<&str>) -> RouteBackend {
    RouteBackend {
        address_text: format!("10.0.0.{last}:53"),
        address: Some(SockAddr::v4(10, 0, 0, last, 53)),
        weight,
        name: name.map(|n| n.to_string()),
    }
}

fn pool_three_backends() -> RoutePool {
    RoutePool { name: "primary".into(), backends: vec![backend(1, 100, None), backend(2, 100, None), backend(3, 100, None)] }
}

fn addr(last: u8) -> SockAddr {
    SockAddr::v4(10, 0, 0, last, 53)
}

fn health(eligible: &[bool], min_eligible: u32) -> PoolHealthInput {
    PoolHealthInput {
        min_eligible,
        latency_weighting: false,
        backends: eligible.iter().map(|e| BackendHealthInput { eligible: *e, latency_weight: 100 }).collect(),
    }
}

#[test]
fn backend_metric_label_prefers_name() {
    let named = RouteBackend { address_text: "127.0.0.1:5300".into(), address: None, weight: 100, name: Some("resolver-east".into()) };
    assert_eq!(backend_metric_label(&named), "resolver-east");
    let unnamed = RouteBackend { name: None, ..named.clone() };
    assert_eq!(backend_metric_label(&unnamed), "127.0.0.1:5300");
    let empty = RouteBackend { name: Some(String::new()), ..named };
    assert_eq!(backend_metric_label(&empty), "127.0.0.1:5300");
}

#[test]
fn listener_metric_label_prefers_name() {
    assert_eq!(listener_metric_label(&Some("lab-udp".into()), &"127.0.0.1:15353".to_string()), "lab-udp");
    assert_eq!(listener_metric_label(&None, &"127.0.0.1:15353".to_string()), "127.0.0.1:15353");
}

#[test]
fn first_attempt_ignores_tried_list() {
    let pools = vec![pool_three_backends()];
    let tried = vec![addr(1), addr(2), addr(3)];
    assert!(select_backend(&pools, "primary", 1, 0, 0, &tried, None).is_some());
}

#[test]
fn retry_excludes_tried_backend_in_pool() {
    let pools = vec![pool_three_backends()];
    for txn_id in 0..20u64 {
        let tried = vec![addr(1)];
        let (pool, picked) = select_backend(&pools, "primary", txn_id, 0, 1, &tried, None).unwrap();
        assert_eq!(pool, "primary");
        assert_ne!(picked, addr(1));
    }
}

#[test]
fn retry_returns_none_when_pool_exhausted() {
    let pools = vec![pool_three_backends()];
    let tried = vec![addr(1), addr(2), addr(3)];
    assert!(select_backend(&pools, "primary", 1, 0, 1, &tried, None).is_none());
}

#[test]
fn cross_pool_retry_does_not_exclude_other_pools() {
    let secondary = RoutePool { name: "secondary".into(), backends: vec![backend(9, 100, None)] };
    let pools = vec![pool_three_backends(), secondary];
    // Tried list is per pool: a backend tried in `primary` says nothing about `secondary`.
    let tried_in_secondary: Vec<SockAddr> = vec![];
    let (pool, picked) = select_backend(&pools, "secondary", 5, 0, 1, &tried_in_secondary, None).unwrap();
    assert_eq!(pool, "secondary");
    assert_eq!(picked, addr(9));
}

#[test]
fn weighted_pick_is_deterministic_and_exact() {
    let pools = vec![RoutePool { name: "w".into(), backends: vec![backend(1, 1, None), backend(2, 3, None)] }];
    // total weight 4: picks 0 -> first, 1..=3 -> second.
    assert_eq!(select_backend(&pools, "w", 0, 0, 0, &vec![], None).unwrap().1, addr(1));
    assert_eq!(select_backend(&pools, "w", 1, 0, 0, &vec![], None).unwrap().1, addr(2));
    assert_eq!(select_backend(&pools, "w", 2, 1, 0, &vec![], None).unwrap().1, addr(2));
    assert_eq!(select_backend(&pools, "w", 4, 0, 0, &vec![], None).unwrap().1, addr(1));
    assert_eq!(select_backend(&pools, "w", u64::MAX, 1, 0, &vec![], None).unwrap().1, addr(1));
    assert!(select_backend(&pools, "missing", 0, 0, 0, &vec![], None).is_none());
    let zero = vec![RoutePool { name: "z".into(), backends: vec![backend(1, 0, None)] }];
    assert!(select_backend(&zero, "z", 0, 0, 0, &vec![], None).is_none());
}

#[test]
fn routing_fail_open_when_all_down() {
    let pools = vec![pool_three_backends()];
    let h = health(&[false, false, false], 0);
    assert!(select_backend(&pools, "primary", 1, 0, 0, &vec![], Some(&h)).is_some());
}

#[test]
fn fail_open_below_min_eligible_floor() {
    let pools = vec![pool_three_backends()];
    // Only one eligible but floor 2: every candidate stays in play.
    let h = health(&[true, false, false], 2);
    let mut seen = std::collections::HashSet::new();
    for txn_id in [0u64, 100, 200] {
        seen.insert(select_backend(&pools, "primary", txn_id, 0, 0, &vec![], Some(&h)).unwrap().1);
    }
    assert_eq!(seen.len(), 3);
}

#[test]
fn above_floor_routes_only_to_eligible() {
    let pools = vec![pool_three_backends()];
    let h = health(&[false, true, true], 1);
    for txn_id in 0..30u64 {
        let picked = select_backend(&pools, "primary", txn_id, 0, 0, &vec![], Some(&h)).unwrap().1;
        assert_ne!(picked, addr(1));
    }
}

#[test]
fn latency_weights_apply_only_without_fail_open() {
    let pools = vec![RoutePool { name: "l".into(), backends: vec![backend(1, 100, None), backend(2, 100, None)] }];
    let h = PoolHealthInput {
        min_eligible: 1,
        latency_weighting: true,
        backends: vec![
            BackendHealthInput { eligible: true, latency_weight: 1 },
            BackendHealthInput { eligible: true, latency_weight: 9 },
        ],
    };
    // total 10: pick 0 -> first, 1..9 -> second
    assert_eq!(select_backend(&pools, "l", 0, 0, 0, &vec![], Some(&h)).unwrap().1, addr(1));
    assert_eq!(select_backend(&pools, "l", 1, 0, 0, &vec![], Some(&h)).unwrap().1, addr(2));
}

#[test]
fn default_pool_and_label_lookup() {
    let mut pools = vec![pool_three_backends()];
    assert_eq!(default_pool_name(&pools).as_deref(), Some("primary"));
    pools.push(RoutePool { name: "default".into(), backends: vec![backend(7, 1, Some("seven"))] });
    assert_eq!(default_pool_name(&pools).as_deref(), Some("default"));
    assert!(default_pool_name(&vec![]).is_none());
    assert_eq!(backend_metric_label_for_addr(&pools, "default", addr(7)).as_deref(), Some("seven"));
    assert_eq!(backend_metric_label_for_addr(&pools, "primary", addr(2)).as_deref(), Some("10.0.0.2:53"));
    assert!(backend_metric_label_for_addr(&pools, "primary", addr(7)).is_none());
}

fn distribution(pools: &Vec<RoutePool>, pool: &str, h: Option<&PoolHealthInput>) -> std::collections::HashMap<SockAddr, u32> {
    let mut counts = std::collections::HashMap::new();
    for txn_id in 0..300u64 {
        let (_, picked) = select_backend(pools, pool, txn_id, 0, 0, &vec![], h).unwrap();
        *counts.entry(picked).or_insert(0) += 1;
    }
    counts
}

#[test]
fn eligibility_filter_excludes_down_backend() {
    let pools = vec![pool_three_backends()];
    let h = health(&[true, false, true], 0);
    let counts = distribution(&pools, "primary", Some(&h));
    assert_eq!(counts.get(&addr(2)), None, "down backend must receive no traffic");
    assert!(counts.len() == 2, "only the two up backends are selected");
}

#[test]
fn health_none_considers_all_backends() {
    let pools = vec![pool_three_backends()];
    let counts = distribution(&pools, "primary", None);
    assert_eq!(counts.len(), 3, "no health config => all backends eligible");
}

#[test]
fn single_backend_pool_always_fails_open() {
    let pools = vec![RoutePool { name: "solo".into(), backends: vec![backend(9, 100, None)] }];
    let h = health(&[false], 0);
    let (_, picked) = select_backend(&pools, "solo", 1, 0, 0, &vec![], Some(&h)).unwrap();
    assert_eq!(picked, addr(9));
}

#[test]
fn route_stage_same_pool_retries_use_different_backends() {
    let pools = vec![pool_three_backends()];
    let health: Vec<(String, PoolHealthInput)> = Vec::new();
    let stage = RouteStage::new();
    let mut txn = Transaction::new(2, SockAddr::v4(127, 0, 0, 1, 15353), ClientProtocol::Udp);
    for _ in 0..3 {
        assert_eq!(stage.handle(&mut txn, &pools, 0, &health), RouteOutcome::Forward);
    }
    assert_eq!(txn.attempts.len(), 3);
    assert!(txn.attempts.iter().all(|a| a.pool == "primary"));
    assert_ne!(txn.attempts[0].backend, txn.attempts[1].backend);
    assert_ne!(txn.attempts[0].backend, txn.attempts[2].backend);
    assert_ne!(txn.attempts[1].backend, txn.attempts[2].backend);
    assert_eq!(stage.handle(&mut txn, &pools, 0, &health), RouteOutcome::Failed(RouteFailure::NoBackendSelected));
    assert_eq!(txn.rcode(), Some(2));
}
