use conduit_core::health::state::Health;
use conduit_core::runtime_view::{backend_routing, health_label, pool_routing, BackendRow, BackendStateView, PoolRouting};

fn row(applied: Option<Health>, outstanding: u32) -> BackendRow {
    BackendRow {
        address_parses: true,
        state: applied.map(|a| BackendStateView {
            applied: a,
            observed: a,
            frozen: false,
            last_transition_unix_ms: Some(5),
        }),
        outstanding,
    }
}

#[test]
fn health_labels() {
    assert_eq!(health_label(Health::Up), "up");
    assert_eq!(health_label(Health::Down), "down");
    assert_eq!(health_label(Health::Unknown), "unknown");
}

#[test]
fn down_backend_not_eligible_in_view() {
    let v = backend_routing(&row(Some(Health::Down), 0), true);
    assert!(!v.eligible);
    assert_eq!(v.applied, "down");
    assert_eq!(v.last_transition_unix_ms, Some(5));
}

#[test]
fn runtime_view_frozen_drain_shows_observed_up_applied_down() {
    let r = BackendRow {
        address_parses: true,
        state: Some(BackendStateView {
            applied: Health::Down,
            observed: Health::Up,
            frozen: true,
            last_transition_unix_ms: None,
        }),
        outstanding: 3,
    };
    let v = backend_routing(&r, true);
    assert_eq!(v.observed, "up");
    assert_eq!(v.applied, "down");
    assert!(v.frozen);
    assert_eq!(v.outstanding, 3);
}

#[test]
fn backend_without_health_is_up_and_unobserved() {
    let v = backend_routing(&row(Some(Health::Down), 1), false);
    assert_eq!((v.applied, v.observed, v.eligible, v.frozen), ("up", "unknown", true, false));
    let v = backend_routing(&row(None, 1), true);
    assert_eq!((v.applied, v.observed, v.eligible), ("up", "unknown", true));
}

#[test]
fn pool_eligible_count_matches_route() {
    let rows = vec![row(Some(Health::Up), 1), row(None, 7)];
    assert_eq!(
        pool_routing(&rows, Some(1)),
        PoolRouting { configured_count: 2, eligible_count: 2, fail_open_active: false, max_outstanding: 7 }
    );
}

#[test]
fn runtime_view_fail_open_when_all_down() {
    let rows = vec![row(Some(Health::Down), 0), row(Some(Health::Unknown), 0)];
    let p = pool_routing(&rows, Some(1));
    assert!(p.fail_open_active);
    assert_eq!(p.eligible_count, 0);
}

#[test]
fn fail_open_below_floor_and_single_backend() {
    let rows = vec![row(Some(Health::Up), 0), row(Some(Health::Down), 0), row(None, 0)];
    assert!(!pool_routing(&rows, Some(2)).fail_open_active);
    assert!(pool_routing(&rows, Some(3)).fail_open_active);
    assert!(pool_routing(&vec![row(Some(Health::Up), 0)], Some(1)).fail_open_active);
    assert!(!pool_routing(&rows, None).fail_open_active);
    assert_eq!(pool_routing(&rows, None).eligible_count, 3);
}

#[test]
fn unparsable_addresses_neither_route_nor_count_outstanding() {
    let mut bad = row(None, 99);
    bad.address_parses = false;
    let rows = vec![bad, row(Some(Health::Up), 4)];
    let p = pool_routing(&rows, Some(1));
    assert_eq!(p.configured_count, 2);
    assert_eq!(p.eligible_count, 1);
    assert_eq!(p.max_outstanding, 4);
}
