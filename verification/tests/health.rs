use conduit_core::health::compiled::{CompiledBackendHealth, CompiledHealth, CompiledPoolHealth};
use conduit_core::health::control::{
    BackendHealthFilter,
    EffectiveScope, HealthControlAction, HealthControlError, HealthControlScope, ScopeMode,
};
use conduit_core::health::state::{
    BackendHealthState, Health, HealthRegistry, InitialHealthState,
};
use conduit_core::net::SockAddr;

/// A clock reading after the Unix epoch.
const NOW_MS: u64 = 1_700_000_000_000;

fn optimistic() -> BackendHealthState {
    BackendHealthState::from_initial_policy(InitialHealthState::Optimistic)
}

fn addr(port: u16) -> SockAddr {
    SockAddr::v4(127, 0, 0, 1, port)
}

fn compiled_backend(port: u16, qname: &str, qtype: u16, name: Option<&str>) -> CompiledBackendHealth {
    CompiledBackendHealth {
        address: addr(port),
        name: name.map(|n| n.to_string()),
        label: name.map(|n| n.to_string()).unwrap_or_else(|| format!("127.0.0.1:{port}")),
        probe_qname: qname.to_string(),
        probe_qtype: qtype,
        probe_source: None,
    }
}

fn compiled_pool_with(backends: Vec<CompiledBackendHealth>, passive_fast_trip: bool) -> CompiledHealth {
    let pool = CompiledPoolHealth {
        interval_ms: 1000,
        timeout_ms: 1000,
        rise: 3,
        fall: 2,
        acceptable_rcodes: None,
        initial_state: InitialHealthState::Optimistic,
        latency_weighting: false,
        latency_ewma_alpha_bits: 0.2f64.to_bits(),
        latency_floor_bits: 0.25f64.to_bits(),
        min_eligible: 0,
        passive_fast_trip,
        passive_fall: 2,
        backends,
    };
    CompiledHealth { pools: vec![("default".to_string(), pool)] }
}

fn compiled_pool(backends: Vec<CompiledBackendHealth>) -> CompiledHealth {
    compiled_pool_with(backends, true)
}

fn compiled_ports(ports: &[u16]) -> CompiledHealth {
    compiled_pool(ports.iter().map(|p| compiled_backend(*p, "health.", 1, None)).collect())
}

/// Apply `f` to the registry's state for `default`/`address` and store it back.
fn update(reg: &mut HealthRegistry, address: SockAddr, f: impl FnOnce(&mut BackendHealthState)) {
    let mut s = reg.get("default", address).unwrap();
    f(&mut s);
    assert!(reg.put("default", address, s));
}

#[test]
fn optimistic_starts_applied_up_observed_unknown() {
    let s = optimistic();
    assert_eq!(s.applied(), Health::Up);
    assert_eq!(s.observed(), Health::Unknown);
    assert!(s.latency_ewma_ms_bits().is_none());
}

#[test]
fn require_policies_start_applied_down() {
    let s = BackendHealthState::from_initial_policy(InitialHealthState::Require1Good);
    assert_eq!(s.applied(), Health::Down);
    let s2 = BackendHealthState::from_initial_policy(InitialHealthState::RequireFullRise);
    assert_eq!(s2.applied(), Health::Down);
}

#[test]
fn fall_threshold_marks_down() {
    let mut s = optimistic();
    assert_eq!(s.record_failure(2, NOW_MS), Health::Up);
    assert_eq!(s.record_failure(2, NOW_MS), Health::Down);
    assert_eq!(s.observed(), Health::Down);
}

#[test]
fn rise_threshold_marks_up() {
    let mut s = BackendHealthState::from_initial_policy(InitialHealthState::Require1Good);
    assert_eq!(s.applied(), Health::Down);
    assert_eq!(s.record_success(3, NOW_MS), Health::Down);
    assert_eq!(s.record_success(3, NOW_MS), Health::Down);
    assert_eq!(s.record_success(3, NOW_MS), Health::Up);
    assert_eq!(s.observed(), Health::Up);
}

#[test]
fn success_resets_failure_run_and_vice_versa() {
    let mut s = optimistic();
    s.record_failure(2, NOW_MS);
    s.record_success(3, NOW_MS);
    assert_eq!(s.consecutive_failures(), 0);
    assert_eq!(s.consecutive_successes(), 1);
    s.record_failure(2, NOW_MS);
    assert_eq!(s.consecutive_successes(), 0);
}

#[test]
fn freeze_holds_applied_while_observed_updates() {
    let mut s = optimistic();
    s.freeze();
    s.record_failure(2, NOW_MS);
    s.record_failure(2, NOW_MS);
    assert_eq!(s.observed(), Health::Down);
    assert_eq!(s.applied(), Health::Up, "frozen applied must not move");
}

#[test]
fn unfreeze_snaps_applied_to_observed() {
    let mut s = optimistic();
    s.freeze();
    s.record_failure(2, NOW_MS);
    s.record_failure(2, NOW_MS);
    assert_eq!(s.applied(), Health::Up);
    assert_eq!(s.unfreeze(NOW_MS), Health::Down);
    assert_eq!(s.applied(), Health::Down);
}

#[test]
fn state_manual_set_implies_freeze() {
    let mut s = optimistic();
    s.set_down(NOW_MS);
    assert!(s.is_frozen());
    assert_eq!(s.applied(), Health::Down);
    s.record_success(1, NOW_MS);
    assert_eq!(s.observed(), Health::Up);
    assert_eq!(s.applied(), Health::Down);
    assert_eq!(s.unfreeze(NOW_MS), Health::Up);
    assert_eq!(s.applied(), Health::Up);
}

#[test]
fn passive_fall_threshold_marks_down() {
    let mut s = optimistic();
    let r1 = s.record_passive_failure(2, NOW_MS);
    assert_eq!(r1.applied, Health::Up);
    assert_eq!(r1.consecutive_failures, 1);
    assert!(!r1.transitioned);
    assert!(!r1.already_down);
    let r2 = s.record_passive_failure(2, NOW_MS);
    assert_eq!(r2.applied, Health::Down);
    assert_eq!(r2.consecutive_failures, 2);
    assert!(r2.transitioned);
    assert!(!r2.already_down);
    assert_eq!(s.observed(), Health::Down);
    assert_eq!(s.applied(), Health::Down);
}

#[test]
fn passive_failure_already_down_flag() {
    let mut s = optimistic();
    let r1 = s.record_passive_failure(1, NOW_MS);
    assert!(r1.transitioned, "first failure trips");
    let r2 = s.record_passive_failure(1, NOW_MS);
    assert!(!r2.transitioned, "no new transition");
    assert!(r2.already_down, "backend was already down");
}

#[test]
fn passive_success_does_not_close_circuit() {
    let mut s = optimistic();
    s.record_passive_failure(1, NOW_MS);
    assert_eq!(s.applied(), Health::Down);
    s.record_passive_success();
    assert_eq!(s.passive_consecutive_failures(), 0);
    assert_eq!(s.applied(), Health::Down, "forward success must not mark up");
    assert_eq!(s.record_success(3, NOW_MS), Health::Down);
    assert_eq!(s.record_success(3, NOW_MS), Health::Down);
    assert_eq!(s.record_success(3, NOW_MS), Health::Up);
}

#[test]
fn frozen_backend_ignores_passive_on_applied() {
    let mut s = optimistic();
    s.freeze();
    let r = s.record_passive_failure(1, NOW_MS);
    assert_eq!(s.observed(), Health::Down);
    assert_eq!(s.applied(), Health::Up, "frozen applied must not move");
    assert!(r.transitioned, "observed still transitions");
    assert_eq!(r.applied, Health::Up, "frozen applied stays up");
}

#[test]
fn transitions_are_counted_and_stamped() {
    let mut s = optimistic();
    assert_eq!(s.transitions_total(), 0);
    assert!(s.last_transition_unix_ms().is_none());
    // Observed and applied both move to Down: two transitions.
    s.record_failure(1, NOW_MS);
    assert_eq!(s.transitions_total(), 2);
    assert_eq!(s.last_transition_unix_ms(), Some(NOW_MS));
    // No transition: the stamp stays.
    s.record_failure(1, NOW_MS + 5);
    assert_eq!(s.last_transition_unix_ms(), Some(NOW_MS));
}

#[test]
fn reconcile_preserves_unchanged_backend_state() {
    let prev = compiled_ports(&[5300]);
    let mut reg = HealthRegistry::from_compiled(&prev);
    update(&mut reg, addr(5300), |s| s.set_down(NOW_MS));
    let new = prev.clone();
    reg.reconcile(&prev, &new);
    assert_eq!(
        reg.get("default", addr(5300)).unwrap().applied(),
        Health::Down,
        "unchanged backend keeps its down state across reload"
    );
}

#[test]
fn reconcile_resets_on_address_change() {
    let prev = compiled_ports(&[5300]);
    let mut reg = HealthRegistry::from_compiled(&prev);
    update(&mut reg, addr(5300), |s| s.set_down(NOW_MS));
    let new = compiled_ports(&[5399]);
    reg.reconcile(&prev, &new);
    assert!(reg.get("default", addr(5300)).is_none(), "old address dropped");
    assert_eq!(
        reg.get("default", addr(5399)).unwrap().applied(),
        Health::Up,
        "repointed backend resets to initial-state policy"
    );
}

#[test]
fn reconcile_resets_on_probe_semantics_change() {
    let prev = compiled_ports(&[5300]);
    let mut reg = HealthRegistry::from_compiled(&prev);
    update(&mut reg, addr(5300), |s| s.set_down(NOW_MS));
    let new = compiled_pool(vec![compiled_backend(5300, "health.", 6, None)]);
    reg.reconcile(&prev, &new);
    assert_eq!(
        reg.get("default", addr(5300)).unwrap().applied(),
        Health::Up,
        "changed probe semantics resets health"
    );
}

#[test]
fn reconcile_seeds_new_backend() {
    let prev = compiled_ports(&[5300]);
    let mut reg = HealthRegistry::from_compiled(&prev);
    let new = compiled_ports(&[5300, 5301]);
    reg.reconcile(&prev, &new);
    assert_eq!(reg.len(), 2);
    assert_eq!(
        reg.get("default", addr(5301)).unwrap().applied(),
        Health::Up,
        "new backend seeded from initial-state policy"
    );
}

#[test]
fn registry_seeds_states_per_backend() {
    let compiled = compiled_ports(&[5300, 5301]);
    let reg = HealthRegistry::from_compiled(&compiled);
    assert_eq!(reg.len(), 2);
    assert!(!reg.is_empty());
    let b0 = reg.get("default", addr(5300)).expect("backend present");
    assert_eq!(b0.applied(), Health::Up);
    assert!(reg.get("default", addr(9999)).is_none());
}

#[test]
fn registry_passive_disabled_has_no_effect() {
    let pool = compiled_pool_with(vec![compiled_backend(5300, "health.", 1, None)], false);
    let mut reg = HealthRegistry::from_compiled(&pool);
    let result = reg.record_passive_forward_outcome(&pool, "default", addr(5300), true);
    assert!(result.is_none(), "disabled passive returns None");
    let state = reg.get("default", addr(5300)).unwrap();
    assert_eq!(state.applied(), Health::Up);
    assert_eq!(state.passive_consecutive_failures(), 0);
}

#[test]
fn registry_passive_enabled_records_failure() {
    let pool = compiled_ports(&[5300]);
    let mut reg = HealthRegistry::from_compiled(&pool);
    let r = reg.record_passive_forward_outcome(&pool, "default", addr(5300), true).unwrap();
    assert_eq!(r.consecutive_failures, 1);
    assert_eq!(r.passive_fall, 2);
    assert!(reg.record_passive_forward_outcome(&pool, "default", addr(5300), false).is_none());
    assert_eq!(reg.get("default", addr(5300)).unwrap().passive_consecutive_failures(), 0);
}

#[test]
fn scope_resolution_table() {
    let compiled = compiled_ports(&[5300, 5301]);
    let mut reg = HealthRegistry::from_compiled(&compiled);
    let b0 = addr(5300);
    let b1 = addr(5301);

    assert_eq!(reg.resolve_scope("default", b0), EffectiveScope::Automatic);

    reg.set_scope_level(&HealthControlScope::Global, ScopeMode::Frozen);
    assert_eq!(reg.resolve_scope("default", b0), EffectiveScope::Frozen);
    assert_eq!(reg.resolve_scope("default", b1), EffectiveScope::Frozen);

    reg.set_scope_level(
        &HealthControlScope::Backend { pool: "default".into(), address: b1 },
        ScopeMode::Automatic,
    );
    assert_eq!(reg.resolve_scope("default", b0), EffectiveScope::Frozen);
    assert_eq!(
        reg.resolve_scope("default", b1),
        EffectiveScope::Automatic,
        "backend carve-out beats global freeze"
    );

    reg.set_scope_level(&HealthControlScope::Pool { pool: "default".into() }, ScopeMode::Automatic);
    assert_eq!(
        reg.resolve_scope("default", b0),
        EffectiveScope::Automatic,
        "pool automatic beats global frozen"
    );
}

fn backend_scope(port: u16) -> HealthControlScope {
    HealthControlScope::Backend { pool: "default".into(), address: addr(port) }
}

#[test]
fn control_manual_set_implies_freeze() {
    let compiled = compiled_ports(&[5300]);
    let mut reg = HealthRegistry::from_compiled(&compiled);
    let b0 = addr(5300);
    reg.set_health_control(&compiled, backend_scope(5300), HealthControlAction::SetDown).unwrap();

    assert_eq!(reg.resolve_scope("default", b0), EffectiveScope::Frozen);
    assert_eq!(reg.get("default", b0).unwrap().applied(), Health::Down);
    update(&mut reg, b0, |s| {
        s.record_success(1, NOW_MS);
    });
    let state = reg.get("default", b0).unwrap();
    assert_eq!(state.observed(), Health::Up);
    assert_eq!(state.applied(), Health::Down, "frozen applied holds");
}

#[test]
fn resume_automatic_snaps_to_observed() {
    let compiled = compiled_ports(&[5300]);
    let mut reg = HealthRegistry::from_compiled(&compiled);
    let b0 = addr(5300);
    reg.set_health_control(&compiled, backend_scope(5300), HealthControlAction::SetDown).unwrap();
    update(&mut reg, b0, |s| {
        s.record_success(1, NOW_MS);
    });
    let state = reg.get("default", b0).unwrap();
    assert_eq!(state.observed(), Health::Up);
    assert_eq!(state.applied(), Health::Down);

    reg.set_health_control(&compiled, backend_scope(5300), HealthControlAction::ResumeAutomatic).unwrap();

    assert_eq!(reg.resolve_scope("default", b0), EffectiveScope::Automatic);
    assert_eq!(reg.get("default", b0).unwrap().applied(), Health::Up, "resume snaps applied := observed");
}

#[test]
fn clear_while_frozen_guard_resume_is_blessed_path() {
    let compiled = compiled_ports(&[5300]);
    let mut reg = HealthRegistry::from_compiled(&compiled);
    let b0 = addr(5300);
    reg.set_health_control(&compiled, backend_scope(5300), HealthControlAction::SetDown).unwrap();
    update(&mut reg, b0, |s| {
        s.record_success(1, NOW_MS);
    });
    assert_eq!(reg.get("default", b0).unwrap().observed(), Health::Up);

    update(&mut reg, b0, |s| s.set_frozen_flag(false));
    let state = reg.get("default", b0).unwrap();
    assert!(!state.is_frozen());
    assert_eq!(state.applied(), Health::Down, "unfreezing alone does not repair stale applied");

    reg.set_health_control(&compiled, backend_scope(5300), HealthControlAction::ResumeAutomatic).unwrap();
    assert_eq!(reg.get("default", b0).unwrap().applied(), Health::Up);
}

#[test]
fn set_control_via_resolved_backend_name() {
    let compiled = compiled_pool(vec![
        compiled_backend(5300, "health.", 1, Some("live")),
        compiled_backend(5301, "health.", 1, Some("dead")),
    ]);
    let resolved = compiled.resolve_backend("default", "dead").unwrap();
    assert_eq!(resolved, addr(5301));

    let mut reg = HealthRegistry::from_compiled(&compiled);
    reg.set_health_control(
        &compiled,
        HealthControlScope::Backend { pool: "default".into(), address: resolved },
        HealthControlAction::SetDown,
    )
    .unwrap();
    assert_eq!(reg.get("default", resolved).unwrap().applied(), Health::Down);
}

#[test]
fn control_errors_name_the_bad_scope() {
    let compiled = compiled_ports(&[5300]);
    let mut reg = HealthRegistry::from_compiled(&compiled);
    let unknown_pool = reg.set_health_control(
        &compiled,
        HealthControlScope::Pool { pool: "nope".into() },
        HealthControlAction::Freeze,
    );
    assert!(matches!(unknown_pool, Err(HealthControlError::UnknownPool(_))));
    let unknown_backend = reg.set_health_control(&compiled, backend_scope(5399), HealthControlAction::Freeze);
    assert!(matches!(unknown_backend, Err(HealthControlError::BackendNotInPool { .. })));
    let empty = CompiledHealth { pools: vec![] };
    let mut empty_reg = HealthRegistry::from_compiled(&empty);
    let none = empty_reg.set_health_control(&empty, HealthControlScope::Global, HealthControlAction::Freeze);
    assert!(matches!(none, Err(HealthControlError::NoBackendsInScope)));
}

#[test]
fn pool_freeze_reports_each_backend() {
    let compiled = compiled_ports(&[5300, 5301]);
    let mut reg = HealthRegistry::from_compiled(&compiled);
    let out = reg
        .set_health_control(&compiled, HealthControlScope::Pool { pool: "default".into() }, HealthControlAction::Freeze)
        .unwrap();
    assert_eq!(out.len(), 2);
    assert_eq!(out[0].backend, addr(5300));
    assert_eq!(out[1].backend, addr(5301));
    assert!(out.iter().all(|o| o.scope_state == EffectiveScope::Frozen));
    assert!(reg.is_effectively_frozen("default", addr(5301)));
}

#[test]
fn health_listing_filters_and_reports_scope() {
    let compiled = compiled_ports(&[5300, 5301]);
    let mut reg = HealthRegistry::from_compiled(&compiled);
    reg.set_health_control(&compiled, backend_scope(5301), HealthControlAction::SetDown).unwrap();

    let all = reg.backend_health_views(&compiled, &BackendHealthFilter { pool: None, backend: None });
    assert_eq!(all.len(), 2);
    assert_eq!(all[0].pool, "default");
    assert_eq!(all[0].backend, addr(5300));
    assert_eq!(all[0].applied, Health::Up);
    assert!(all[0].eligible);
    assert_eq!(all[0].scope_state, EffectiveScope::Automatic);
    assert_eq!(all[0].latency_ewma_ms_bits, None);
    assert_eq!(all[1].applied, Health::Down);
    assert!(!all[1].eligible);
    assert_eq!(all[1].scope_state, EffectiveScope::Frozen);
    assert!(reg.get("default", addr(5301)).unwrap().is_frozen(), "listing syncs the frozen flag");

    let one = reg.backend_health_views(&compiled, &BackendHealthFilter { pool: None, backend: Some(addr(5301)) });
    assert_eq!(one.len(), 1);
    assert_eq!(one[0].backend, addr(5301));
    let other_pool =
        reg.backend_health_views(&compiled, &BackendHealthFilter { pool: Some("edge".to_string()), backend: None });
    assert!(other_pool.is_empty());
}
