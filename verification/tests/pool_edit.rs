use conduit_core::net::SockAddr;
use conduit_core::pool_edit::{
    add_backend, backend_identity_exists, find_backend_index, remove_backend, set_backend_weight, PoolEditError,
};
use conduit_core::routing::{RouteBackend, RoutePool};

fn backend(last: u8, name: Option<&str>) -> RouteBackend {
    RouteBackend {
        address_text: format!("127.0.0.1:53{last:02}"),
        address: Some(SockAddr::v4(127, 0, 0, 1, 5300 + last as u16)),
        weight: 100,
        name: name.map(|n| n.to_string()),
    }
}

fn pools() -> Vec<RoutePool> {
    vec![
        RoutePool { name: "edge".into(), backends: vec![backend(9, None)] },
        RoutePool { name: "primary".into(), backends: vec![backend(0, Some("resolver-east")), backend(1, None)] },
    ]
}

#[test]
fn backend_found_by_name_then_address() {
    let p = &pools()[1];
    assert_eq!(find_backend_index(p, "resolver-east"), Some(0));
    assert_eq!(find_backend_index(p, "127.0.0.1:5300"), Some(0));
    assert_eq!(find_backend_index(p, "127.0.0.1:5301"), Some(1));
    assert_eq!(find_backend_index(p, "nope"), None);
    let mut tricky = p.clone();
    tricky.backends[1].name = Some("127.0.0.1:5300".into());
    assert_eq!(find_backend_index(&tricky, "127.0.0.1:5300"), Some(1), "a name match wins over an address match");
}

#[test]
fn set_weight_edits_only_that_backend() {
    let mut ps = pools();
    assert_eq!(set_backend_weight(&mut ps, "primary", "127.0.0.1:5301", 11), Ok(()));
    assert_eq!(ps[1].backends[1].weight, 11);
    assert_eq!(ps[1].backends[0].weight, 100);
    assert_eq!(ps[0].backends[0].weight, 100);
    assert_eq!(set_backend_weight(&mut ps, "missing", "x", 1), Err(PoolEditError::UnknownPool));
    assert_eq!(set_backend_weight(&mut ps, "primary", "x", 1), Err(PoolEditError::UnknownBackend));
}

#[test]
fn remove_backend_by_name() {
    let mut ps = pools();
    assert_eq!(remove_backend(&mut ps, "primary", "resolver-east"), Ok(()));
    assert_eq!(ps[1].backends.len(), 1);
    assert_eq!(ps[1].backends[0].address_text, "127.0.0.1:5301");
}

#[test]
fn add_backend_checks_identity_and_address() {
    let mut ps = pools();
    assert_eq!(add_backend(&mut ps, "primary", backend(1, None)), Err(PoolEditError::DuplicateBackend));
    assert_eq!(add_backend(&mut ps, "primary", backend(7, Some("resolver-east"))), Err(PoolEditError::DuplicateBackend));
    let mut empty = backend(7, None);
    empty.address_text = String::new();
    assert_eq!(add_backend(&mut ps, "primary", empty), Err(PoolEditError::EmptyAddress));
    assert_eq!(add_backend(&mut ps, "primary", backend(7, None)), Ok(()));
    assert_eq!(ps[1].backends.len(), 3);
    assert!(backend_identity_exists(&ps[1], &backend(7, None)));
    assert_eq!(add_backend(&mut ps, "nope", backend(8, None)), Err(PoolEditError::UnknownPool));
}

#[test]
fn edit_error_messages() {
    assert_eq!(PoolEditError::UnknownPool.message("p", "b"), "unknown pool 'p'");
    assert_eq!(PoolEditError::UnknownBackend.message("p", "b"), "pool 'p' has no backend named or addressed 'b'");
    assert_eq!(
        PoolEditError::DuplicateBackend.message("p", "b"),
        "pool 'p' already has a backend matching the add identity"
    );
    assert_eq!(PoolEditError::EmptyAddress.message("p", "b"), "add backend requires a non-empty address");
}
