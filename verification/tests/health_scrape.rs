use conduit_core::health::scrape::{scrape_pool, ScrapeBackend, ScrapeState};
use conduit_core::health::state::Health;

fn backend(label: &str, applied: Health, observed: Health, automatic: bool) -> ScrapeBackend {
    ScrapeBackend {
        label: label.into(),
        address_parses: true,
        state: Some(ScrapeState { observed, applied, automatic, transitions_total: 3 }),
    }
}

#[test]
fn down_backend_row_and_active_count() {
    let (rows, active) = scrape_pool(&vec![
        backend("127.0.0.1:5300", Health::Down, Health::Down, true),
        backend("127.0.0.1:5301", Health::Up, Health::Up, true),
    ]);
    assert_eq!(rows.len(), 2);
    assert_eq!(rows[0].backend, "127.0.0.1:5300");
    assert_eq!(rows[0].applied, 2);
    assert_eq!(active, 1);
}

#[test]
fn scrape_frozen_drain_shows_observed_up_applied_down() {
    let (rows, _) = scrape_pool(&vec![backend("b", Health::Down, Health::Up, false)]);
    assert_eq!(rows[0].observed, 1);
    assert_eq!(rows[0].applied, 2);
    assert!(!rows[0].probe_automatic);
    assert_eq!(rows[0].transitions_total, 3);
}

#[test]
fn cardinality_is_pool_backend_only() {
    let mut stateless = backend("c", Health::Up, Health::Up, true);
    stateless.state = None;
    let mut unparsable = backend("d", Health::Up, Health::Up, true);
    unparsable.address_parses = false;
    let (rows, active) = scrape_pool(&vec![
        backend("a", Health::Up, Health::Unknown, true),
        stateless,
        unparsable,
    ]);
    assert_eq!(rows.len(), 1);
    assert_eq!(rows[0].observed, 0);
    assert_eq!(active, 1);
}
