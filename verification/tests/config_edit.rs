use conduit_core::config_edit::{
    mutate_desired, CacheEntry, ConfigPayloads, ConfigPrimitive, DataSourceEntry, DesiredConfig, EventSinkEntry,
    LmdbHotSection, OrchestratorSection, PrimitiveError, RhaiSection,
};
use conduit_core::net::SockAddr;
use conduit_core::pool_edit::PoolEditError;
use conduit_core::routing::{RouteBackend, RoutePool};

struct Sample;

impl ConfigPayloads for Sample {
    type DataSource = &'static str;
    type DataSourceLimits = u32;
    type SinkFilters = Vec<String>;
    type NegativeCache = bool;
    type OnHit = &'static str;
    type TruncatedUdp = u32;
}

fn backend(last: u8, name: Option<&str>) -> RouteBackend {
    RouteBackend {
        address_text: format!("127.0.0.1:53{last:02}"),
        address: Some(SockAddr::v4(127, 0, 0, 1, 5300 + last as u16)),
        weight: 100,
        name: name.map(|n| n.to_string()),
    }
}

fn sink(name: Option<&str>, export_id: &str) -> EventSinkEntry<Sample> {
    EventSinkEntry {
        name: name.map(|n| n.to_string()),
        export_id: export_id.to_string(),
        filters: None,
        emit: vec!["query".to_string()],
        extra_fields: vec!["client".to_string()],
        extra_tags: vec![],
    }
}

fn cache(name: &str, kind: &str) -> CacheEntry<Sample> {
    CacheEntry {
        name: name.to_string(),
        kind: kind.to_string(),
        max_entries: Some(1000),
        lmdb: None,
        negative_cache: None,
        on_hit: None,
        truncated_udp: None,
        rotate_rrset_on_serve: None,
    }
}

fn desired() -> DesiredConfig<Sample> {
    DesiredConfig {
        pools: vec![RoutePool { name: "primary".into(), backends: vec![backend(0, Some("east")), backend(1, None)] }],
        orchestrator: None,
        data_sources: vec![
            DataSourceEntry { name: "blocklist".into(), definition: "file-a" },
            DataSourceEntry { name: "allowlist".into(), definition: "file-b" },
        ],
        data_source_limits: None,
        events: Some(vec![sink(Some("audit"), "exp-1"), sink(None, "exp-2")]),
        rhai: None,
        caches: vec![cache("mem", "memory"), cache("disk", "lmdb")],
    }
}

#[test]
fn orchestrator_limits_fill_from_absent_section() {
    let mut d = desired();
    let p = ConfigPrimitive::SetOrchestratorLimits { max_attempts: Some(5), max_txn_duration_ms: None };
    assert_eq!(mutate_desired(&mut d, p), Ok(()));
    assert_eq!(d.orchestrator, Some(OrchestratorSection { max_attempts: 5, max_txn_duration_ms: 0 }));
    let p = ConfigPrimitive::SetOrchestratorLimits { max_attempts: None, max_txn_duration_ms: Some(800) };
    assert_eq!(mutate_desired(&mut d, p), Ok(()));
    assert_eq!(d.orchestrator, Some(OrchestratorSection { max_attempts: 5, max_txn_duration_ms: 800 }));
}

#[test]
fn orchestrator_limits_need_a_field() {
    let mut d = desired();
    let p = ConfigPrimitive::SetOrchestratorLimits { max_attempts: None, max_txn_duration_ms: None };
    let e = mutate_desired(&mut d, p).unwrap_err();
    assert_eq!(e, PrimitiveError::OrchestratorLimitsEmpty);
    assert_eq!(e.message("", ""), "SetOrchestratorLimits requires max_attempts and/or max_txn_duration_ms");
    assert_eq!(d.orchestrator, None);
}

#[test]
fn upsert_replaces_by_name_or_appends() {
    let mut d = desired();
    let p = ConfigPrimitive::UpsertDataSource { source: DataSourceEntry { name: "allowlist".into(), definition: "file-c" } };
    assert_eq!(mutate_desired(&mut d, p), Ok(()));
    assert_eq!(d.data_sources.len(), 2);
    assert_eq!(d.data_sources[1].definition, "file-c");
    let p = ConfigPrimitive::UpsertDataSource { source: DataSourceEntry { name: "geo".into(), definition: "file-d" } };
    assert_eq!(mutate_desired(&mut d, p), Ok(()));
    assert_eq!(d.data_sources.len(), 3);
    assert_eq!(d.data_sources[2].name, "geo");
    let p = ConfigPrimitive::UpsertDataSource { source: DataSourceEntry { name: "".into(), definition: "x" } };
    assert_eq!(mutate_desired(&mut d, p), Err(PrimitiveError::DataSourceNameRequired));
}

#[test]
fn remove_data_source_drops_every_match() {
    let mut d = desired();
    d.data_sources.push(DataSourceEntry { name: "blocklist".into(), definition: "file-z" });
    let p = ConfigPrimitive::RemoveDataSource { name: "blocklist".into() };
    assert_eq!(mutate_desired(&mut d, p), Ok(()));
    assert_eq!(d.data_sources.len(), 1);
    assert_eq!(d.data_sources[0].name, "allowlist");
    let p = ConfigPrimitive::RemoveDataSource { name: "blocklist".into() };
    let e = mutate_desired(&mut d, p).unwrap_err();
    assert_eq!(e, PrimitiveError::UnknownDataSource);
    assert_eq!(e.message("blocklist", ""), "unknown data source 'blocklist'");
    assert_eq!(d.data_sources.len(), 1);
}

#[test]
fn data_source_limits_are_set() {
    let mut d = desired();
    assert_eq!(mutate_desired(&mut d, ConfigPrimitive::SetDataSourceLimits { limits: 64 }), Ok(()));
    assert_eq!(d.data_source_limits, Some(64));
}

#[test]
fn sink_filters_found_by_name_or_export_id() {
    let mut d = desired();
    let p = ConfigPrimitive::SetEventSinkFilters { name: "exp-2".into(), filters: vec!["rcode=2".to_string()] };
    assert_eq!(mutate_desired(&mut d, p), Ok(()));
    let sinks = d.events.as_ref().unwrap();
    assert_eq!(sinks[1].filters, Some(vec!["rcode=2".to_string()]));
    assert_eq!(sinks[0].filters, None);
    let p = ConfigPrimitive::SetEventSinkFilters { name: "exp-1".into(), filters: vec![] };
    let e = mutate_desired(&mut d, p).unwrap_err();
    assert_eq!(e, PrimitiveError::UnknownEventSink, "a named sink does not answer to its export id");
    assert_eq!(e.message("exp-1", ""), "unknown event sink 'exp-1'");
}

#[test]
fn sink_edits_need_name_and_section() {
    let mut d = desired();
    let p = ConfigPrimitive::SetEventSinkFilters { name: "".into(), filters: vec![] };
    assert_eq!(mutate_desired(&mut d, p), Err(PrimitiveError::EventSinkNameRequired));
    d.events = None;
    let p = ConfigPrimitive::SetEventSinkFilters { name: "audit".into(), filters: vec![] };
    let e = mutate_desired(&mut d, p).unwrap_err();
    assert_eq!(e, PrimitiveError::NoEventsSection);
    assert_eq!(e.message("audit", ""), "no events section in effective config");
}

#[test]
fn sink_emit_replaces_extras_only_when_set() {
    let mut d = desired();
    let p = ConfigPrimitive::SetEventSinkEmit {
        name: "audit".into(),
        emit: vec!["response".to_string()],
        extra_fields: vec![],
        extra_tags: vec!["env".to_string()],
        extra_fields_set: false,
        extra_tags_set: true,
    };
    assert_eq!(mutate_desired(&mut d, p), Ok(()));
    let s = &d.events.as_ref().unwrap()[0];
    assert_eq!(s.emit, vec!["response".to_string()]);
    assert_eq!(s.extra_fields, vec!["client".to_string()]);
    assert_eq!(s.extra_tags, vec!["env".to_string()]);
}

#[test]
fn rhai_limits_merge_into_section() {
    let mut d = desired();
    d.rhai = Some(RhaiSection { max_operations: 10, max_call_depth: 4, hook_timeout_ms: 50 });
    let p = ConfigPrimitive::SetRhaiLimits { max_operations: None, max_call_depth: Some(8), hook_timeout_ms: None };
    assert_eq!(mutate_desired(&mut d, p), Ok(()));
    assert_eq!(d.rhai, Some(RhaiSection { max_operations: 10, max_call_depth: 8, hook_timeout_ms: 50 }));
    let p = ConfigPrimitive::SetRhaiLimits { max_operations: None, max_call_depth: None, hook_timeout_ms: None };
    let e = mutate_desired(&mut d, p).unwrap_err();
    assert_eq!(
        e.message("", ""),
        "SetRhaiLimits requires at least one of max_operations, max_call_depth, hook_timeout_ms"
    );
}

#[test]
fn cache_max_entries_by_name() {
    let mut d = desired();
    assert_eq!(mutate_desired(&mut d, ConfigPrimitive::SetCacheMaxEntries { name: "disk".into(), max_entries: 5 }), Ok(()));
    assert_eq!(d.caches[1].max_entries, Some(5));
    assert_eq!(d.caches[0].max_entries, Some(1000));
    let e = mutate_desired(&mut d, ConfigPrimitive::SetCacheMaxEntries { name: "tmp".into(), max_entries: 5 }).unwrap_err();
    assert_eq!(e, PrimitiveError::UnknownCache);
    assert_eq!(e.message("tmp", ""), "unknown cache 'tmp'");
    let e = mutate_desired(&mut d, ConfigPrimitive::SetCacheMaxEntries { name: "".into(), max_entries: 5 }).unwrap_err();
    assert_eq!(e.message("", ""), "cache name is required");
}

#[test]
fn lmdb_hot_fields_start_from_defaults() {
    let mut d = desired();
    let p = ConfigPrimitive::SetCacheLmdbHot {
        name: "disk".into(),
        when_full: Some("evict-sample".into()),
        sample_size: None,
        sync: None,
        sync_interval: None,
        map_size_bytes: Some(1 << 30),
    };
    assert_eq!(mutate_desired(&mut d, p), Ok(()));
    let l: &LmdbHotSection = d.caches[1].lmdb.as_ref().unwrap();
    assert_eq!(l.when_full.as_deref(), Some("evict-sample"));
    assert_eq!(l.sample_size, None);
    assert_eq!(l.map_size_bytes, 1 << 30);
}

#[test]
fn lmdb_hot_refused_for_memory_cache() {
    let mut d = desired();
    let p = ConfigPrimitive::SetCacheLmdbHot {
        name: "mem".into(),
        when_full: None,
        sample_size: Some(8),
        sync: None,
        sync_interval: None,
        map_size_bytes: None,
    };
    let e = mutate_desired(&mut d, p).unwrap_err();
    assert_eq!(e, PrimitiveError::NotLmdb);
    assert_eq!(e.message("mem", "memory"), "cache 'mem' type is 'memory' (SetCacheLmdbHot requires lmdb)");
    assert!(d.caches[0].lmdb.is_none());
    let p = ConfigPrimitive::SetCacheLmdbHot {
        name: "nope".into(),
        when_full: None,
        sample_size: None,
        sync: None,
        sync_interval: None,
        map_size_bytes: None,
    };
    assert_eq!(mutate_desired(&mut d, p), Err(PrimitiveError::LmdbHotEmpty), "the field check comes before the lookup");
}

#[test]
fn cache_policy_sets_given_blocks() {
    let mut d = desired();
    let p = ConfigPrimitive::SetCachePolicyHot {
        name: "mem".into(),
        negative_cache: Some(true),
        on_hit: None,
        truncated_udp: Some(30),
        rotate_rrset_on_serve: Some(true),
    };
    assert_eq!(mutate_desired(&mut d, p), Ok(()));
    assert_eq!(d.caches[0].negative_cache, Some(true));
    assert_eq!(d.caches[0].on_hit, None);
    assert_eq!(d.caches[0].truncated_udp, Some(30));
    assert_eq!(d.caches[0].rotate_rrset_on_serve, Some(true));
    let p = ConfigPrimitive::SetCachePolicyHot {
        name: "mem".into(),
        negative_cache: None,
        on_hit: None,
        truncated_udp: None,
        rotate_rrset_on_serve: None,
    };
    let e = mutate_desired(&mut d, p).unwrap_err();
    assert_eq!(e.message("mem", ""), "SetCachePolicyHot requires at least one policy field");
}

#[test]
fn pool_primitives_edit_pools_only() {
    let mut d = desired();
    let p = ConfigPrimitive::SetBackendWeight { pool: "primary".into(), backend: "east".into(), weight: 7 };
    assert_eq!(mutate_desired(&mut d, p), Ok(()));
    assert_eq!(d.pools[0].backends[0].weight, 7);
    assert_eq!(d.data_sources.len(), 2);
    let p = ConfigPrimitive::AddBackend { pool: "primary".into(), backend: backend(1, None) };
    let e = mutate_desired(&mut d, p).unwrap_err();
    assert_eq!(e, PrimitiveError::Pool(PoolEditError::DuplicateBackend));
    assert_eq!(e.message("primary", ""), "pool 'primary' already has a backend matching the add identity");
    let p = ConfigPrimitive::RemoveBackend { pool: "secondary".into(), backend: "east".into() };
    let e = mutate_desired(&mut d, p).unwrap_err();
    assert_eq!(e.message("secondary", "east"), "unknown pool 'secondary'");
}
