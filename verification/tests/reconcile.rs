use conduit_core::lookup::cache::reconcile::{
    lmdb_explicit_shard_reopen_needed, plan_reconcile, preflight_open, CacheBackendKind, CacheInstanceSettings,
    LiveInstance, LiveLmdb, LmdbSettings, MapSizeChange, PreflightOpen,
};

const MAX_SHARDS: u32 = 64;

fn memory(max_entries: u64) -> CacheInstanceSettings {
    CacheInstanceSettings { backend: CacheBackendKind::Memory, max_entries, lmdb: None }
}

fn lmdb(path: &str, shard_count: Option<u32>, map_size_bytes: u64) -> CacheInstanceSettings {
    CacheInstanceSettings {
        backend: CacheBackendKind::Lmdb,
        max_entries: 1024,
        lmdb: Some(LmdbSettings { path: path.to_string(), shard_count, map_size_bytes }),
    }
}

fn live_lmdb(settings: CacheInstanceSettings, legacy_layout: bool, shard_count: usize, map: u64) -> LiveInstance {
    LiveInstance { settings, lmdb: Some(LiveLmdb { legacy_layout, shard_count, map_size_bytes: map }) }
}

#[test]
fn lowers_max_entries_in_place() {
    let prev = vec![("global".to_string(), memory(100))];
    let new = vec![("global".to_string(), memory(10))];
    let live = vec![("global".to_string(), LiveInstance { settings: memory(100), lmdb: None })];
    let plan = plan_reconcile(&prev, &new, &live, MAX_SHARDS);
    assert!(plan.opens.is_empty());
    assert_eq!(plan.hot.len(), 1);
    assert_eq!(plan.hot[0].name, "global");
    assert_eq!(plan.hot[0].max_entries, Some(10));
    assert!(!plan.hot[0].lmdb_policy);
    assert_eq!(plan.hot[0].map_size, MapSizeChange::Keep);
    assert!(plan.removals.is_empty());
}

#[test]
fn unchanged_max_entries_is_not_reapplied() {
    let prev = vec![("global".to_string(), memory(100))];
    let new = vec![("global".to_string(), memory(100))];
    let live = vec![("global".to_string(), LiveInstance { settings: memory(100), lmdb: None })];
    let plan = plan_reconcile(&prev, &new, &live, MAX_SHARDS);
    assert_eq!(plan.hot[0].max_entries, None);
}

#[test]
fn adds_new_instance_and_drops_removed_one() {
    let prev = vec![("global".to_string(), memory(100)), ("old".to_string(), memory(5))];
    let new = vec![("global".to_string(), memory(100)), ("regional".to_string(), memory(50))];
    let live = vec![
        ("global".to_string(), LiveInstance { settings: memory(100), lmdb: None }),
        ("old".to_string(), LiveInstance { settings: memory(5), lmdb: None }),
    ];
    let plan = plan_reconcile(&prev, &new, &live, MAX_SHARDS);
    assert_eq!(plan.opens, vec![("regional".to_string(), PreflightOpen::Replace)]);
    assert_eq!(plan.hot.len(), 1);
    assert_eq!(plan.hot[0].name, "global");
    assert_eq!(plan.removals, vec!["old".to_string()]);
}

#[test]
fn lmdb_path_or_type_change_replaces_backend() {
    let old = lmdb("/var/cache/a", None, 1 << 20);
    let live = vec![("durable".to_string(), live_lmdb(old.clone(), false, 4, 1 << 20))];
    let prev = vec![("durable".to_string(), old)];
    let moved = vec![("durable".to_string(), lmdb("/var/cache/b", None, 1 << 20))];
    let plan = plan_reconcile(&prev, &moved, &live, MAX_SHARDS);
    assert_eq!(plan.opens, vec![("durable".to_string(), PreflightOpen::Replace)]);
    assert!(plan.hot.is_empty());
    let to_memory = vec![("durable".to_string(), memory(1024))];
    let plan = plan_reconcile(&prev, &to_memory, &live, MAX_SHARDS);
    assert_eq!(plan.opens, vec![("durable".to_string(), PreflightOpen::Replace)]);
}

#[test]
fn lmdb_map_size_grow_and_shrink_in_place() {
    let cur = lmdb("/var/cache/a", None, 1 << 20);
    let live = vec![("durable".to_string(), live_lmdb(cur.clone(), false, 4, 1 << 20))];
    let prev = vec![("durable".to_string(), cur)];
    let grow = vec![("durable".to_string(), lmdb("/var/cache/a", None, 1 << 21))];
    let plan = plan_reconcile(&prev, &grow, &live, MAX_SHARDS);
    assert!(plan.hot[0].lmdb_policy);
    assert_eq!(plan.hot[0].map_size, MapSizeChange::Grow(1 << 21));
    let shrink = vec![("durable".to_string(), lmdb("/var/cache/a", None, 1 << 19))];
    let plan = plan_reconcile(&prev, &shrink, &live, MAX_SHARDS);
    assert_eq!(plan.hot[0].map_size, MapSizeChange::Shrink(1 << 19));
}

#[test]
fn lmdb_shard_count_change_reopens_layout() {
    let cur = lmdb("/var/cache/a", Some(4), 1 << 20);
    let live = vec![("durable".to_string(), live_lmdb(cur.clone(), false, 4, 1 << 20))];
    let prev = vec![("durable".to_string(), cur)];
    let new = vec![("durable".to_string(), lmdb("/var/cache/a", Some(8), 1 << 20))];
    let plan = plan_reconcile(&prev, &new, &live, MAX_SHARDS);
    assert_eq!(plan.opens, vec![("durable".to_string(), PreflightOpen::ShardReopen)]);
    assert!(plan.hot.is_empty());
}

#[test]
fn omitted_shard_count_keeps_live_layout() {
    let cur = lmdb("/var/cache/a", Some(32), 1 << 20);
    let live = vec![("durable".to_string(), live_lmdb(cur.clone(), false, 32, 1 << 20))];
    let prev = vec![("durable".to_string(), cur)];
    let new = vec![("durable".to_string(), lmdb("/var/cache/a", None, 1 << 20))];
    let plan = plan_reconcile(&prev, &new, &live, MAX_SHARDS);
    assert!(plan.opens.is_empty());
    assert_eq!(plan.hot.len(), 1);
}

#[test]
fn explicit_shard_reopen_rules() {
    let want = |n| lmdb("/p", n, 1);
    let sharded = |n| Some(LiveLmdb { legacy_layout: false, shard_count: n, map_size_bytes: 1 });
    let legacy = Some(LiveLmdb { legacy_layout: true, shard_count: 1, map_size_bytes: 1 });
    assert!(!lmdb_explicit_shard_reopen_needed(&want(None), &sharded(4), MAX_SHARDS));
    assert!(!lmdb_explicit_shard_reopen_needed(&want(Some(4)), &sharded(4), MAX_SHARDS));
    assert!(lmdb_explicit_shard_reopen_needed(&want(Some(2)), &sharded(4), MAX_SHARDS));
    assert!(!lmdb_explicit_shard_reopen_needed(&want(Some(500)), &sharded(64), MAX_SHARDS));
    assert!(!lmdb_explicit_shard_reopen_needed(&want(Some(0)), &sharded(1), MAX_SHARDS));
    assert!(!lmdb_explicit_shard_reopen_needed(&want(Some(1)), &legacy, MAX_SHARDS));
    assert!(lmdb_explicit_shard_reopen_needed(&want(Some(2)), &legacy, MAX_SHARDS));
    assert!(!lmdb_explicit_shard_reopen_needed(&memory(1), &sharded(4), MAX_SHARDS));
    assert!(!lmdb_explicit_shard_reopen_needed(&want(Some(2)), &None, MAX_SHARDS));
}

#[test]
fn preflight_for_unregistered_name_is_replace() {
    assert_eq!(preflight_open(&memory(1), None, MAX_SHARDS), PreflightOpen::Replace);
    let inst = LiveInstance { settings: memory(1), lmdb: None };
    assert_eq!(preflight_open(&memory(2), Some(&inst), MAX_SHARDS), PreflightOpen::Keep);
}
