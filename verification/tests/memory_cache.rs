use conduit_core::clock::Instant;
use conduit_core::lookup::cache::entry::{CacheEntry, EntryKind};
use conduit_core::lookup::cache::key::CacheKey;
use conduit_core::lookup::cache::memory::{
    entry_from_wire, ttl_for_wire, CacheGetResult, MemoryCacheBackend, MemoryCacheConfig,
    ReapBudget, ReapCursor,
};
use hickory_proto::op::{Message, Query, ResponseCode};
use hickory_proto::rr::{Name, RData, Record, RecordType};
use hickory_proto::serialize::binary::{BinEncodable, BinEncoder};

fn backend(max_entries: u64, shard_count: u32) -> MemoryCacheBackend {
    MemoryCacheBackend::from_config(&MemoryCacheConfig { shard_count, max_entries })
}

fn test_instance(max_entries: u64) -> MemoryCacheBackend {
    backend(max_entries, 4)
}

fn encode(msg: &Message) -> Vec<u8> {
    let mut buf = Vec::new();
    let mut enc = BinEncoder::new(&mut buf);
    msg.emit(&mut enc).unwrap();
    buf
}

fn a_answer(qname: &str, ttl: u32, ip: [u8; 4]) -> Vec<u8> {
    let name = Name::from_utf8(qname).unwrap();
    let mut msg = Message::new();
    msg.add_query(Query::query(name.clone(), RecordType::A));
    msg.add_answer(Record::from_rdata(
        name,
        ttl,
        RData::A(hickory_proto::rr::rdata::A::new(ip[0], ip[1], ip[2], ip[3])),
    ));
    encode(&msg)
}

fn sample_wire() -> Vec<u8> {
    a_answer("example.com.", 120, [1, 2, 3, 4])
}

fn stale_entry(now: Instant) -> CacheEntry {
    CacheEntry {
        kind: EntryKind::Positive,
        wire: sample_wire(),
        filled_at: now.minus_secs(60),
        expires_at: now.minus_secs(1),
    }
}

#[test]
fn hit_and_miss() {
    let mut backend = test_instance(0);
    let key = CacheKey(b"test-key".to_vec());
    let now = Instant::now();
    assert_eq!(backend.get_result(&key, now), CacheGetResult::Miss);

    let wire = sample_wire();
    let entry = entry_from_wire(wire.clone(), true, 10, now).unwrap();
    backend.insert(key.clone(), entry, now);
    assert_eq!(backend.get_result(&key, now), CacheGetResult::Hit);
    assert_eq!(backend.get(&key, now).unwrap().wire, wire);

    assert!(backend.remove(&key));
    assert_eq!(backend.get_result(&key, now), CacheGetResult::Miss);
    assert!(!backend.remove(&key));
}

#[test]
fn distinct_keys_same_hash_bucket_coexist() {
    let mut backend = test_instance(0);
    let now = Instant::now();
    let k1 = CacheKey(b"key-alpha".to_vec());
    let k2 = CacheKey(b"key-beta".to_vec());
    let w1 = sample_wire();
    let mut w2 = sample_wire();
    w2[0] ^= 0xff;

    backend.insert(k1.clone(), entry_from_wire(w1.clone(), true, 10, now).unwrap(), now);
    backend.insert(k2.clone(), entry_from_wire(w2.clone(), true, 10, now).unwrap(), now);

    assert_eq!(backend.get(&k1, now).unwrap().wire, w1);
    assert_eq!(backend.get(&k2, now).unwrap().wire, w2);
}

#[test]
fn ttl_expiry() {
    let mut backend = test_instance(0);
    let key = CacheKey(b"expiring".to_vec());
    let now = Instant::now();
    let entry = CacheEntry {
        kind: EntryKind::Positive,
        wire: sample_wire(),
        filled_at: now.minus_secs(3600),
        expires_at: now.minus_secs(1),
    };
    backend.insert(key.clone(), entry, now);
    assert_eq!(backend.get_result(&key, now), CacheGetResult::Miss);
}

#[test]
fn reap_expired_removes_stale_leaves_fresh() {
    let mut backend = test_instance(0);
    let now = Instant::now();
    let fresh_key = CacheKey(b"fresh".to_vec());
    let stale_key = CacheKey(b"stale".to_vec());
    backend.insert(fresh_key.clone(), entry_from_wire(sample_wire(), true, 10, now).unwrap(), now);
    backend.insert(stale_key.clone(), stale_entry(now), now);
    assert_eq!(backend.entry_count(), 2);

    let removed = backend.reap_expired(now);
    assert_eq!(removed, 1);
    assert_eq!(backend.entry_count(), 1);
    assert_eq!(backend.get_result(&fresh_key, now), CacheGetResult::Hit);
    assert_eq!(backend.get_result(&stale_key, now), CacheGetResult::Miss);
}

#[test]
fn reap_budget_limits_removals_per_lock_and_resumes_same_shard() {
    let mut backend = backend(0, 1);
    let now = Instant::now();
    for i in 0..5 {
        backend.insert(CacheKey(format!("stale-{i}").into_bytes()), stale_entry(now), now);
    }
    assert_eq!(backend.entry_count(), 5);

    let budget = ReapBudget { max_lock_hold_nanos: 60_000_000_000, max_keys_per_lock: 2 };
    let mut cursor = ReapCursor::default();
    let first = backend.reap_expired_budgeted(now, budget, &mut cursor);
    assert_eq!(first.removed, 2);
    assert!(first.incomplete);
    assert_eq!(cursor.next_shard, 0);
    assert_eq!(backend.entry_count(), 3);

    let second = backend.reap_expired_budgeted(now, budget, &mut cursor);
    assert_eq!(second.removed, 2);
    assert!(second.incomplete);
    assert_eq!(backend.entry_count(), 1);

    let third = backend.reap_expired_budgeted(now, budget, &mut cursor);
    assert_eq!(third.removed, 1);
    assert!(!third.incomplete);
    assert_eq!(backend.entry_count(), 0);
}

#[test]
fn reap_budget_advances_cursor_across_shards() {
    let mut backend = backend(0, 2);
    let now = Instant::now();
    for i in 0..32 {
        backend.insert(CacheKey(format!("stale-{i}").into_bytes()), stale_entry(now), now);
    }
    let before = backend.entry_count();
    assert!(before > 0);

    let budget = ReapBudget::unbounded();
    let mut cursor = ReapCursor { next_shard: 0 };
    let outcome = backend.reap_expired_budgeted(now, budget, &mut cursor);
    assert!(!outcome.incomplete);
    assert_eq!(outcome.removed, before);
    assert_eq!(backend.entry_count(), 0);
    assert_eq!(cursor.next_shard, 0, "full ring restores start shard");
}

#[test]
fn zero_answer_ttl_is_not_cached() {
    let wire = a_answer("zero-ttl.example.com.", 0, [192, 0, 2, 1]);
    assert!(entry_from_wire(wire, true, 10, Instant::now()).is_none());
}

#[test]
fn insert_with_max_entries_does_not_deadlock() {
    let mut backend = test_instance(100);
    let key = CacheKey(b"bounded-cache-key".to_vec());
    let now = Instant::now();
    let entry = entry_from_wire(sample_wire(), true, 10, now).unwrap();
    backend.insert(key.clone(), entry, now);
    assert_eq!(backend.get_result(&key, now), CacheGetResult::Hit);
    assert_eq!(backend.entry_count(), 1);
}

#[test]
fn set_max_entries_lowers_cap_and_trims_live_entries() {
    let mut backend = test_instance(0);
    let now = Instant::now();
    for i in 0..5 {
        let key = CacheKey(format!("key-{i}").into_bytes());
        backend.insert(key, entry_from_wire(sample_wire(), true, 10, now).unwrap(), now);
    }
    assert_eq!(backend.entry_count(), 5);

    backend.set_max_entries(2);
    assert_eq!(backend.max_entries(), 2);
    assert_eq!(backend.entry_count(), 2);
}

#[test]
fn set_max_entries_raise_does_not_evict() {
    let mut backend = test_instance(2);
    let now = Instant::now();
    for i in 0..2 {
        let key = CacheKey(format!("key-{i}").into_bytes());
        backend.insert(key, entry_from_wire(sample_wire(), true, 10, now).unwrap(), now);
    }
    assert_eq!(backend.entry_count(), 2);

    backend.set_max_entries(100);
    assert_eq!(backend.entry_count(), 2);
}

#[test]
fn servfail_knob_zero_disables_storage() {
    let mut msg = Message::new();
    msg.set_response_code(ResponseCode::ServFail);
    let wire = encode(&msg);
    assert!(entry_from_wire(wire.clone(), true, 0, Instant::now()).is_none());
    assert!(entry_from_wire(wire, true, 10, Instant::now()).is_some());
}

#[test]
fn ttl_defaults_and_negative_policy() {
    let now = Instant::from_secs(100);
    // Positive answer: the smallest record TTL.
    let wire = a_answer("example.com.", 120, [1, 2, 3, 4]);
    assert_eq!(ttl_for_wire(&wire, EntryKind::Positive, true, 10), Some(120));
    let e = entry_from_wire(wire, true, 10, now).unwrap();
    assert_eq!(e.kind, EntryKind::Positive);
    assert_eq!(e.filled_at, now);
    assert_eq!(e.expires_at, Instant::from_secs(220));
    // NODATA without records: 300 s when negative caching is on, else not stored.
    let nodata = encode(&Message::new());
    assert_eq!(ttl_for_wire(&nodata, EntryKind::NoData, true, 10), Some(300));
    assert_eq!(ttl_for_wire(&nodata, EntryKind::NoData, false, 10), None);
    assert_eq!(entry_from_wire(nodata, true, 10, now).unwrap().kind, EntryKind::NoData);
    // Garbage does not decode.
    assert_eq!(ttl_for_wire(&[1, 2, 3], EntryKind::Positive, true, 10), None);
}

#[test]
fn full_cache_evicts_one_entry_of_the_shard() {
    let mut backend = backend(1, 1);
    let now = Instant::now();
    let k1 = CacheKey(b"one".to_vec());
    let k2 = CacheKey(b"two".to_vec());
    backend.insert(k1.clone(), entry_from_wire(sample_wire(), true, 10, now).unwrap(), now);
    backend.insert(k2.clone(), entry_from_wire(sample_wire(), true, 10, now).unwrap(), now);
    assert_eq!(backend.entry_count(), 1);
    assert_eq!(backend.get_result(&k2, now), CacheGetResult::Hit);
    assert_eq!(backend.get_result(&k1, now), CacheGetResult::Miss);
    assert_eq!(backend.shard_count(), 1);
}

#[test]
fn zero_shards_configured_means_one() {
    let backend = backend(0, 0);
    assert_eq!(backend.shard_count(), 1);
    assert_eq!(backend.entry_count(), 0);
}
