use conduit_core::clock::Instant;
use conduit_core::lookup::cache::lmdb::{
    interval_millis, shard_file_path, shard_reopen_abandoned_dir, shard_reopen_staging_dir, sidecar_path,
};
use conduit_core::text::decimal;
use conduit_core::lookup::cache::entry::{CacheEntry, EntryKind};
use conduit_core::lookup::cache::key::CacheKey;
use conduit_core::lookup::cache::lmdb::{
    align_map_size, decode_value, encode_entry_at, explicit_requires_abandon, format_record,
    kind_to_u8, on_disk_shard_count, per_shard_map_sizes, per_shard_max_entries,
    resolve_effective_shard_count, shard_index_for_key, stored_to_entry, u8_to_kind,
    verify_format, LayoutError, OnDiskLayout, FORMAT_MAGIC, FORMAT_VERSION, PAGE_SIZE,
    VALUE_HEADER_LEN,
};

const MAX_SHARDS: u32 = 64;

#[test]
fn resolve_explicit_wins() {
    let n = resolve_effective_shard_count(Some(4), OnDiskLayout::Sharded { n: 2 }, 8, MAX_SHARDS).unwrap();
    assert_eq!(n, 4);
}

#[test]
fn resolve_on_disk_when_omit() {
    let n = resolve_effective_shard_count(None, OnDiskLayout::Sharded { n: 4 }, 1, MAX_SHARDS).unwrap();
    assert_eq!(n, 4);
    let legacy = resolve_effective_shard_count(None, OnDiskLayout::Legacy, 8, MAX_SHARDS).unwrap();
    assert_eq!(legacy, 1);
}

#[test]
fn resolve_empty_uses_two_x_threads_and_clamp() {
    let n = resolve_effective_shard_count(None, OnDiskLayout::Empty, 2, MAX_SHARDS).unwrap();
    assert_eq!(n, 4);
    let clamped = resolve_effective_shard_count(None, OnDiskLayout::Empty, 100, MAX_SHARDS).unwrap();
    assert_eq!(clamped, MAX_SHARDS);
    let min = resolve_effective_shard_count(None, OnDiskLayout::Empty, 0, MAX_SHARDS).unwrap();
    assert_eq!(min, 2);
}

#[test]
fn explicit_count_is_clamped_to_the_ceiling() {
    assert_eq!(resolve_effective_shard_count(Some(0), OnDiskLayout::Empty, 1, MAX_SHARDS).unwrap(), 1);
    assert_eq!(resolve_effective_shard_count(Some(1000), OnDiskLayout::Legacy, 1, MAX_SHARDS).unwrap(), MAX_SHARDS);
}

#[test]
fn on_disk_counts_and_abandon_decision() {
    assert_eq!(on_disk_shard_count(OnDiskLayout::Empty), None);
    assert_eq!(on_disk_shard_count(OnDiskLayout::Legacy), Some(1));
    assert_eq!(on_disk_shard_count(OnDiskLayout::Sharded { n: 3 }), Some(3));
    assert!(explicit_requires_abandon(Some(4), OnDiskLayout::Sharded { n: 2 }, MAX_SHARDS));
    assert!(!explicit_requires_abandon(Some(2), OnDiskLayout::Sharded { n: 2 }, MAX_SHARDS));
    assert!(!explicit_requires_abandon(None, OnDiskLayout::Sharded { n: 2 }, MAX_SHARDS));
    assert!(!explicit_requires_abandon(Some(4), OnDiskLayout::Empty, MAX_SHARDS));
}

#[test]
fn map_size_shares_sum_to_aligned_total() {
    let sizes = per_shard_map_sizes(1_000_000_000, 4);
    let sum: usize = sizes.iter().sum();
    assert_eq!(sum, align_map_size(1_000_000_000));
    assert!(sizes.iter().all(|&s| s % 4096 == 0));
}

#[test]
fn max_entries_shares_sum() {
    assert_eq!(per_shard_max_entries(0, 4), vec![0, 0, 0, 0]);
    assert_eq!(per_shard_max_entries(5, 3), vec![2, 2, 1]);
    assert_eq!(per_shard_max_entries(4, 4), vec![1, 1, 1, 1]);
}

#[test]
fn align_map_size_rounds_up_to_pages() {
    assert_eq!(align_map_size(1), PAGE_SIZE);
    assert_eq!(align_map_size(4096), 4096);
    assert_eq!(align_map_size(4097), 8192);
}

#[test]
fn kind_bytes_round_trip() {
    for kind in [EntryKind::Positive, EntryKind::NxDomain, EntryKind::NoData, EntryKind::ServFail] {
        assert_eq!(u8_to_kind(kind_to_u8(kind)).unwrap(), kind);
    }
    assert_eq!(u8_to_kind(9), Err(LayoutError::UnknownKind(9)));
}

#[test]
fn stored_value_round_trips() {
    let now = Instant::from_secs(1_000);
    let entry = CacheEntry {
        kind: EntryKind::NxDomain,
        wire: vec![1, 2, 3, 4, 5],
        filled_at: Instant::from_secs(990),
        expires_at: Instant::from_secs(1_060),
    };
    let raw = encode_entry_at(&entry, now, 5_000);
    assert_eq!(raw.len(), VALUE_HEADER_LEN + 5);
    let stored = decode_value(&raw).unwrap();
    assert_eq!(stored.filled_at_unix, 4_990);
    assert_eq!(stored.expires_at_unix, 5_060);
    assert_eq!(stored.kind, EntryKind::NxDomain);
    assert_eq!(stored.wire, vec![1, 2, 3, 4, 5]);
    // Restored at the same moment, the remaining lifetime carries over.
    let back = stored_to_entry(stored, now, 5_000);
    assert_eq!(back.ttl_remaining_secs(now), 60);
    assert_eq!(back.filled_at, Instant::from_secs(990));
}

#[test]
fn short_and_bad_values_are_rejected() {
    assert_eq!(decode_value(&[0u8; 3]).unwrap_err(), LayoutError::ValueTooShort(3));
    let now = Instant::from_secs(10);
    let entry = CacheEntry { kind: EntryKind::Positive, wire: vec![7; 8], filled_at: now, expires_at: now.plus_secs(5) };
    let mut raw = encode_entry_at(&entry, now, 100);
    raw.truncate(raw.len() - 1);
    assert_eq!(decode_value(&raw).unwrap_err(), LayoutError::WireTruncated);
    let mut bad_kind = encode_entry_at(&entry, now, 100);
    bad_kind[16] = 42;
    assert_eq!(decode_value(&bad_kind).unwrap_err(), LayoutError::UnknownKind(42));
}

#[test]
fn format_record_verifies_and_mismatches_fail() {
    let rec = format_record();
    assert_eq!(&rec[0..4], &FORMAT_MAGIC);
    assert!(verify_format(&rec).is_ok());
    let mut other = rec.clone();
    other[4] = (FORMAT_VERSION + 1) as u8;
    assert_eq!(
        verify_format(&other).unwrap_err(),
        LayoutError::FormatMismatch { found: FORMAT_VERSION + 1, expected: FORMAT_VERSION }
    );
    assert_eq!(verify_format(b"XXXX\x01\x00\x00\x00").unwrap_err(), LayoutError::FormatMagic);
}

#[test]
fn key_routes_stably_to_one_shard() {
    let key = CacheKey(b"stable".to_vec());
    let a = shard_index_for_key(&key, 8);
    let b = shard_index_for_key(&key, 8);
    assert_eq!(a, b);
    assert!(a < 8);
    assert_eq!(shard_index_for_key(&key, 1), 0);
}

#[test]
fn shard_layout_paths() {
    assert_eq!(shard_file_path("/var/cache/durable", 0), "/var/cache/durable/shard-0");
    assert_eq!(shard_file_path("/var/cache/durable/", 17), "/var/cache/durable/shard-17");
    assert_eq!(shard_file_path("", 7), "shard-7");
    assert_eq!(sidecar_path("/data"), "/data/conduit-lmdb-shards.json");
    assert_eq!(shard_reopen_staging_dir("/data/env"), "/data/env.conduit-lmdb-reopen");
    assert_eq!(shard_reopen_abandoned_dir("/data/env"), "/data/env.conduit-lmdb-abandoned");
    assert_eq!(interval_millis(0), 1);
    assert_eq!(interval_millis(250), 250);
}

#[test]
fn decimal_formatting() {
    assert_eq!(decimal(0), "0");
    assert_eq!(decimal(9), "9");
    assert_eq!(decimal(10), "10");
    assert_eq!(decimal(1234567890), "1234567890");
    assert_eq!(decimal(u64::MAX), u64::MAX.to_string());
}
