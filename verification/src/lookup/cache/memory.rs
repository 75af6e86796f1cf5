//! Sharded in-memory answer cache: the key hash picks a shard, full key
//! equality finds the entry inside it.

use vstd::prelude::*;
use super::entry::{CacheEntry, EntryKind, expires_at_from_ttl, spec_kind_from_rcode};
use super::response::{spec_response_summary, summarize_response};
use crate::clock::spec_plus_secs;
use super::key::CacheKey;
use super::lmdb::{shard_index_for_key, spec_default_hash};
use super::shard::{
    entry_for, evict_one_entry, find_entry, fresh_at, holds_key, put_entry, reap_stale, retain_fresh,
    take_at, unique_keys,
};
use crate::clock::Instant;

verus! {

/// Bounds for one shard pass of the active reaper.
#[derive(Debug, Clone, Copy, PartialEq, Eq, Structural)]
pub struct ReapBudget {
    /// Longest time, in nanoseconds, one shard pass may take.
    pub max_lock_hold_nanos: u64,
    /// Most expired entries one shard pass removes.
    pub max_keys_per_lock: usize,
}

impl ReapBudget {
    /// Production defaults for the active reaper: one millisecond and at
    /// most 1024 removals per shard pass.
    pub fn default_budget() -> (r: ReapBudget)
        ensures
            r.max_lock_hold_nanos == 1_000_000,
            r.max_keys_per_lock == 1024,
    {
        ReapBudget { max_lock_hold_nanos: 1_000_000, max_keys_per_lock: 1024 }
    }

    /// Effectively unbounded: an hour per shard and no removal cap.
    pub fn unbounded() -> (r: ReapBudget)
        ensures
            r.max_lock_hold_nanos == 3_600_000_000_000,
            r.max_keys_per_lock == usize::MAX,
    {
        ReapBudget { max_lock_hold_nanos: 3_600_000_000_000, max_keys_per_lock: usize::MAX }
    }
}

/// Round-robin resume point across shards between reaper ticks.
#[derive(Debug, Clone, Copy, PartialEq, Eq, Structural)]
pub struct ReapCursor {
    pub next_shard: usize,
}

impl Default for ReapCursor {
    fn default() -> (r: ReapCursor)
        ensures
            r.next_shard == 0,
    {
        ReapCursor { next_shard: 0 }
    }
}

/// Result of one budgeted reap pass over the backend.
#[derive(Debug, Clone, Copy, PartialEq, Eq, Structural)]
pub struct ReapOutcome {
    pub removed: u64,
    /// A shard pass ran out of budget before finishing that shard; the next
    /// pass resumes at `cursor.next_shard`.
    pub incomplete: bool,
}

/// What a cache read found.
#[derive(Debug, Clone, Copy, PartialEq, Eq, Structural)]
pub enum CacheGetResult {
    Hit,
    Miss,
    Expired,
}

/// The settings the in-memory backend is built from.
#[derive(Debug, Clone, Copy, PartialEq, Eq, Structural)]
pub struct MemoryCacheConfig {
    pub shard_count: u32,
    /// Entry cap; `0` means unbounded.
    pub max_entries: u64,
}

/// The shard a key routes to among `n`.
pub open spec fn spec_route(k: Seq<u8>, n: usize) -> int {
    ((spec_default_hash(k) as usize) % n) as int
}

/// Number of entries over all shards.
pub open spec fn spec_total(s: Seq<Vec<(CacheKey, CacheEntry)>>) -> nat
    decreases s.len(),
{
    if s.len() == 0 {
        0
    } else {
        spec_total(s.drop_last()) + s.last()@.len()
    }
}

/// `n` capped at `u64::MAX`.
pub open spec fn spec_saturate(n: int) -> u64 {
    if n > u64::MAX {
        u64::MAX
    } else {
        n as u64
    }
}

pub proof fn lemma_total_update(s: Seq<Vec<(CacheKey, CacheEntry)>>, i: int, v: Vec<(CacheKey, CacheEntry)>)
    requires
        0 <= i < s.len(),
    ensures
        spec_total(s.update(i, v)) == spec_total(s) - s[i]@.len() + v@.len(),
    decreases s.len(),
{
    let u = s.update(i, v);
    if i == s.len() - 1 {
        assert(u.drop_last() =~= s.drop_last());
    } else {
        lemma_total_update(s.drop_last(), i, v);
        assert(u.drop_last() =~= s.drop_last().update(i, v));
    }
}

pub proof fn lemma_total_prefix(s: Seq<Vec<(CacheKey, CacheEntry)>>, i: int)
    requires
        0 <= i < s.len(),
    ensures
        spec_total(s.subrange(0, i + 1)) == spec_total(s.subrange(0, i)) + s[i]@.len(),
{
    assert(s.subrange(0, i + 1).drop_last() =~= s.subrange(0, i));
}

/// Sharded in-memory answer cache.
pub struct MemoryCacheBackend {
    shard_count: usize,
    max_entries: u64,
    shards: Vec<Vec<(CacheKey, CacheEntry)>>,
}

impl MemoryCacheBackend {
    /// At least one shard; each shard has unique keys, and every key sits in
    /// the shard its hash routes to.
    pub closed spec fn wf(&self) -> bool {
        &&& self.shard_count >= 1
        &&& self.shards@.len() == self.shard_count
        &&& forall|i: int| 0 <= i < self.shards@.len() ==> unique_keys(#[trigger] self.shards@[i]@)
        &&& forall|i: int, j: int|
            0 <= i < self.shards@.len() && 0 <= j < self.shards@[i]@.len() ==> spec_route(
                #[trigger] self.shards@[i]@[j].0@,
                self.shard_count,
            ) == i
    }

    /// The entry stored under `k`, looked up in the shard `k` routes to.
    pub closed spec fn spec_entry(&self, k: Seq<u8>) -> Option<(EntryKind, Seq<u8>, Instant, Instant)> {
        entry_for(self.shards@[spec_route(k, self.shard_count)]@, k)
    }

    /// Number of stored entries.
    pub closed spec fn spec_len(&self) -> nat {
        spec_total(self.shards@)
    }

    pub closed spec fn spec_max_entries(&self) -> u64 {
        self.max_entries
    }

    pub closed spec fn spec_shard_count(&self) -> usize {
        self.shard_count
    }
}

impl View for MemoryCacheBackend {
    type V = Map<Seq<u8>, (EntryKind, Seq<u8>, Instant, Instant)>;

    open spec fn view(&self) -> Map<Seq<u8>, (EntryKind, Seq<u8>, Instant, Instant)> {
        Map::new(|k: Seq<u8>| self.spec_entry(k) is Some, |k: Seq<u8>| self.spec_entry(k)->0)
    }
}

impl MemoryCacheBackend {
    /// An empty cache with `max(1, shard_count)` shards and the given cap.
    pub fn from_config(cfg: &MemoryCacheConfig) -> (r: MemoryCacheBackend)
        ensures
            r.wf(),
            r@ == Map::<Seq<u8>, (EntryKind, Seq<u8>, Instant, Instant)>::empty(),
            r.spec_len() == 0,
            r.spec_max_entries() == cfg.max_entries,
            r.spec_shard_count() == if cfg.shard_count == 0 {
                1
            } else {
                cfg.shard_count as usize
            },
    {
        let shard_count: usize = if cfg.shard_count == 0 {
            1
        } else {
            cfg.shard_count as usize
        };
        let mut shards: Vec<Vec<(CacheKey, CacheEntry)>> = Vec::new();
        let mut i: usize = 0;
        while i < shard_count
            invariant
                i <= shard_count,
                shards@.len() == i,
                forall|j: int| 0 <= j < i ==> (#[trigger] shards@[j])@.len() == 0,
                spec_total(shards@) == 0,
            decreases shard_count - i,
        {
            let ghost before = shards@;
            shards.push(Vec::new());
            proof {
                assert(shards@.drop_last() =~= before);
            }
            i += 1;
        }
        let r = MemoryCacheBackend { shard_count, max_entries: cfg.max_entries, shards };
        proof {
            assert(r@ =~= Map::<Seq<u8>, (EntryKind, Seq<u8>, Instant, Instant)>::empty());
        }
        r
    }

    pub fn max_entries(&self) -> (r: u64)
        ensures
            r == self.spec_max_entries(),
    {
        self.max_entries
    }

    pub fn shard_count(&self) -> (r: usize)
        ensures
            r == self.spec_shard_count(),
    {
        self.shard_count
    }

    fn shard_index(&self, key: &CacheKey) -> (r: usize)
        requires
            self.wf(),
        ensures
            r as int == spec_route(key@, self.shard_count),
            r < self.shards@.len(),
    {
        shard_index_for_key(key, self.shard_count)
    }

    /// A copy of the entry under `key` when it is still fresh at `now`.
    pub fn get(&self, key: &CacheKey, now: Instant) -> (r: Option<CacheEntry>)
        requires
            self.wf(),
        ensures
            r is Some <==> (self@.contains_key(key@) && fresh_at(self@[key@], now)),
            r matches Some(e) ==> e@ == self@[key@],
            match r {
                Some(e) => spec_read(self@, key@, now) == Some(e@),
                None => spec_read(self@, key@, now) is None,
            },
    {
        let idx = self.shard_index(key);
        let shard = &self.shards[idx];
        match find_entry(shard, key) {
            Some(i) => {
                if shard[i].1.is_fresh(now) {
                    Some(shard[i].1.clone())
                } else {
                    None
                }
            },
            None => None,
        }
    }

    /// `Hit` when a fresh entry is stored under `key`, otherwise `Miss`.
    pub fn get_result(&self, key: &CacheKey, now: Instant) -> (r: CacheGetResult)
        requires
            self.wf(),
        ensures
            r == if self@.contains_key(key@) && fresh_at(self@[key@], now) {
                CacheGetResult::Hit
            } else {
                CacheGetResult::Miss
            },
    {
        let idx = self.shard_index(key);
        let shard = &self.shards[idx];
        match find_entry(shard, key) {
            Some(i) => {
                if shard[i].1.is_fresh(now) {
                    CacheGetResult::Hit
                } else {
                    CacheGetResult::Miss
                }
            },
            None => CacheGetResult::Miss,
        }
    }

    /// Number of stored entries (capped at `u64::MAX`).
    pub fn entry_count(&self) -> (r: u64)
        ensures
            r == spec_saturate(self.spec_len() as int),
    {
        let mut sum: u64 = 0;
        let mut i: usize = 0;
        while i < self.shards.len()
            invariant
                i <= self.shards@.len(),
                sum == spec_saturate(spec_total(self.shards@.subrange(0, i as int)) as int),
            decreases self.shards@.len() - i,
        {
            proof {
                lemma_total_prefix(self.shards@, i as int);
            }
            sum = sum.saturating_add(self.shards[i].len() as u64);
            i += 1;
        }
        proof {
            assert(self.shards@.subrange(0, i as int) =~= self.shards@);
        }
        sum
    }

    /// Remove the entry under `key`; `true` when one was stored.
    pub fn remove(&mut self, key: &CacheKey) -> (r: bool)
        requires
            old(self).wf(),
        ensures
            final(self).wf(),
            r == old(self)@.contains_key(key@),
            final(self)@ == old(self)@.remove(key@),
            final(self).spec_len() == old(self).spec_len() - if r {
                1int
            } else {
                0int
            },
            final(self).spec_max_entries() == old(self).spec_max_entries(),
            final(self).spec_shard_count() == old(self).spec_shard_count(),
    {
        let idx = self.shard_index(key);
        match find_entry(&self.shards[idx], key) {
            Some(i) => {
                let ghost before = self.shards@;
                let _ = take_at(&mut self.shards[idx], i);
                proof {
                    let n = self.shard_count;
                    lemma_total_update(before, idx as int, self.shards@[idx as int]);
                    assert(self.shards@ == before.update(idx as int, self.shards@[idx as int]));
                    assert forall|a: int, b: int|
                        0 <= a < self.shards@.len() && 0 <= b < self.shards@[a]@.len() implies spec_route(
                        #[trigger] self.shards@[a]@[b].0@,
                        n,
                    ) == a by {
                        if a == idx as int {
                            let ob = if b < i { b } else { b + 1 };
                            assert(self.shards@[a]@[b] == before[a]@[ob]);
                        }
                    }
                    assert(self@ =~= old(self)@.remove(key@));
                }
                true
            },
            None => {
                proof {
                    assert(self@ =~= old(self)@.remove(key@));
                }
                false
            },
        }
    }
}

/// `k` maps to an entry fresh at `now` in `a` and is absent from `b`.
pub open spec fn dropped_fresh(
    a: Map<Seq<u8>, (EntryKind, Seq<u8>, Instant, Instant)>,
    b: Map<Seq<u8>, (EntryKind, Seq<u8>, Instant, Instant)>,
    k: Seq<u8>,
    now: Instant,
) -> bool {
    a.contains_key(k) && fresh_at(a[k], now) && !b.contains_key(k)
}

/// `k` held a fresh entry in `a` and holds none in `b`.
pub open spec fn lost_fresh(a: MemoryCacheBackend, b: MemoryCacheBackend, k: Seq<u8>, now: Instant) -> bool {
    &&& a.spec_entry(k) is Some
    &&& fresh_at(a.spec_entry(k)->0, now)
    &&& b.spec_entry(k) is None
}

/// Keys drawn from a shard whose keys all route to `idx` route there too.
proof fn lemma_members_route(o: Seq<(CacheKey, CacheEntry)>, t: Seq<(CacheKey, CacheEntry)>, idx: int, n: usize)
    requires
        forall|j: int| 0 <= j < o.len() ==> spec_route((#[trigger] o[j]).0@, n) == idx,
        forall|j: int| 0 <= j < t.len() ==> holds_key(o, (#[trigger] t[j]).0@),
    ensures
        forall|j: int| 0 <= j < t.len() ==> spec_route((#[trigger] t[j]).0@, n) == idx,
{
    assert forall|j: int| 0 <= j < t.len() implies spec_route((#[trigger] t[j]).0@, n) == idx by {
        assert(holds_key(o, t[j].0@));
        let m = choose|m: int| 0 <= m < o.len() && #[trigger] o[m].0@ == t[j].0@;
        assert(spec_route(o[m].0@, n) == idx);
    }
}

/// Replacing one shard by a well-formed one keeps the backend well formed
/// and changes only the keys that route to that shard.
proof fn lemma_shard_replaced(a: MemoryCacheBackend, b: MemoryCacheBackend, idx: int)
    requires
        a.wf(),
        0 <= idx < a.shards@.len(),
        b.shard_count == a.shard_count,
        b.max_entries == a.max_entries,
        b.shards@ == a.shards@.update(idx, b.shards@[idx]),
        unique_keys(b.shards@[idx]@),
        forall|j: int|
            0 <= j < b.shards@[idx]@.len() ==> spec_route((#[trigger] b.shards@[idx]@[j]).0@, a.shard_count)
                == idx,
    ensures
        b.wf(),
        b.spec_len() == a.spec_len() - a.shards@[idx]@.len() + b.shards@[idx]@.len(),
        forall|k: Seq<u8>| #[trigger]
            b.spec_entry(k) == if spec_route(k, a.shard_count) == idx {
                entry_for(b.shards@[idx]@, k)
            } else {
                a.spec_entry(k)
            },
{
    lemma_total_update(a.shards@, idx, b.shards@[idx]);
    assert forall|i: int| 0 <= i < b.shards@.len() implies unique_keys(#[trigger] b.shards@[i]@) by {
        if i != idx {
            assert(b.shards@[i] == a.shards@[i]);
        }
    }
    assert forall|i: int, j: int|
        0 <= i < b.shards@.len() && 0 <= j < b.shards@[i]@.len() implies spec_route(
        #[trigger] b.shards@[i]@[j].0@,
        b.shard_count,
    ) == i by {
        if i != idx {
            assert(b.shards@[i] == a.shards@[i]);
        }
    }
}

impl MemoryCacheBackend {
    /// Drop the stale entries of shard `idx`, then, when the cache holds at
    /// least `max_entries`, evict one entry of that shard.
    fn evict_if_needed(&mut self, idx: usize, now: Instant)
        requires
            old(self).wf(),
            idx < old(self).shards@.len(),
            old(self).max_entries > 0,
        ensures
            final(self).wf(),
            final(self).max_entries == old(self).max_entries,
            final(self).shard_count == old(self).shard_count,
            final(self).spec_len() <= old(self).spec_len(),
            forall|k: Seq<u8>|
                spec_route(k, old(self).shard_count) != idx ==> #[trigger] final(self).spec_entry(k)
                    == old(self).spec_entry(k),
            forall|k: Seq<u8>| #[trigger]
                final(self).spec_entry(k) is Some ==> final(self).spec_entry(k) == old(self).spec_entry(k),
            forall|k: Seq<u8>|
                spec_route(k, old(self).shard_count) == idx && (old(self).spec_entry(k) matches Some(e)
                    && !fresh_at(e, now)) ==> (#[trigger] final(self).spec_entry(k)) is None,
            forall|k1: Seq<u8>, k2: Seq<u8>|
                #[trigger] lost_fresh(*old(self), *final(self), k1, now) && #[trigger] lost_fresh(
                    *old(self),
                    *final(self),
                    k2,
                    now,
                ) ==> k1 == k2,
            forall|k: Seq<u8>|
                #[trigger] lost_fresh(*old(self), *final(self), k, now) ==> spec_saturate(
                    old(self).spec_len() as int,
                ) >= old(self).max_entries,
    {
        let ghost s0 = *self;
        let ghost n = self.shard_count;
        retain_fresh(&mut self.shards[idx], now);
        proof {
            lemma_members_route(s0.shards@[idx as int]@, self.shards@[idx as int]@, idx as int, n);
            lemma_shard_replaced(s0, *self, idx as int);
        }
        let ghost s1 = *self;
        let total = self.entry_count();
        if total < self.max_entries {
            return;
        }
        let victim = evict_one_entry(&mut self.shards[idx], now);
        proof {
            let t = s1.shards@[idx as int]@;
            assert forall|j: int| 0 <= j < self.shards@[idx as int]@.len() implies spec_route(
                (#[trigger] self.shards@[idx as int]@[j]).0@,
                n,
            ) == idx as int by {
                if let Some(v) = victim {
                    let oj = if j < v { j } else { j + 1 };
                    assert(self.shards@[idx as int]@[j] == t[oj]);
                }
            }
            lemma_shard_replaced(s1, *self, idx as int);
            if let Some(v) = victim {
                let kv = t[v as int].0@;
                assert(s1.spec_entry(kv) == Some(t[v as int].1@)) by {
                    super::shard::lemma_entry_at(t, v as int);
                }
                assert forall|k: Seq<u8>| #[trigger] lost_fresh(s0, *self, k, now) implies k == kv by {
                    if spec_route(k, n) == idx as int {
                        assert(s1.spec_entry(k) == s0.spec_entry(k));
                    }
                }
            }
        }
    }

    /// Store `entry` under `key`. An expired entry for `key` is dropped
    /// first; with an entry cap, the stale entries of the key's shard go,
    /// and when the cache is at the cap one more entry of that shard is
    /// evicted.
    pub fn insert(&mut self, key: CacheKey, entry: CacheEntry, now: Instant)
        requires
            old(self).wf(),
        ensures
            final(self).wf(),
            final(self).spec_max_entries() == old(self).spec_max_entries(),
            final(self).spec_shard_count() == old(self).spec_shard_count(),
            final(self)@.contains_key(key@),
            final(self)@[key@] == entry@,
            forall|k: Seq<u8>|
                k != key@ && #[trigger] final(self)@.contains_key(k) ==> old(self)@.contains_key(k)
                    && final(self)@[k] == old(self)@[k],
            forall|k: Seq<u8>|
                spec_route(k, old(self).spec_shard_count()) != spec_route(key@, old(self).spec_shard_count())
                    ==> (#[trigger] final(self)@.contains_key(k) <==> old(self)@.contains_key(k)),
            old(self).spec_max_entries() == 0 ==> final(self)@ == old(self)@.insert(key@, entry@),
            old(self).spec_max_entries() > 0 ==> forall|k: Seq<u8>|
                #![trigger final(self)@.dom().contains(k)]
                k != key@ && spec_route(k, old(self).spec_shard_count()) == spec_route(
                    key@,
                    old(self).spec_shard_count(),
                ) && old(self)@.contains_key(k) && !fresh_at(old(self)@[k], now)
                    ==> !final(self)@.dom().contains(k),
            forall|k1: Seq<u8>, k2: Seq<u8>|
                k1 != key@ && k2 != key@ && #[trigger] dropped_fresh(old(self)@, final(self)@, k1, now)
                    && #[trigger] dropped_fresh(old(self)@, final(self)@, k2, now) ==> k1 == k2,
            forall|k: Seq<u8>|
                k != key@ && #[trigger] dropped_fresh(old(self)@, final(self)@, k, now) ==> spec_saturate(
                    old(self).spec_len() as int,
                ) >= old(self).spec_max_entries(),
    {
        let idx = self.shard_index(&key);
        let ghost s0 = *self;
        let ghost n = self.shard_count;
        let ghost kv = key@;
        let ghost ev = entry@;
        match find_entry(&self.shards[idx], &key) {
            Some(i) => {
                if !self.shards[idx][i].1.is_fresh(now) {
                    let _ = take_at(&mut self.shards[idx], i);
                    proof {
                        let t = s0.shards@[idx as int]@;
                        assert forall|j: int| 0 <= j < self.shards@[idx as int]@.len() implies spec_route(
                            (#[trigger] self.shards@[idx as int]@[j]).0@,
                            n,
                        ) == idx as int by {
                            let oj = if j < i { j } else { j + 1 };
                            assert(self.shards@[idx as int]@[j] == t[oj]);
                        }
                        lemma_shard_replaced(s0, *self, idx as int);
                    }
                }
            },
            None => {},
        }
        let ghost s1 = *self;
        if self.max_entries > 0 {
            self.evict_if_needed(idx, now);
        }
        let ghost s2 = *self;
        put_entry(&mut self.shards[idx], key, entry);
        proof {
            let o = s2.shards@[idx as int]@;
            assert forall|j: int| 0 <= j < self.shards@[idx as int]@.len() implies spec_route(
                (#[trigger] self.shards@[idx as int]@[j]).0@,
                n,
            ) == idx as int by {
                let kj = self.shards@[idx as int]@[j].0@;
                if kj != kv {
                    assert(holds_key(o, kj));
                    let m = choose|m: int| 0 <= m < o.len() && #[trigger] o[m].0@ == kj;
                    assert(spec_route(o[m].0@, n) == idx as int);
                }
            }
            lemma_shard_replaced(s2, *self, idx as int);
            // s1 differs from s0 only by dropping an expired entry under `key`.
            assert forall|k: Seq<u8>| k != kv implies #[trigger] s1.spec_entry(k) == s0.spec_entry(k) by {}
            assert(self@.contains_key(kv));
            assert forall|k: Seq<u8>|
                k != kv && #[trigger] dropped_fresh(old(self)@, self@, k, now) implies lost_fresh(
                s1,
                s2,
                k,
                now,
            ) by {
                assert(s1.spec_entry(k) == s0.spec_entry(k));
                assert(self.spec_entry(k) == entry_for(self.shards@[spec_route(k, n)]@, k));
                if spec_route(k, n) == idx as int {
                    assert(entry_for(self.shards@[idx as int]@, k) == entry_for(o, k));
                }
            }
            if s0.max_entries == 0 {
                assert(s2 == s1);
                assert(self@ =~= old(self)@.insert(kv, ev));
            }
        }
    }

    /// Evict one entry, trying the shards in order (stale entries of a
    /// shard first). `false` when the cache is empty.
    fn evict_one(&mut self, now: Instant) -> (r: bool)
        requires
            old(self).wf(),
        ensures
            final(self).wf(),
            final(self).max_entries == old(self).max_entries,
            final(self).shard_count == old(self).shard_count,
            r == (old(self).spec_len() > 0),
            r ==> final(self).spec_len() == old(self).spec_len() - 1,
            r ==> exists|k: Seq<u8>|
                old(self)@.contains_key(k) && final(self)@ == old(self)@.remove(k),
            !r ==> final(self)@ == old(self)@,
            !r ==> final(self).spec_len() == old(self).spec_len(),
    {
        let ghost s0 = *self;
        let mut i: usize = 0;
        while i < self.shards.len()
            invariant
                s0 == *old(self),
                self.wf(),
                self.max_entries == s0.max_entries,
                self.shard_count == s0.shard_count,
                i <= self.shards@.len(),
                forall|j: int| 0 <= j < i ==> (#[trigger] self.shards@[j])@.len() == 0,
                forall|k: Seq<u8>| #[trigger] self.spec_entry(k) == s0.spec_entry(k),
                self.spec_len() == s0.spec_len(),
            decreases self.shards@.len() - i,
        {
            let ghost before = *self;
            let v = evict_one_entry(&mut self.shards[i], now);
            proof {
                let t = before.shards@[i as int]@;
                assert forall|j: int| 0 <= j < self.shards@[i as int]@.len() implies spec_route(
                    (#[trigger] self.shards@[i as int]@[j]).0@,
                    self.shard_count,
                ) == i as int by {
                    if let Some(p) = v {
                        let oj = if j < p { j } else { j + 1 };
                        assert(self.shards@[i as int]@[j] == t[oj]);
                    }
                }
                lemma_shard_replaced(before, *self, i as int);
            }
            if let Some(p) = v {
                proof {
                    let t = before.shards@[i as int]@;
                    let kv = t[p as int].0@;
                    super::shard::lemma_entry_at(t, p as int);
                    assert(spec_route(kv, self.shard_count) == i as int);
                    assert(before.spec_entry(kv) == Some(t[p as int].1@));
                    assert(s0@.contains_key(kv));
                    assert(self@ =~= s0@.remove(kv));
                }
                return true;
            }
            i += 1;
        }
        proof {
            lemma_total_all_empty(self.shards@);
            assert(self@ =~= s0@);
        }
        false
    }

    /// Evict entries until at most `max_entries` remain (no-op when the
    /// cap is `0`).
    pub fn trim_to_max(&mut self, now: Instant)
        requires
            old(self).wf(),
        ensures
            final(self).wf(),
            final(self).spec_max_entries() == old(self).spec_max_entries(),
            final(self).spec_shard_count() == old(self).spec_shard_count(),
            forall|k: Seq<u8>| #[trigger]
                final(self)@.contains_key(k) ==> old(self)@.contains_key(k) && final(self)@[k] == old(
                    self,
                )@[k],
            old(self).spec_max_entries() == 0 ==> final(self)@ == old(self)@,
            old(self).spec_max_entries() > 0 ==> spec_saturate(final(self).spec_len() as int) == if spec_saturate(
                old(self).spec_len() as int,
            ) > old(self).spec_max_entries() {
                old(self).spec_max_entries()
            } else {
                spec_saturate(old(self).spec_len() as int)
            },
    {
        let max = self.max_entries;
        if max == 0 {
            return;
        }
        let ghost s0 = *self;
        let mut stop = false;
        while !stop && self.entry_count() > max
            invariant
                s0 == *old(self),
                self.wf(),
                self.max_entries == max,
                max > 0,
                self.shard_count == s0.shard_count,
                forall|k: Seq<u8>| #[trigger]
                    self@.contains_key(k) ==> s0@.contains_key(k) && self@[k] == s0@[k],
                spec_saturate(self.spec_len() as int) <= spec_saturate(s0.spec_len() as int),
                spec_saturate(s0.spec_len() as int) > max ==> spec_saturate(self.spec_len() as int)
                    >= max,
                spec_saturate(s0.spec_len() as int) <= max ==> self.spec_len() == s0.spec_len(),
                stop ==> spec_saturate(self.spec_len() as int) <= max,
            decreases self.spec_len(), if stop {
                0int
            } else {
                1int
            },
        {
            let ghost before = *self;
            if !self.evict_one(now) {
                stop = true;
            } else {
                proof {
                    let k = choose|k: Seq<u8>|
                        before@.contains_key(k) && self@ == before@.remove(k);
                    assert forall|k2: Seq<u8>| #[trigger]
                        self@.contains_key(k2) implies s0@.contains_key(k2) && self@[k2] == s0@[k2] by {
                        assert(before@.contains_key(k2));
                    }
                }
            }
        }
    }

    /// Update the live entry cap. Lowering it (or setting one where there
    /// was none) trims the cache down to the new cap.
    pub fn set_max_entries(&mut self, max_entries: u64)
        requires
            old(self).wf(),
        ensures
            final(self).wf(),
            final(self).spec_max_entries() == max_entries,
            final(self).spec_shard_count() == old(self).spec_shard_count(),
            forall|k: Seq<u8>| #[trigger]
                final(self)@.contains_key(k) ==> old(self)@.contains_key(k) && final(self)@[k] == old(
                    self,
                )@[k],
            (max_entries > 0 && (old(self).spec_max_entries() > max_entries
                || old(self).spec_max_entries() == 0) && spec_saturate(old(self).spec_len() as int)
                > max_entries) ==> spec_saturate(final(self).spec_len() as int) == max_entries,
            !(max_entries > 0 && (old(self).spec_max_entries() > max_entries
                || old(self).spec_max_entries() == 0) && spec_saturate(old(self).spec_len() as int)
                > max_entries) ==> final(self)@ == old(self)@ && final(self).spec_len() == old(
                self,
            ).spec_len(),
    {
        let prev = self.max_entries;
        self.max_entries = max_entries;
        proof {
            assert(self@ =~= old(self)@);
        }
        if max_entries > 0 && (prev > max_entries || prev == 0) && self.entry_count() > max_entries {
            self.trim_to_max(Instant::now());
        }
    }

    /// One budgeted reap pass over shard `idx`: how many expired entries
    /// went, and whether the shard was scanned to its end.
    fn reap_shard_budgeted(&mut self, idx: usize, now: Instant, budget: ReapBudget) -> (r: (u64, bool))
        requires
            old(self).wf(),
            idx < old(self).shards@.len(),
        ensures
            final(self).wf(),
            final(self).max_entries == old(self).max_entries,
            final(self).shard_count == old(self).shard_count,
            final(self).spec_len() + r.0 == old(self).spec_len(),
            forall|k: Seq<u8>|
                #![trigger final(self).spec_entry(k)]
                final(self).spec_entry(k) == old(self).spec_entry(k) || (old(self).spec_entry(k) is Some
                    && !fresh_at(old(self).spec_entry(k)->0, now) && final(self).spec_entry(k) is None),
            r.1 ==> forall|k: Seq<u8>|
                spec_route(k, old(self).shard_count) == idx && #[trigger] final(self).spec_entry(k) is Some
                    ==> fresh_at(final(self).spec_entry(k)->0, now),
            final(self).shards@.len() == old(self).shards@.len(),
            old(self).shards@[idx as int]@.len() == 0 ==> r.0 == 0 && r.1,
            r.0 <= budget.max_keys_per_lock || r.0 <= 1,
            r.1 ==> r.0 < budget.max_keys_per_lock || r.0 == 0,
            !r.1 ==> r.0 >= budget.max_keys_per_lock || final(self).shards@[idx as int]@.len() > 0,
    {
        let start = Instant::now();
        let deadline = Instant { nanos: start.nanos.saturating_add(budget.max_lock_hold_nanos) };
        let ghost s0 = *self;
        let (removed, finished) = reap_stale(&mut self.shards[idx], now, deadline, budget.max_keys_per_lock);
        proof {
            lemma_members_route(
                s0.shards@[idx as int]@,
                self.shards@[idx as int]@,
                idx as int,
                self.shard_count,
            );
            lemma_shard_replaced(s0, *self, idx as int);
        }
        (removed as u64, finished)
    }

    /// Reap expired entries, one budgeted pass per shard, round-robin from
    /// `cursor`. A pass that runs out of budget stops the call and leaves
    /// the cursor on its shard; otherwise the cursor moves past each
    /// finished shard, and a full ring brings it back to where it started.
    /// The entry count drops by exactly the number removed.
    pub fn reap_expired_budgeted(&mut self, now: Instant, budget: ReapBudget, cursor: &mut ReapCursor) -> (r: ReapOutcome)
        requires
            old(self).wf(),
        ensures
            final(self).wf(),
            final(self).spec_max_entries() == old(self).spec_max_entries(),
            final(self).spec_shard_count() == old(self).spec_shard_count(),
            forall|k: Seq<u8>| #[trigger]
                final(self)@.contains_key(k) ==> old(self)@.contains_key(k) && final(self)@[k] == old(
                    self,
                )@[k],
            forall|k: Seq<u8>|
                old(self)@.contains_key(k) && !(#[trigger] final(self)@.dom().contains(k)) ==> !fresh_at(
                    old(self)@[k],
                    now,
                ),
            r.removed == spec_saturate(old(self).spec_len() - final(self).spec_len()),
            final(self).spec_len() <= old(self).spec_len(),
            old(self).spec_len() <= u64::MAX ==> final(self).spec_len() + r.removed == old(self).spec_len(),
            !r.incomplete ==> forall|k: Seq<u8>| #[trigger]
                final(self)@.contains_key(k) ==> fresh_at(final(self)@[k], now),
            !r.incomplete ==> final(cursor).next_shard == old(cursor).next_shard % old(
                self,
            ).spec_shard_count(),
            r.incomplete ==> final(cursor).next_shard < old(self).spec_shard_count(),
            r.incomplete ==> exists|off: int|
                0 <= off < old(self).spec_shard_count() && final(cursor).next_shard == #[trigger] ring_at(
                    (old(cursor).next_shard % old(self).spec_shard_count()) as int,
                    off,
                    old(self).spec_shard_count() as int,
                ) && forall|k: Seq<u8>|
                    ring_visited(
                        (old(cursor).next_shard % old(self).spec_shard_count()) as int,
                        off,
                        old(self).spec_shard_count() as int,
                        spec_route(k, old(self).spec_shard_count()),
                    ) && #[trigger] final(self)@.contains_key(k) ==> fresh_at(final(self)@[k], now),
    {
        let n = self.shard_count;
        let start = cursor.next_shard % n;
        let ghost s0 = *self;
        let mut removed: u64 = 0;
        let mut offset: usize = 0;
        while offset < n
            invariant
                s0 == *old(self),
                self.wf(),
                self.max_entries == s0.max_entries,
                self.shard_count == n,
                n == s0.shard_count,
                start < n,
                start == old(cursor).next_shard % n,
                offset <= n,
                offset > 0 ==> cursor.next_shard == ring_at(start as int, offset as int, n as int),
                self.spec_len() <= s0.spec_len(),
                removed == spec_saturate(s0.spec_len() - self.spec_len()),
                forall|k: Seq<u8>|
                    #![trigger self.spec_entry(k)]
                    self.spec_entry(k) == s0.spec_entry(k) || (s0.spec_entry(k) is Some && !fresh_at(
                        s0.spec_entry(k)->0,
                        now,
                    ) && self.spec_entry(k) is None),
                forall|k: Seq<u8>|
                    ring_visited(start as int, offset as int, n as int, spec_route(k, n))
                        && #[trigger] self.spec_entry(k) is Some ==> fresh_at(self.spec_entry(k)->0, now),
            decreases n - offset,
        {
            let idx: usize = if offset < n - start {
                start + offset
            } else {
                offset - (n - start)
            };
            let ghost before = *self;
            let (shard_removed, finished) = self.reap_shard_budgeted(idx, now, budget);
            removed = removed.saturating_add(shard_removed);
            proof {
                assert forall|k: Seq<u8>|
                    #![trigger self.spec_entry(k)]
                    self.spec_entry(k) == s0.spec_entry(k) || (s0.spec_entry(k) is Some && !fresh_at(
                        s0.spec_entry(k)->0,
                        now,
                    ) && self.spec_entry(k) is None) by {
                    assert(before.spec_entry(k) == s0.spec_entry(k) || (s0.spec_entry(k) is Some
                        && !fresh_at(s0.spec_entry(k)->0, now) && before.spec_entry(k) is None));
                    assert(self.spec_entry(k) == before.spec_entry(k) || (before.spec_entry(k) is Some
                        && !fresh_at(before.spec_entry(k)->0, now) && self.spec_entry(k) is None));
                }
            }
            if !finished {
                cursor.next_shard = idx;
                proof {
                    assert(idx as int == ring_at(start as int, offset as int, n as int));
                    assert forall|k: Seq<u8>|
                        ring_visited(start as int, offset as int, n as int, spec_route(k, n))
                            && #[trigger] self@.contains_key(k) implies fresh_at(self@[k], now) by {
                        if spec_route(k, n) != idx as int {
                            assert(self.spec_entry(k) == before.spec_entry(k) || (before.spec_entry(k) is Some
                                && !fresh_at(before.spec_entry(k)->0, now) && self.spec_entry(k) is None));
                        }
                    }
                    let sn = s0.spec_shard_count();
                    assert(sn == n);
                    let st = (old(cursor).next_shard % sn) as int;
                    assert(st == start as int);
                    assert(0 <= offset < sn && cursor.next_shard == ring_at(st, offset as int, sn as int)
                        && forall|k: Seq<u8>|
                        ring_visited(st, offset as int, sn as int, spec_route(k, sn)) && #[trigger] self@.contains_key(k)
                            ==> fresh_at(self@[k], now));
                }
                return ReapOutcome { removed, incomplete: true };
            }
            cursor.next_shard = if idx + 1 == n {
                0
            } else {
                idx + 1
            };
            proof {
                assert forall|k: Seq<u8>|
                    ring_visited(start as int, offset + 1, n as int, spec_route(k, n))
                        && #[trigger] self.spec_entry(k) is Some implies fresh_at(self.spec_entry(k)->0, now) by {
                    if spec_route(k, n) != idx as int {
                        assert(ring_visited(start as int, offset as int, n as int, spec_route(k, n)));
                        assert(self.spec_entry(k) == before.spec_entry(k) || (before.spec_entry(k) is Some
                            && !fresh_at(before.spec_entry(k)->0, now) && self.spec_entry(k) is None));
                    }
                }
            }
            offset += 1;
        }
        proof {
            assert forall|k: Seq<u8>| #[trigger]
                self@.contains_key(k) implies fresh_at(self@[k], now) by {
                let r = spec_route(k, n);
                assert(0 <= r < n);
                assert(ring_visited(start as int, n as int, n as int, r));
            }
        }
        ReapOutcome { removed, incomplete: false }
    }

    /// Drop expired entries across all shards with an unbounded budget.
    pub fn reap_expired(&mut self, now: Instant) -> (r: u64)
        requires
            old(self).wf(),
        ensures
            final(self).wf(),
            final(self).spec_max_entries() == old(self).spec_max_entries(),
            final(self).spec_shard_count() == old(self).spec_shard_count(),
            forall|k: Seq<u8>| #[trigger]
                final(self)@.contains_key(k) ==> old(self)@.contains_key(k) && final(self)@[k] == old(
                    self,
                )@[k],
            forall|k: Seq<u8>|
                old(self)@.contains_key(k) && !(#[trigger] final(self)@.dom().contains(k)) ==> !fresh_at(
                    old(self)@[k],
                    now,
                ),
            r == spec_saturate(old(self).spec_len() - final(self).spec_len()),
    {
        let mut cursor = ReapCursor::default();
        self.reap_expired_budgeted(now, ReapBudget::unbounded(), &mut cursor).removed
    }
}

/// The shard visited at step `offset` of a ring walk that starts at `start`.
pub open spec fn ring_at(start: int, offset: int, n: int) -> int {
    if offset < n - start {
        start + offset
    } else {
        offset - (n - start)
    }
}

/// Whether shard `r` is among the first `offset` shards of the ring walk.
pub open spec fn ring_visited(start: int, offset: int, n: int, r: int) -> bool {
    if r >= start {
        r - start < offset
    } else {
        r + (n - start) < offset
    }
}

pub proof fn lemma_total_all_empty(s: Seq<Vec<(CacheKey, CacheEntry)>>)
    requires
        forall|j: int| 0 <= j < s.len() ==> (#[trigger] s[j])@.len() == 0,
    ensures
        spec_total(s) == 0,
    decreases s.len(),
{
    if s.len() > 0 {
        lemma_total_all_empty(s.drop_last());
    }
}

/// The smallest TTL of `ttls`, `None` when there is none.
pub open spec fn spec_min_ttl(ttls: Seq<u32>) -> Option<u32>
    decreases ttls.len(),
{
    if ttls.len() == 0 {
        None
    } else {
        match spec_min_ttl(ttls.drop_last()) {
            None => Some(ttls.last()),
            Some(m) => Some(if ttls.last() < m { ttls.last() } else { m }),
        }
    }
}

/// The storage TTL's minimum: there is one exactly when there are TTLs, it
/// is no larger than any of them, and it is one of them.
pub proof fn lemma_min_ttl_is_minimum(ttls: Seq<u32>)
    ensures
        spec_min_ttl(ttls) is None <==> ttls.len() == 0,
        spec_min_ttl(ttls) matches Some(m) ==> (forall|i: int| 0 <= i < ttls.len() ==> m <= #[trigger] ttls[i])
            && exists|i: int| 0 <= i < ttls.len() && ttls[i] == m,
    decreases ttls.len(),
{
    if ttls.len() > 0 {
        let d = ttls.drop_last();
        lemma_min_ttl_is_minimum(d);
        let m = spec_min_ttl(ttls)->0;
        assert forall|i: int| 0 <= i < ttls.len() implies m <= #[trigger] ttls[i] by {
            if i < d.len() {
                assert(ttls[i] == d[i]);
            }
        }
        if spec_min_ttl(d) is Some && spec_min_ttl(d)->0 <= ttls.last() {
            let md = spec_min_ttl(d)->0;
            let j = choose|j: int| 0 <= j < d.len() && d[j] == md;
            assert(ttls[j] == md);
        } else {
            assert(ttls[ttls.len() - 1] == m);
        }
    }
}

/// RFC 2181: TTL 0 means the RR must not be cached; no records means the
/// default applies.
pub open spec fn spec_cacheable_ttl(min_ttl: Option<u32>, default_if_absent: u32) -> Option<u32> {
    match min_ttl {
        None => Some(default_if_absent),
        Some(t) => if t == 0 {
            None
        } else {
            Some(t)
        },
    }
}

/// The answer count as stored in the header's 16 bits (saturating).
pub open spec fn spec_count16(n: nat) -> u16 {
    if n > u16::MAX {
        u16::MAX
    } else {
        n as u16
    }
}

/// The TTL to store a response under, from its rcode, answer count and
/// record TTLs: SERVFAIL uses the configured TTL (`0` disables storage),
/// negative answers are stored only when enabled (default 300 s), and
/// positive answers default to 60 s.
pub open spec fn spec_ttl_for(
    rcode: u16,
    answer_count: nat,
    ttls: Seq<u32>,
    negative_enabled: bool,
    servfail_ttl_secs: u32,
) -> Option<u32> {
    match spec_kind_from_rcode(rcode, spec_count16(answer_count)) {
        EntryKind::ServFail => if servfail_ttl_secs == 0 {
            None
        } else {
            Some(servfail_ttl_secs)
        },
        EntryKind::NxDomain | EntryKind::NoData => if !negative_enabled {
            None
        } else {
            spec_cacheable_ttl(spec_min_ttl(ttls), 300)
        },
        EntryKind::Positive => spec_cacheable_ttl(spec_min_ttl(ttls), 60),
    }
}

/// The storage TTL of a cacheable response with records is its smallest
/// record TTL: no larger than any of them and equal to one of them; a
/// response with a zero TTL among them is not stored, and one whose TTLs are
/// all positive is stored when its kind is (a positive answer, or a negative
/// one with negative caching on).
pub proof fn lemma_storage_ttl_is_smallest(
    rcode: u16,
    answer_count: nat,
    ttls: Seq<u32>,
    negative_enabled: bool,
    servfail_ttl_secs: u32,
)
    requires
        ttls.len() > 0,
        spec_kind_from_rcode(rcode, spec_count16(answer_count)) != EntryKind::ServFail,
    ensures
        spec_ttl_for(rcode, answer_count, ttls, negative_enabled, servfail_ttl_secs) matches Some(t) ==> {
            &&& t > 0
            &&& forall|i: int| 0 <= i < ttls.len() ==> t <= #[trigger] ttls[i]
            &&& exists|i: int| 0 <= i < ttls.len() && ttls[i] == t
        },
        (exists|i: int| 0 <= i < ttls.len() && ttls[i] == 0)
            ==> spec_ttl_for(rcode, answer_count, ttls, negative_enabled, servfail_ttl_secs) is None,
        (forall|i: int| 0 <= i < ttls.len() ==> ttls[i] > 0) && (negative_enabled
            || spec_kind_from_rcode(rcode, spec_count16(answer_count)) == EntryKind::Positive)
            ==> spec_ttl_for(rcode, answer_count, ttls, negative_enabled, servfail_ttl_secs) is Some,
{
    lemma_min_ttl_is_minimum(ttls);
    let m = spec_min_ttl(ttls)->0;
    if exists|i: int| 0 <= i < ttls.len() && ttls[i] == 0 {
        let i = choose|i: int| 0 <= i < ttls.len() && ttls[i] == 0;
        assert(m <= ttls[i]);
    }
    if forall|i: int| 0 <= i < ttls.len() ==> ttls[i] > 0 {
        let j = choose|j: int| 0 <= j < ttls.len() && ttls[j] == m;
        assert(ttls[j] > 0);
    }
}

fn minimum_ttl(ttls: &Vec<u32>) -> (r: Option<u32>)
    ensures
        r == spec_min_ttl(ttls@),
        r is None <==> ttls@.len() == 0,
        r matches Some(m) ==> (forall|i: int| 0 <= i < ttls@.len() ==> m <= #[trigger] ttls@[i])
            && exists|i: int| 0 <= i < ttls@.len() && ttls@[i] == m,
{
    proof {
        lemma_min_ttl_is_minimum(ttls@);
    }
    let mut min_ttl: Option<u32> = None;
    let mut i: usize = 0;
    while i < ttls.len()
        invariant
            i <= ttls@.len(),
            min_ttl == spec_min_ttl(ttls@.subrange(0, i as int)),
        decreases ttls@.len() - i,
    {
        proof {
            assert(ttls@.subrange(0, i as int + 1).drop_last() =~= ttls@.subrange(0, i as int));
        }
        let ttl = ttls[i];
        min_ttl = match min_ttl {
            None => Some(ttl),
            Some(m) => Some(if ttl < m { ttl } else { m }),
        };
        i += 1;
    }
    proof {
        assert(ttls@.subrange(0, i as int) =~= ttls@);
    }
    min_ttl
}

fn cacheable_ttl_from_rrset(min_ttl: Option<u32>, default_if_absent: u32) -> (r: Option<u32>)
    ensures
        r == spec_cacheable_ttl(min_ttl, default_if_absent),
{
    match min_ttl {
        None => Some(default_if_absent),
        Some(0) => None,
        Some(t) => Some(t),
    }
}

fn count16(n: usize) -> (r: u16)
    ensures
        r == spec_count16(n as nat),
{
    if n > u16::MAX as usize {
        u16::MAX
    } else {
        n as u16
    }
}

/// The storage TTL for a decoded response summary.
pub fn ttl_from_summary(
    rcode: u16,
    answer_count: usize,
    ttls: &Vec<u32>,
    negative_enabled: bool,
    servfail_ttl_secs: u32,
) -> (r: Option<u32>)
    ensures
        r == spec_ttl_for(rcode, answer_count as nat, ttls@, negative_enabled, servfail_ttl_secs),
{
    let kind = EntryKind::from_rcode(rcode, count16(answer_count));
    match kind {
        EntryKind::ServFail => {
            if servfail_ttl_secs == 0 {
                None
            } else {
                Some(servfail_ttl_secs)
            }
        },
        EntryKind::NxDomain | EntryKind::NoData => {
            if !negative_enabled {
                None
            } else {
                cacheable_ttl_from_rrset(minimum_ttl(ttls), 300)
            }
        },
        EntryKind::Positive => cacheable_ttl_from_rrset(minimum_ttl(ttls), 60),
    }
}

/// Derive the storage TTL for a response wire; `None` when it must not be
/// stored or does not decode. The kind is derived from the wire itself.
pub fn ttl_for_wire(wire: &[u8], _kind: EntryKind, negative_enabled: bool, servfail_ttl_secs: u32) -> (r: Option<u32>)
    ensures
        r == match spec_response_summary(wire@) {
            None => None,
            Some((rcode, n, ttls, _)) => spec_ttl_for(rcode, n, ttls, negative_enabled, servfail_ttl_secs),
        },
{
    match summarize_response(wire) {
        None => None,
        Some(s) => ttl_from_summary(s.rcode, s.answer_count, &s.ttls, negative_enabled, servfail_ttl_secs),
    }
}

/// The cache entry for a decoded response summary stored at `now`.
pub fn entry_from_summary(
    wire: Vec<u8>,
    rcode: u16,
    answer_count: usize,
    ttls: &Vec<u32>,
    negative_enabled: bool,
    servfail_ttl_secs: u32,
    now: Instant,
) -> (r: Option<CacheEntry>)
    ensures
        r is None <==> spec_ttl_for(rcode, answer_count as nat, ttls@, negative_enabled, servfail_ttl_secs)
            is None,
        r matches Some(e) ==> {
            &&& e.kind == spec_kind_from_rcode(rcode, spec_count16(answer_count as nat))
            &&& e.wire@ == wire@
            &&& e.filled_at == now
            &&& e.expires_at == spec_plus_secs(
                now,
                spec_ttl_for(rcode, answer_count as nat, ttls@, negative_enabled, servfail_ttl_secs)->0
                    as u64,
            )
        },
{
    let kind = EntryKind::from_rcode(rcode, count16(answer_count));
    match ttl_from_summary(rcode, answer_count, ttls, negative_enabled, servfail_ttl_secs) {
        None => None,
        Some(ttl) => Some(CacheEntry { kind, wire, filled_at: now, expires_at: expires_at_from_ttl(now, ttl) }),
    }
}

/// Build a cache entry for a response wire stored at `now`; `None` when the
/// response must not be stored or does not decode.
pub fn entry_from_wire(wire: Vec<u8>, negative_enabled: bool, servfail_ttl_secs: u32, now: Instant) -> (r: Option<CacheEntry>)
    ensures
        r is None <==> match spec_response_summary(wire@) {
            None => true,
            Some((rcode, n, ttls, _)) => spec_ttl_for(rcode, n, ttls, negative_enabled, servfail_ttl_secs) is None,
        },
        r matches Some(e) ==> {
            let (rcode, n, ttls, _) = spec_response_summary(wire@)->0;
            &&& e.kind == spec_kind_from_rcode(rcode, spec_count16(n))
            &&& e.wire@ == wire@
            &&& e.filled_at == now
            &&& e.expires_at == spec_plus_secs(
                now,
                spec_ttl_for(rcode, n, ttls, negative_enabled, servfail_ttl_secs)->0 as u64,
            )
        },
{
    match summarize_response(wire.as_slice()) {
        None => None,
        Some(s) => entry_from_summary(
            wire,
            s.rcode,
            s.answer_count,
            &s.ttls,
            negative_enabled,
            servfail_ttl_secs,
            now,
        ),
    }
}

/// What a read of `k` at `now` returns from a cache view: the entry while
/// it is fresh, nothing otherwise.
pub open spec fn spec_read(m: Map<Seq<u8>, (EntryKind, Seq<u8>, Instant, Instant)>, k: Seq<u8>, now: Instant) -> Option<(EntryKind, Seq<u8>, Instant, Instant)> {
    if m.contains_key(k) && fresh_at(m[k], now) {
        Some(m[k])
    } else {
        None
    }
}

/// What a read gives back of a write: once `insert(k, e)` has left `k ↦ e`
/// in the cache (`after_insert`), a read of `k` at any time `t` returns `e`
/// while `e` is fresh and misses afterwards; once `remove(k)` has run on a
/// cache (`after_remove` is `before` without `k`), a read of `k` misses.
pub proof fn lemma_read_after_write(
    after_insert: Map<Seq<u8>, (EntryKind, Seq<u8>, Instant, Instant)>,
    before: Map<Seq<u8>, (EntryKind, Seq<u8>, Instant, Instant)>,
    after_remove: Map<Seq<u8>, (EntryKind, Seq<u8>, Instant, Instant)>,
    k: Seq<u8>,
    e: (EntryKind, Seq<u8>, Instant, Instant),
    t: Instant,
)
    requires
        after_insert.contains_key(k),
        after_insert[k] == e,
        after_remove == before.remove(k),
    ensures
        spec_read(after_insert, k, t) == (if fresh_at(e, t) {
            Some(e)
        } else {
            None
        }),
        spec_read(after_remove, k, t) is None,
{
}

} // verus!
