//! Reconciling the named cache instances after a snapshot swap: which
//! backends must be opened before anything changes, which instances take
//! their new settings in place, and which are dropped.
//!
//! The plan is computed here; opening LMDB environments, swapping backends
//! and resizing maps are carried out by the caller in the plan's order:
//! every open first (a failure rejects the apply with nothing changed), then
//! the in-place steps (a failure rejects the apply), then the opened
//! backends are installed, then the removals.

use vstd::prelude::*;
use crate::lookup::cache::lmdb::spec_clamp;
use crate::string_map::{entry_for, find_entry, holds_key, unique_keys};
use crate::text::{owned, str_eq};

verus! {

/// Which store backs a cache instance.
#[derive(Debug, Clone, Copy, PartialEq, Eq, Structural)]
pub enum CacheBackendKind {
    Memory,
    Lmdb,
}

/// The LMDB section of an instance's settings.
#[derive(Debug, Clone)]
pub struct LmdbSettings {
    /// Environment directory, as its normalized components.
    pub path: String,
    /// Explicit shard count, when configured.
    pub shard_count: Option<u32>,
    pub map_size_bytes: u64,
}

/// What reconciliation reads of a compiled cache instance.
#[derive(Debug, Clone)]
pub struct CacheInstanceSettings {
    pub backend: CacheBackendKind,
    pub max_entries: u64,
    pub lmdb: Option<LmdbSettings>,
}

/// The live LMDB backend's layout.
#[derive(Debug, Clone, Copy, PartialEq, Eq, Structural)]
pub struct LiveLmdb {
    /// The single-environment layout of earlier releases.
    pub legacy_layout: bool,
    pub shard_count: usize,
    pub map_size_bytes: u64,
}

/// A registered instance: the settings it runs with and, when its backend
/// is LMDB, that backend's layout.
#[derive(Debug, Clone)]
pub struct LiveInstance {
    pub settings: CacheInstanceSettings,
    pub lmdb: Option<LiveLmdb>,
}

/// The backend an instance needs opened before the apply changes anything.
#[derive(Debug, Clone, Copy, PartialEq, Eq, Structural)]
pub enum PreflightOpen {
    /// Nothing to open: the instance takes its new settings in place.
    Keep,
    /// A fresh backend: a new name, or a changed type or LMDB path.
    Replace,
    /// An LMDB environment set with the explicitly configured shard count.
    ShardReopen,
}

/// How an LMDB map size changes in place.
#[derive(Debug, Clone, Copy, PartialEq, Eq, Structural)]
pub enum MapSizeChange {
    Keep,
    Grow(u64),
    Shrink(u64),
}

/// The in-place update of an instance whose backend stays.
#[derive(Debug, Clone)]
pub struct HotStep {
    pub name: String,
    /// New `max_entries`, when it differs from the previous snapshot's.
    pub max_entries: Option<u64>,
    /// Whether the LMDB eviction policy (`when_full`, `sample_size`) is re-applied.
    pub lmdb_policy: bool,
    pub map_size: MapSizeChange,
}

/// The reconciliation plan, in execution order.
#[derive(Debug, Clone)]
pub struct ReconcilePlan {
    pub opens: Vec<(String, PreflightOpen)>,
    pub hot: Vec<HotStep>,
    pub removals: Vec<String>,
}

pub open spec fn spec_lmdb_path(s: CacheInstanceSettings) -> Option<Seq<char>> {
    match s.lmdb {
        Some(l) => Some(l.path@),
        None => None,
    }
}

/// Whether the new settings ask for an explicit shard count (clamped to
/// `[1, max]`) other than the live LMDB layout's: a legacy layout counts as
/// one shard.
pub open spec fn spec_shard_reopen_needed(new: CacheInstanceSettings, live: Option<LiveLmdb>, max: u32) -> bool {
    match new.lmdb {
        None => false,
        Some(l) => match l.shard_count {
            None => false,
            Some(explicit) => match live {
                None => false,
                Some(ll) => {
                    let want = spec_clamp(explicit, 1, max);
                    if ll.legacy_layout {
                        want != 1
                    } else {
                        want as int != ll.shard_count as int
                    }
                },
            },
        },
    }
}

/// Whether an explicit shard count calls for an LMDB layout reopen.
pub fn lmdb_explicit_shard_reopen_needed(new: &CacheInstanceSettings, live: &Option<LiveLmdb>, max: u32) -> (r: bool)
    requires
        max >= 1,
    ensures
        r == spec_shard_reopen_needed(*new, *live, max),
{
    let explicit = match &new.lmdb {
        None => return false,
        Some(l) => match l.shard_count {
            None => return false,
            Some(e) => e,
        },
    };
    let ll = match live {
        None => return false,
        Some(ll) => ll,
    };
    let want: u32 = if explicit < 1 {
        1
    } else if explicit > max {
        max
    } else {
        explicit
    };
    if ll.legacy_layout {
        return want != 1;
    }
    want as usize != ll.shard_count
}

/// The preflight open for an instance with `new` settings, registered as
/// `current` (if at all).
pub open spec fn spec_preflight(new: CacheInstanceSettings, current: Option<LiveInstance>, max: u32) -> PreflightOpen {
    match current {
        None => PreflightOpen::Replace,
        Some(inst) => if inst.settings.backend != new.backend || spec_lmdb_path(inst.settings) != spec_lmdb_path(new) {
            PreflightOpen::Replace
        } else if spec_shard_reopen_needed(new, inst.lmdb, max) {
            PreflightOpen::ShardReopen
        } else {
            PreflightOpen::Keep
        },
    }
}

fn same_lmdb_path(a: &Option<LmdbSettings>, b: &Option<LmdbSettings>) -> (r: bool)
    ensures
        r == (match *a {
            Some(l) => Some(l.path@),
            None => None::<Seq<char>>,
        } == match *b {
            Some(l) => Some(l.path@),
            None => None::<Seq<char>>,
        }),
{
    match (a, b) {
        (Some(x), Some(y)) => str_eq(x.path.as_str(), y.path.as_str()),
        (None, None) => true,
        _ => false,
    }
}

/// Decide the preflight open of one instance.
pub fn preflight_open(new: &CacheInstanceSettings, current: Option<&LiveInstance>, max: u32) -> (r: PreflightOpen)
    requires
        max >= 1,
    ensures
        r == spec_preflight(*new, match current {
            Some(c) => Some(*c),
            None => None,
        }, max),
{
    match current {
        None => PreflightOpen::Replace,
        Some(inst) => {
            if inst.settings.backend != new.backend || !same_lmdb_path(&inst.settings.lmdb, &new.lmdb) {
                PreflightOpen::Replace
            } else if lmdb_explicit_shard_reopen_needed(new, &inst.lmdb, max) {
                PreflightOpen::ShardReopen
            } else {
                PreflightOpen::Keep
            }
        },
    }
}

/// The in-place step's fields for an instance kept in place: the new
/// `max_entries` unless the previous snapshot had the same; the LMDB policy
/// and map size when both the live backend and the new settings are LMDB.
pub open spec fn spec_hot(new: CacheInstanceSettings, prev: Option<CacheInstanceSettings>, live: Option<LiveLmdb>) -> (Option<u64>, bool, MapSizeChange) {
    let max_entries = match prev {
        Some(p) => if p.max_entries == new.max_entries { None } else { Some(new.max_entries) },
        None => Some(new.max_entries),
    };
    match (live, new.lmdb) {
        (Some(ll), Some(nl)) => (max_entries, true, if nl.map_size_bytes > ll.map_size_bytes {
            MapSizeChange::Grow(nl.map_size_bytes)
        } else if nl.map_size_bytes < ll.map_size_bytes {
            MapSizeChange::Shrink(nl.map_size_bytes)
        } else {
            MapSizeChange::Keep
        }),
        _ => (max_entries, false, MapSizeChange::Keep),
    }
}

pub open spec fn spec_hot_view(h: HotStep) -> (Seq<char>, Option<u64>, bool, MapSizeChange) {
    (h.name@, h.max_entries, h.lmdb_policy, h.map_size)
}

/// The preflight opens of the first `n` new instances, in order.
pub open spec fn spec_opens(
    new: Seq<(String, CacheInstanceSettings)>,
    live: Seq<(String, LiveInstance)>,
    max: u32,
    n: nat,
) -> Seq<(Seq<char>, PreflightOpen)>
    decreases n,
{
    if n == 0 {
        Seq::empty()
    } else {
        let rest = spec_opens(new, live, max, (n - 1) as nat);
        let e = new[n - 1];
        let k = spec_preflight(e.1, entry_for(live, e.0@), max);
        if k != PreflightOpen::Keep {
            rest.push((e.0@, k))
        } else {
            rest
        }
    }
}

/// The in-place steps of the first `n` new instances, in order.
pub open spec fn spec_hots(
    prev: Seq<(String, CacheInstanceSettings)>,
    new: Seq<(String, CacheInstanceSettings)>,
    live: Seq<(String, LiveInstance)>,
    max: u32,
    n: nat,
) -> Seq<(Seq<char>, Option<u64>, bool, MapSizeChange)>
    decreases n,
{
    if n == 0 {
        Seq::empty()
    } else {
        let rest = spec_hots(prev, new, live, max, (n - 1) as nat);
        let e = new[n - 1];
        match entry_for(live, e.0@) {
            Some(inst) => if spec_preflight(e.1, Some(inst), max) == PreflightOpen::Keep {
                let (m, p, s) = spec_hot(e.1, entry_for(prev, e.0@), inst.lmdb);
                rest.push((e.0@, m, p, s))
            } else {
                rest
            },
            None => rest,
        }
    }
}

/// The registered names absent from the new instances, among the first `n`
/// registered ones, in order.
pub open spec fn spec_removals(
    new: Seq<(String, CacheInstanceSettings)>,
    live: Seq<(String, LiveInstance)>,
    n: nat,
) -> Seq<Seq<char>>
    decreases n,
{
    if n == 0 {
        Seq::empty()
    } else {
        let rest = spec_removals(new, live, (n - 1) as nat);
        let k = live[n - 1].0@;
        if holds_key(new, k) {
            rest
        } else {
            rest.push(k)
        }
    }
}

pub open spec fn spec_open_views(o: Seq<(String, PreflightOpen)>) -> Seq<(Seq<char>, PreflightOpen)> {
    o.map_values(|x: (String, PreflightOpen)| (x.0@, x.1))
}

pub open spec fn spec_string_views(o: Seq<String>) -> Seq<Seq<char>> {
    o.map_values(|x: String| x@)
}

/// Plan the reconciliation of the registered instances `live` (registered
/// under the previous snapshot `prev`) to the new snapshot's instances.
pub fn plan_reconcile(
    prev: &Vec<(String, CacheInstanceSettings)>,
    new: &Vec<(String, CacheInstanceSettings)>,
    live: &Vec<(String, LiveInstance)>,
    max_shards: u32,
) -> (r: ReconcilePlan)
    requires
        unique_keys(prev@),
        unique_keys(new@),
        unique_keys(live@),
        max_shards >= 1,
    ensures
        spec_open_views(r.opens@) == spec_opens(new@, live@, max_shards, new@.len()),
        r.hot@.map_values(|h: HotStep| spec_hot_view(h)) == spec_hots(prev@, new@, live@, max_shards, new@.len()),
        spec_string_views(r.removals@) == spec_removals(new@, live@, live@.len()),
{
    let mut opens: Vec<(String, PreflightOpen)> = Vec::new();
    let mut hot: Vec<HotStep> = Vec::new();
    let mut i: usize = 0;
    while i < new.len()
        invariant
            unique_keys(prev@),
            unique_keys(new@),
            unique_keys(live@),
            max_shards >= 1,
            i <= new@.len(),
            spec_open_views(opens@) == spec_opens(new@, live@, max_shards, i as nat),
            hot@.map_values(|h: HotStep| spec_hot_view(h)) == spec_hots(prev@, new@, live@, max_shards, i as nat),
        decreases new@.len() - i,
    {
        let name = &new[i].0;
        let cfg = &new[i].1;
        let ghost old_opens = opens@;
        let ghost old_hot = hot@;
        match find_entry(live, name.as_str()) {
            None => {
                opens.push((owned(name.as_str()), PreflightOpen::Replace));
                proof {
                    assert(spec_open_views(opens@) =~= spec_open_views(old_opens).push((name@, PreflightOpen::Replace)));
                }
            },
            Some(j) => {
                let inst = &live[j].1;
                let kind = preflight_open(cfg, Some(inst), max_shards);
                match kind {
                    PreflightOpen::Keep => {
                        let max_entries = match find_entry(prev, name.as_str()) {
                            Some(p) => if prev[p].1.max_entries == cfg.max_entries {
                                None
                            } else {
                                Some(cfg.max_entries)
                            },
                            None => Some(cfg.max_entries),
                        };
                        let (lmdb_policy, map_size) = match (&inst.lmdb, &cfg.lmdb) {
                            (Some(ll), Some(nl)) => (true, if nl.map_size_bytes > ll.map_size_bytes {
                                MapSizeChange::Grow(nl.map_size_bytes)
                            } else if nl.map_size_bytes < ll.map_size_bytes {
                                MapSizeChange::Shrink(nl.map_size_bytes)
                            } else {
                                MapSizeChange::Keep
                            }),
                            _ => (false, MapSizeChange::Keep),
                        };
                        hot.push(HotStep { name: owned(name.as_str()), max_entries, lmdb_policy, map_size });
                        proof {
                            assert(hot@.map_values(|h: HotStep| spec_hot_view(h)) =~= old_hot.map_values(
                                |h: HotStep| spec_hot_view(h),
                            ).push(spec_hot_view(hot@.last())));
                        }
                    },
                    _ => {
                        opens.push((owned(name.as_str()), kind));
                        proof {
                            assert(spec_open_views(opens@) =~= spec_open_views(old_opens).push((name@, kind)));
                        }
                    },
                }
            },
        }
        i = i + 1;
    }
    let mut removals: Vec<String> = Vec::new();
    let mut j: usize = 0;
    while j < live.len()
        invariant
            unique_keys(new@),
            j <= live@.len(),
            spec_string_views(removals@) == spec_removals(new@, live@, j as nat),
        decreases live@.len() - j,
    {
        let name = &live[j].0;
        let ghost old_rem = removals@;
        match find_entry(new, name.as_str()) {
            Some(_) => {},
            None => {
                removals.push(owned(name.as_str()));
                proof {
                    assert(spec_string_views(removals@) =~= spec_string_views(old_rem).push(name@));
                }
            },
        }
        j = j + 1;
    }
    ReconcilePlan { opens, hot, removals }
}

/// Whether the first `n` new instances' opens include name `k`.
pub open spec fn spec_opens_name(new: Seq<(String, CacheInstanceSettings)>, live: Seq<(String, LiveInstance)>, max: u32, n: nat, k: Seq<char>) -> bool {
    exists|j: int| 0 <= j < spec_opens(new, live, max, n).len() && #[trigger] spec_opens(new, live, max, n)[j].0 == k
}

/// Whether the first `n` new instances' in-place steps include name `k`.
pub open spec fn spec_hots_name(
    prev: Seq<(String, CacheInstanceSettings)>,
    new: Seq<(String, CacheInstanceSettings)>,
    live: Seq<(String, LiveInstance)>,
    max: u32,
    n: nat,
    k: Seq<char>,
) -> bool {
    exists|j: int| 0 <= j < spec_hots(prev, new, live, max, n).len() && #[trigger] spec_hots(prev, new, live, max, n)[j].0 == k
}

proof fn lemma_opens_name(new: Seq<(String, CacheInstanceSettings)>, live: Seq<(String, LiveInstance)>, max: u32, n: nat, k: Seq<char>)
    requires
        n <= new.len(),
    ensures
        spec_opens_name(new, live, max, n, k) <==> exists|i: int| 0 <= i < n && #[trigger] new[i].0@ == k
            && spec_preflight(new[i].1, entry_for(live, k), max) != PreflightOpen::Keep,
    decreases n,
{
    if n > 0 {
        lemma_opens_name(new, live, max, (n - 1) as nat, k);
        let rest = spec_opens(new, live, max, (n - 1) as nat);
        let cur = spec_opens(new, live, max, n);
        let e = new[n - 1];
        if spec_opens_name(new, live, max, n, k) {
            let j = choose|j: int| 0 <= j < cur.len() && #[trigger] cur[j].0 == k;
            if j < rest.len() {
                assert(cur[j] == rest[j]);
                assert(spec_opens_name(new, live, max, (n - 1) as nat, k));
            } else {
                assert(new[n - 1].0@ == k);
            }
        }
        if exists|i: int| 0 <= i < n && #[trigger] new[i].0@ == k
            && spec_preflight(new[i].1, entry_for(live, k), max) != PreflightOpen::Keep {
            let i = choose|i: int| 0 <= i < n && #[trigger] new[i].0@ == k
                && spec_preflight(new[i].1, entry_for(live, k), max) != PreflightOpen::Keep;
            if i < n - 1 {
                let j = choose|j: int| 0 <= j < rest.len() && #[trigger] rest[j].0 == k;
                assert(cur[j] == rest[j]);
            } else {
                assert(cur[rest.len() as int].0 == k);
            }
        }
    }
}

proof fn lemma_hots_name(
    prev: Seq<(String, CacheInstanceSettings)>,
    new: Seq<(String, CacheInstanceSettings)>,
    live: Seq<(String, LiveInstance)>,
    max: u32,
    n: nat,
    k: Seq<char>,
)
    requires
        n <= new.len(),
    ensures
        spec_hots_name(prev, new, live, max, n, k) <==> exists|i: int| 0 <= i < n && #[trigger] new[i].0@ == k
            && holds_key(live, k) && spec_preflight(new[i].1, entry_for(live, k), max) == PreflightOpen::Keep,
    decreases n,
{
    if n > 0 {
        lemma_hots_name(prev, new, live, max, (n - 1) as nat, k);
        let rest = spec_hots(prev, new, live, max, (n - 1) as nat);
        let cur = spec_hots(prev, new, live, max, n);
        if spec_hots_name(prev, new, live, max, n, k) {
            let j = choose|j: int| 0 <= j < cur.len() && #[trigger] cur[j].0 == k;
            if j < rest.len() {
                assert(cur[j] == rest[j]);
                assert(spec_hots_name(prev, new, live, max, (n - 1) as nat, k));
            } else {
                assert(new[n - 1].0@ == k);
            }
        }
        if exists|i: int| 0 <= i < n && #[trigger] new[i].0@ == k && holds_key(live, k)
            && spec_preflight(new[i].1, entry_for(live, k), max) == PreflightOpen::Keep {
            let i = choose|i: int| 0 <= i < n && #[trigger] new[i].0@ == k && holds_key(live, k)
                && spec_preflight(new[i].1, entry_for(live, k), max) == PreflightOpen::Keep;
            if i < n - 1 {
                let j = choose|j: int| 0 <= j < rest.len() && #[trigger] rest[j].0 == k;
                assert(cur[j] == rest[j]);
            } else {
                assert(cur[rest.len() as int].0 == k);
            }
        }
    }
}

proof fn lemma_removals_name(new: Seq<(String, CacheInstanceSettings)>, live: Seq<(String, LiveInstance)>, n: nat, k: Seq<char>)
    requires
        n <= live.len(),
    ensures
        spec_removals(new, live, n).contains(k) <==> (exists|i: int| 0 <= i < n && #[trigger] live[i].0@ == k)
            && !holds_key(new, k),
    decreases n,
{
    if n > 0 {
        lemma_removals_name(new, live, (n - 1) as nat, k);
        let rest = spec_removals(new, live, (n - 1) as nat);
        let cur = spec_removals(new, live, n);
        if cur.contains(k) {
            let j = choose|j: int| 0 <= j < cur.len() && cur[j] == k;
            if j < rest.len() {
                assert(cur[j] == rest[j]);
                assert(rest.contains(k));
            } else {
                assert(live[n - 1].0@ == k);
            }
        }
        if (exists|i: int| 0 <= i < n && #[trigger] live[i].0@ == k) && !holds_key(new, k) {
            let i = choose|i: int| 0 <= i < n && #[trigger] live[i].0@ == k;
            if i < n - 1 {
                let j = choose|j: int| 0 <= j < rest.len() && rest[j] == k;
                assert(cur[j] == rest[j]);
            } else {
                assert(cur[rest.len() as int] == k);
            }
        }
    }
}

/// Every new instance is planned exactly once: either a backend is opened
/// for it before the apply changes anything (always so for a name not yet
/// registered) or it is updated in place. Names outside the new snapshot
/// are neither opened nor updated, and exactly the registered names absent
/// from the new snapshot are removed.
pub proof fn lemma_plan_partitions_instances(
    prev: Seq<(String, CacheInstanceSettings)>,
    new: Seq<(String, CacheInstanceSettings)>,
    live: Seq<(String, LiveInstance)>,
    max: u32,
    k: Seq<char>,
)
    requires
        unique_keys(new),
    ensures
        holds_key(new, k) ==> (spec_opens_name(new, live, max, new.len(), k) <==> !spec_hots_name(
            prev,
            new,
            live,
            max,
            new.len(),
            k,
        )),
        !holds_key(new, k) ==> !spec_opens_name(new, live, max, new.len(), k) && !spec_hots_name(
            prev,
            new,
            live,
            max,
            new.len(),
            k,
        ),
        holds_key(new, k) && !holds_key(live, k) ==> spec_opens_name(new, live, max, new.len(), k),
        spec_removals(new, live, live.len()).contains(k) <==> holds_key(live, k) && !holds_key(new, k),
{
    lemma_opens_name(new, live, max, new.len(), k);
    lemma_hots_name(prev, new, live, max, new.len(), k);
    lemma_removals_name(new, live, live.len(), k);
    if holds_key(new, k) {
        let i = choose|i: int| 0 <= i < new.len() && #[trigger] new[i].0@ == k;
        assert forall|i2: int| 0 <= i2 < new.len() && #[trigger] new[i2].0@ == k implies i2 == i by {
            if i2 < i {
                assert(new[i2].0@ != new[i].0@);
            } else if i2 > i {
                assert(new[i].0@ != new[i2].0@);
            }
        }
        if !holds_key(live, k) {
            assert(entry_for(live, k) is None);
            assert(spec_preflight(new[i].1, entry_for(live, k), max) == PreflightOpen::Replace);
        }
    }
}

} // verus!
