//! The decisions of the durable (LMDB) cache when a shard is full: refuse
//! the fill, or evict a victim first, and which victim a sample yields.

use vstd::prelude::*;
use crate::lookup::cache::lmdb::{read_u64, spec_le_to_u64};

verus! {

/// What a full LMDB shard does with a new entry.
#[derive(Debug, Clone, Copy, PartialEq, Eq, Structural)]
pub enum LmdbWhenFull {
    /// Refuse the fill.
    Refuse,
    /// Evict an arbitrary entry (the first in key order).
    EvictOne,
    /// Evict from a sample: the first expired entry, else the one expiring soonest.
    Sample,
}

/// What an insert does before writing.
#[derive(Debug, Clone, Copy, PartialEq, Eq, Structural)]
pub enum CapAction {
    /// Write the entry.
    Store,
    /// Refuse the fill.
    Refuse,
    /// Evict a victim, then write (refuse when none is found).
    EvictThenStore,
}

/// The action before an insert: only a new key in a capped shard that has
/// reached its cap is affected (`max == 0` means uncapped).
pub open spec fn spec_cap_action(max: u64, replacing: bool, count: u64, when_full: LmdbWhenFull) -> CapAction {
    if max > 0 && !replacing && count >= max {
        match when_full {
            LmdbWhenFull::Refuse => CapAction::Refuse,
            _ => CapAction::EvictThenStore,
        }
    } else {
        CapAction::Store
    }
}

pub fn cap_action(max: u64, replacing: bool, count: u64, when_full: LmdbWhenFull) -> (r: CapAction)
    ensures
        r == spec_cap_action(max, replacing, count, when_full),
{
    if max > 0 && !replacing && count >= max {
        match when_full {
            LmdbWhenFull::Refuse => CapAction::Refuse,
            _ => CapAction::EvictThenStore,
        }
    } else {
        CapAction::Store
    }
}

/// What an insert does when the write finds the memory map full.
#[derive(Debug, Clone, Copy, PartialEq, Eq, Structural)]
pub enum MapFullAction {
    /// Refuse the fill (policy `Refuse`).
    Refuse,
    /// Evict a victim and retry the insert once.
    EvictThenRetry,
    /// The one retry was already spent.
    GiveUp,
}

pub fn map_full_action(when_full: LmdbWhenFull, allow_retry: bool) -> (r: MapFullAction)
    ensures
        when_full == LmdbWhenFull::Refuse ==> r == MapFullAction::Refuse,
        when_full != LmdbWhenFull::Refuse ==> r == (if allow_retry {
            MapFullAction::EvictThenRetry
        } else {
            MapFullAction::GiveUp
        }),
{
    match when_full {
        LmdbWhenFull::Refuse => MapFullAction::Refuse,
        _ => if allow_retry {
            MapFullAction::EvictThenRetry
        } else {
            MapFullAction::GiveUp
        },
    }
}

/// The first position below `n` holding an entry expired at `now`.
pub open spec fn spec_first_expired(exp: Seq<Option<u64>>, n: nat, now: u64) -> Option<int>
    decreases n,
{
    if n == 0 {
        None
    } else {
        match spec_first_expired(exp, (n - 1) as nat, now) {
            Some(i) => Some(i),
            None => match exp[n - 1] {
                Some(e) => if now >= e { Some(n - 1) } else { None },
                None => None,
            },
        }
    }
}

/// The first position below `n` with the smallest expiry among the
/// entries that decode.
pub open spec fn spec_soonest(exp: Seq<Option<u64>>, n: nat) -> Option<int>
    decreases n,
{
    if n == 0 {
        None
    } else {
        let r = spec_soonest(exp, (n - 1) as nat);
        match exp[n - 1] {
            Some(e) => match r {
                None => Some(n - 1),
                Some(b) => if e < exp[b].unwrap() { Some(n - 1) } else { Some(b) },
            },
            None => r,
        }
    }
}

/// How many sampled entries are examined: at most `sample_size` (at least one).
pub open spec fn spec_examined(len: nat, sample_size: u32) -> nat {
    let s: nat = if sample_size == 0 { 1 } else { sample_size as nat };
    if len < s { len } else { s }
}

/// The victim of a sampled eviction among entries in key order, each given
/// by its expiry (`None` when its value does not decode).
pub open spec fn spec_sample_victim(exp: Seq<Option<u64>>, sample_size: u32, now: u64) -> Option<int> {
    let n = spec_examined(exp.len(), sample_size);
    match spec_first_expired(exp, n, now) {
        Some(i) => Some(i),
        None => spec_soonest(exp, n),
    }
}

proof fn lemma_first_expired(exp: Seq<Option<u64>>, n: nat, now: u64)
    requires
        n <= exp.len(),
    ensures
        spec_first_expired(exp, n, now) matches Some(i) ==> 0 <= i < n && exp[i] is Some && now >= exp[i].unwrap(),
        spec_first_expired(exp, n, now) is None ==> forall|j: int| 0 <= j < n && #[trigger] exp[j] is Some ==> now < exp[j].unwrap(),
    decreases n,
{
    if n > 0 {
        lemma_first_expired(exp, (n - 1) as nat, now);
    }
}

proof fn lemma_soonest(exp: Seq<Option<u64>>, n: nat)
    requires
        n <= exp.len(),
    ensures
        spec_soonest(exp, n) matches Some(i) ==> 0 <= i < n && exp[i] is Some
            && forall|j: int| 0 <= j < n && #[trigger] exp[j] is Some ==> exp[i].unwrap() <= exp[j].unwrap(),
        spec_soonest(exp, n) is None ==> forall|j: int| 0 <= j < n ==> #[trigger] exp[j] is None,
    decreases n,
{
    if n > 0 {
        lemma_soonest(exp, (n - 1) as nat);
    }
}

/// Pick the victim of a sampled eviction: among the first `sample_size`
/// (at least one) entries, the first already expired at `now_unix`, else the
/// first of those expiring soonest; `None` when no examined value decodes.
pub fn choose_sample_victim(expiries: &Vec<Option<u64>>, sample_size: u32, now_unix: u64) -> (r: Option<usize>)
    ensures
        r == match spec_sample_victim(expiries@, sample_size, now_unix) {
            Some(i) => Some(i as usize),
            None => None::<usize>,
        },
        r matches Some(i) ==> i < spec_examined(expiries@.len(), sample_size) && expiries@[i as int] is Some,
        r matches Some(i) ==> (exists|j: int| 0 <= j < spec_examined(expiries@.len(), sample_size)
            && #[trigger] expiries@[j] is Some && now_unix >= expiries@[j].unwrap())
            ==> now_unix >= expiries@[i as int].unwrap(),
        r matches Some(i) ==> forall|j: int| 0 <= j < spec_examined(expiries@.len(), sample_size)
            && #[trigger] expiries@[j] is Some && now_unix < expiries@[i as int].unwrap()
            ==> expiries@[i as int].unwrap() <= expiries@[j].unwrap(),
        r is None <==> forall|j: int| 0 <= j < spec_examined(expiries@.len(), sample_size) ==> #[trigger] expiries@[j] is None,
{
    let ghost exp = expiries@;
    let size: usize = if sample_size == 0 { 1 } else { sample_size as usize };
    let n: usize = if expiries.len() < size { expiries.len() } else { size };
    assert(n == spec_examined(exp.len(), sample_size));
    let mut best: Option<usize> = None;
    let mut i: usize = 0;
    while i < n
        invariant
            n <= exp.len(),
            n == spec_examined(exp.len(), sample_size),
            exp == expiries@,
            i <= n,
            spec_first_expired(exp, i as nat, now_unix) is None,
            best == match spec_soonest(exp, i as nat) {
                Some(b) => Some(b as usize),
                None => None::<usize>,
            },
        decreases n - i,
    {
        proof {
            lemma_soonest(exp, i as nat);
        }
        match expiries[i] {
            Some(e) => {
                if now_unix >= e {
                    proof {
                        lemma_first_expired(exp, n as nat, now_unix);
                        assert(spec_first_expired(exp, (i + 1) as nat, now_unix) == Some(i as int));
                        lemma_first_prefix(exp, (i + 1) as nat, n as nat, now_unix);
                        lemma_soonest(exp, n as nat);
                    }
                    return Some(i);
                }
                match best {
                    None => {
                        best = Some(i);
                    },
                    Some(b) => {
                        let cur = expiries[b].unwrap();
                        if e < cur {
                            best = Some(i);
                        }
                    },
                }
            },
            None => {},
        }
        i = i + 1;
    }
    proof {
        lemma_first_expired(exp, n as nat, now_unix);
        lemma_soonest(exp, n as nat);
    }
    best
}

proof fn lemma_first_prefix(exp: Seq<Option<u64>>, m: nat, n: nat, now: u64)
    requires
        m <= n <= exp.len(),
        spec_first_expired(exp, m, now) is Some,
    ensures
        spec_first_expired(exp, n, now) == spec_first_expired(exp, m, now),
    decreases n - m,
{
    if n > m {
        lemma_first_prefix(exp, m, (n - 1) as nat, now);
    }
}

/// Durability mode of the LMDB environments.
#[derive(Debug, Clone, Copy, PartialEq, Eq, Structural)]
pub enum LmdbSync {
    /// Every commit syncs.
    Full,
    /// Commits do not sync; a background flusher syncs at an interval.
    Periodic,
    /// Commits do not sync and nothing flushes.
    NoSync,
}

impl LmdbSync {
    pub fn as_str(&self) -> (r: &'static str)
        ensures
            r@ == (match *self {
                LmdbSync::Full => "full"@,
                LmdbSync::Periodic => "periodic"@,
                LmdbSync::NoSync => "none"@,
            }),
    {
        match self {
            LmdbSync::Full => "full",
            LmdbSync::Periodic => "periodic",
            LmdbSync::NoSync => "none",
        }
    }
}

/// Why a sync setting was rejected.
#[derive(Debug, Clone, Copy, PartialEq, Eq, Structural)]
pub enum SyncConfigError {
    /// `periodic` without an interval.
    PeriodicWithoutInterval,
    /// An interval with a mode other than `periodic`.
    IntervalWithoutPeriodic,
}

/// A sync setting is valid when an interval is given exactly for `periodic`.
pub fn check_sync_config(sync: LmdbSync, interval_ms: Option<u64>) -> (r: Result<(), SyncConfigError>)
    ensures
        r == (if sync == LmdbSync::Periodic && interval_ms is None {
            Err::<(), SyncConfigError>(SyncConfigError::PeriodicWithoutInterval)
        } else if sync != LmdbSync::Periodic && interval_ms is Some {
            Err::<(), SyncConfigError>(SyncConfigError::IntervalWithoutPeriodic)
        } else {
            Ok::<(), SyncConfigError>(())
        }),
{
    if sync == LmdbSync::Periodic && interval_ms.is_none() {
        return Err(SyncConfigError::PeriodicWithoutInterval);
    }
    if sync != LmdbSync::Periodic && interval_ms.is_some() {
        return Err(SyncConfigError::IntervalWithoutPeriodic);
    }
    Ok(())
}

/// What applying a valid sync setting changes.
#[derive(Debug, Clone, Copy, PartialEq, Eq, Structural)]
pub enum SyncStep {
    /// Mode and interval are already in force.
    Unchanged,
    /// Record the new setting; `flip_env_flags` when the mode changes;
    /// then `FlusherStep`.
    Apply { flip_env_flags: bool, flusher: FlusherStep },
}

/// What happens to the background flusher.
#[derive(Debug, Clone, Copy, PartialEq, Eq, Structural)]
pub enum FlusherStep {
    /// Periodic: start one, or retune the running one, at this interval.
    RunAt(u64),
    /// Not periodic: stop a running flusher (then sync the dirty shards).
    Stop,
}

/// The flusher step for a sync mode and interval.
pub open spec fn spec_flusher_step(sync: LmdbSync, interval_ms: Option<u64>) -> FlusherStep {
    match (sync, interval_ms) {
        (LmdbSync::Periodic, Some(iv)) => FlusherStep::RunAt(iv),
        _ => FlusherStep::Stop,
    }
}

pub fn sync_step(prev_sync: LmdbSync, prev_interval_ms: Option<u64>, sync: LmdbSync, interval_ms: Option<u64>) -> (r: SyncStep)
    ensures
        (prev_sync == sync && prev_interval_ms == interval_ms) ==> r == SyncStep::Unchanged,
        !(prev_sync == sync && prev_interval_ms == interval_ms) ==> r == (SyncStep::Apply {
            flip_env_flags: prev_sync != sync,
            flusher: spec_flusher_step(sync, interval_ms),
        }),
{
    if prev_sync == sync && prev_interval_ms == interval_ms {
        return SyncStep::Unchanged;
    }
    let flusher = match (sync, interval_ms) {
        (LmdbSync::Periodic, Some(iv)) => FlusherStep::RunAt(iv),
        _ => FlusherStep::Stop,
    };
    SyncStep::Apply { flip_env_flags: prev_sync != sync, flusher }
}

/// The stored entry count: eight little-endian bytes, zero otherwise.
pub fn stored_count(raw: Option<&[u8]>) -> (r: u64)
    ensures
        r == (match raw {
            Some(b) => if b@.len() == 8 {
                spec_le_to_u64(b@[0], b@[1], b@[2], b@[3], b@[4], b@[5], b@[6], b@[7])
            } else {
                0
            },
            None => 0,
        }),
{
    match raw {
        Some(b) => if b.len() == 8 {
            read_u64(b, 0)
        } else {
            0
        },
        None => 0,
    }
}

/// The entry count moved by `delta`, saturating at both ends.
pub fn bumped_count(cur: u64, delta: i64) -> (r: u64)
    ensures
        r as int == (if cur + delta < 0 { 0 } else if cur + delta > u64::MAX { u64::MAX as int } else { cur + delta }),
{
    if delta >= 0 {
        cur.saturating_add(delta as u64)
    } else {
        let m: u64 = if delta == i64::MIN { 0x8000_0000_0000_0000u64 } else { (-delta) as u64 };
        cur.saturating_sub(m)
    }
}

} // verus!
