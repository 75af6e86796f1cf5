//! One shard of the in-memory answer cache: an association list from key
//! bytes to entries, with at most one entry per key.

use vstd::prelude::*;
use super::entry::{CacheEntry, EntryKind};
use super::key::CacheKey;
use crate::clock::Instant;

verus! {

/// No two entries of a shard share key bytes.
pub open spec fn unique_keys(t: Seq<(CacheKey, CacheEntry)>) -> bool {
    forall|i: int, j: int| 0 <= i < j < t.len() ==> #[trigger] t[i].0@ != #[trigger] t[j].0@
}

/// Whether some entry of the shard has key `k`.
pub open spec fn holds_key(t: Seq<(CacheKey, CacheEntry)>, k: Seq<u8>) -> bool {
    exists|i: int| 0 <= i < t.len() && #[trigger] t[i].0@ == k
}

/// The entry stored under `k`, if any.
pub open spec fn entry_for(t: Seq<(CacheKey, CacheEntry)>, k: Seq<u8>) -> Option<
    (EntryKind, Seq<u8>, Instant, Instant),
> {
    if holds_key(t, k) {
        Some(t[choose|i: int| 0 <= i < t.len() && #[trigger] t[i].0@ == k].1@)
    } else {
        None
    }
}

/// An entry is fresh at `now` strictly before its expiry.
pub open spec fn fresh_at(e: (EntryKind, Seq<u8>, Instant, Instant), now: Instant) -> bool {
    now.nanos < e.3.nanos
}

pub proof fn lemma_entry_at(t: Seq<(CacheKey, CacheEntry)>, i: int)
    requires
        unique_keys(t),
        0 <= i < t.len(),
    ensures
        entry_for(t, t[i].0@) == Some(t[i].1@),
{
    let k = t[i].0@;
    assert(t[i].0@ == k);
    let c = choose|c: int| 0 <= c < t.len() && #[trigger] t[c].0@ == k;
    if c != i {
        if c < i {
            assert(t[c].0@ != t[i].0@);
        } else {
            assert(t[i].0@ != t[c].0@);
        }
    }
}

/// Removing position `i` drops exactly the key stored there.
pub proof fn lemma_remove_at(t: Seq<(CacheKey, CacheEntry)>, i: int)
    requires
        unique_keys(t),
        0 <= i < t.len(),
    ensures
        unique_keys(t.remove(i)),
        forall|k: Seq<u8>| #[trigger]
            entry_for(t.remove(i), k) == if k == t[i].0@ {
                None
            } else {
                entry_for(t, k)
            },
{
    let r = t.remove(i);
    assert(unique_keys(r)) by {
        assert forall|a: int, b: int| 0 <= a < b < r.len() implies #[trigger] r[a].0@
            != #[trigger] r[b].0@ by {
            let oa = if a < i { a } else { a + 1 };
            let ob = if b < i { b } else { b + 1 };
            assert(r[a] == t[oa]);
            assert(r[b] == t[ob]);
            assert(t[oa].0@ != t[ob].0@);
        }
    }
    assert forall|k: Seq<u8>| #[trigger]
        entry_for(r, k) == if k == t[i].0@ {
            None
        } else {
            entry_for(t, k)
        } by {
        if holds_key(r, k) {
            let j = choose|j: int| 0 <= j < r.len() && #[trigger] r[j].0@ == k;
            let oj = if j < i { j } else { j + 1 };
            assert(r[j] == t[oj]);
            lemma_entry_at(r, j);
            lemma_entry_at(t, oj);
            if k == t[i].0@ {
                if oj < i {
                    assert(t[oj].0@ != t[i].0@);
                } else {
                    assert(t[i].0@ != t[oj].0@);
                }
            }
        } else {
            if k != t[i].0@ && holds_key(t, k) {
                let j = choose|j: int| 0 <= j < t.len() && #[trigger] t[j].0@ == k;
                assert(j != i);
                let rj = if j < i { j } else { j - 1 };
                assert(r[rj] == t[j]);
            }
        }
    }
}

/// Position of the entry whose key equals `key`, if any.
pub fn find_entry(t: &Vec<(CacheKey, CacheEntry)>, key: &CacheKey) -> (r: Option<usize>)
    requires
        unique_keys(t@),
    ensures
        r is None <==> !holds_key(t@, key@),
        r is None ==> entry_for(t@, key@) is None,
        r matches Some(i) ==> i < t@.len() && t@[i as int].0@ == key@ && entry_for(t@, key@)
            == Some(t@[i as int].1@),
{
    let mut i: usize = 0;
    while i < t.len()
        invariant
            unique_keys(t@),
            0 <= i <= t@.len(),
            forall|k: int| 0 <= k < i ==> t@[k].0@ != key@,
        decreases t@.len() - i,
    {
        if t[i].0.same_as(key) {
            proof {
                lemma_entry_at(t@, i as int);
            }
            return Some(i);
        }
        i += 1;
    }
    None
}

/// Store `entry` under `key`, replacing the entry that key had.
pub fn put_entry(t: &mut Vec<(CacheKey, CacheEntry)>, key: CacheKey, entry: CacheEntry)
    requires
        unique_keys(old(t)@),
    ensures
        unique_keys(final(t)@),
        forall|k: Seq<u8>| #[trigger]
            entry_for(final(t)@, k) == if k == key@ {
                Some(entry@)
            } else {
                entry_for(old(t)@, k)
            },
        forall|j: int|
            0 <= j < final(t)@.len() ==> (#[trigger] final(t)@[j]).0@ == key@ || holds_key(
                old(t)@,
                final(t)@[j].0@,
            ),
        final(t)@.len() == old(t)@.len() + if holds_key(old(t)@, key@) {
            0int
        } else {
            1int
        },
{
    let ghost kv = key@;
    let ghost ev = entry@;
    match find_entry(t, &key) {
        Some(i) => {
            t.set(i, (key, entry));
            proof {
                let o = old(t)@;
                assert(unique_keys(t@)) by {
                    assert forall|a: int, b: int| 0 <= a < b < t@.len() implies #[trigger] t@[a].0@
                        != #[trigger] t@[b].0@ by {
                        assert(o[a].0@ != o[b].0@);
                    }
                }
                assert forall|k: Seq<u8>| #[trigger]
                    entry_for(t@, k) == if k == kv {
                        Some(ev)
                    } else {
                        entry_for(o, k)
                    } by {
                    if k == kv {
                        lemma_entry_at(t@, i as int);
                    } else if holds_key(o, k) {
                        let j = choose|j: int| 0 <= j < o.len() && #[trigger] o[j].0@ == k;
                        lemma_entry_at(o, j);
                        lemma_entry_at(t@, j);
                    } else {
                        if holds_key(t@, k) {
                            let j = choose|j: int| 0 <= j < t@.len() && #[trigger] t@[j].0@ == k;
                            assert(o[j].0@ == k);
                        }
                    }
                }
                assert forall|j: int| 0 <= j < t@.len() implies (#[trigger] t@[j]).0@ == kv
                    || holds_key(o, t@[j].0@) by {
                    if j != i {
                        assert(o[j].0@ == t@[j].0@);
                    }
                }
            }
        },
        None => {
            t.push((key, entry));
            proof {
                let o = old(t)@;
                let n = o.len() as int;
                assert(unique_keys(t@)) by {
                    assert forall|a: int, b: int| 0 <= a < b < t@.len() implies #[trigger] t@[a].0@
                        != #[trigger] t@[b].0@ by {
                        if b == n {
                            assert(o[a].0@ == t@[a].0@);
                        } else {
                            assert(o[a].0@ != o[b].0@);
                        }
                    }
                }
                assert forall|k: Seq<u8>| #[trigger]
                    entry_for(t@, k) == if k == kv {
                        Some(ev)
                    } else {
                        entry_for(o, k)
                    } by {
                    if k == kv {
                        lemma_entry_at(t@, n);
                    } else if holds_key(o, k) {
                        let j = choose|j: int| 0 <= j < o.len() && #[trigger] o[j].0@ == k;
                        lemma_entry_at(o, j);
                        lemma_entry_at(t@, j);
                    } else {
                        if holds_key(t@, k) {
                            let j = choose|j: int| 0 <= j < t@.len() && #[trigger] t@[j].0@ == k;
                            assert(j != n);
                            assert(o[j].0@ == k);
                        }
                    }
                }
                assert forall|j: int| 0 <= j < t@.len() implies (#[trigger] t@[j]).0@ == kv
                    || holds_key(o, t@[j].0@) by {
                    if j != n {
                        assert(o[j].0@ == t@[j].0@);
                    }
                }
            }
        },
    }
}

/// Remove the entry at position `i`, returning it.
pub fn take_at(t: &mut Vec<(CacheKey, CacheEntry)>, i: usize) -> (r: (CacheKey, CacheEntry))
    requires
        unique_keys(old(t)@),
        i < old(t)@.len(),
    ensures
        r == old(t)@[i as int],
        final(t)@ == old(t)@.remove(i as int),
        unique_keys(final(t)@),
        forall|k: Seq<u8>| #[trigger]
            entry_for(final(t)@, k) == if k == r.0@ {
                None
            } else {
                entry_for(old(t)@, k)
            },
{
    proof {
        lemma_remove_at(t@, i as int);
    }
    t.remove(i)
}

/// Drop every entry that is no longer fresh at `now`.
pub fn retain_fresh(t: &mut Vec<(CacheKey, CacheEntry)>, now: Instant)
    requires
        unique_keys(old(t)@),
    ensures
        unique_keys(final(t)@),
        final(t)@.len() <= old(t)@.len(),
        forall|j: int| 0 <= j < final(t)@.len() ==> holds_key(old(t)@, (#[trigger] final(t)@[j]).0@),
        forall|k: Seq<u8>| #[trigger]
            entry_for(final(t)@, k) == if entry_for(old(t)@, k) matches Some(e) && !fresh_at(
                e,
                now,
            ) {
                None
            } else {
                entry_for(old(t)@, k)
            },
{
    let ghost o = t@;
    let mut i: usize = 0;
    while i < t.len()
        invariant
            unique_keys(t@),
            i <= t@.len(),
            t@.len() <= o.len(),
            forall|j: int| 0 <= j < i ==> fresh_at((#[trigger] t@[j]).1@, now),
            forall|j: int| 0 <= j < t@.len() ==> holds_key(o, (#[trigger] t@[j]).0@),
            forall|k: Seq<u8>|
                #![trigger entry_for(t@, k)]
                entry_for(t@, k) == entry_for(o, k) || (entry_for(o, k) matches Some(e)
                    && !fresh_at(e, now) && entry_for(t@, k) is None),
        decreases t@.len() - i,
    {
        if t[i].1.is_fresh(now) {
            i += 1;
        } else {
            let ghost before = t@;
            let _ = take_at(t, i);
            proof {
                assert forall|j: int| 0 <= j < t@.len() implies holds_key(o, (#[trigger] t@[j]).0@) by {
                    let bj = if j < i { j } else { j + 1 };
                    assert(t@[j] == before[bj]);
                }
                assert forall|k: Seq<u8>| #![trigger entry_for(t@, k)]
                    entry_for(t@, k) == entry_for(o, k) || (entry_for(o, k) matches Some(e)
                        && !fresh_at(e, now) && entry_for(t@, k) is None) by {
                    if k == before[i as int].0@ {
                        lemma_entry_at(before, i as int);
                        assert(entry_for(before, k) == entry_for(o, k));
                    }
                }
            }
        }
    }
    proof {
        assert forall|k: Seq<u8>| #[trigger]
            entry_for(t@, k) == if entry_for(o, k) matches Some(e) && !fresh_at(e, now) {
                None
            } else {
                entry_for(o, k)
            } by {
            if holds_key(t@, k) {
                let c = choose|c: int| 0 <= c < t@.len() && #[trigger] t@[c].0@ == k;
                lemma_entry_at(t@, c);
            }
        }
    }
}

/// Remove the first entry that is stale at `now`, or the first entry when
/// none is stale; the position removed, `None` when the shard is empty.
pub fn evict_one_entry(t: &mut Vec<(CacheKey, CacheEntry)>, now: Instant) -> (r: Option<usize>)
    requires
        unique_keys(old(t)@),
    ensures
        unique_keys(final(t)@),
        r is None <==> old(t)@.len() == 0,
        r is None ==> final(t)@ == old(t)@,
        r matches Some(i) ==> {
            &&& i < old(t)@.len()
            &&& final(t)@ == old(t)@.remove(i as int)
            &&& (exists|j: int| 0 <= j < old(t)@.len() && !fresh_at((#[trigger] old(t)@[j]).1@, now))
                ==> !fresh_at(old(t)@[i as int].1@, now)
            &&& forall|k: Seq<u8>| #[trigger]
                entry_for(final(t)@, k) == if k == old(t)@[i as int].0@ {
                    None
                } else {
                    entry_for(old(t)@, k)
                }
        },
{
    let mut i: usize = 0;
    while i < t.len()
        invariant
            i <= t@.len(),
            t@ == old(t)@,
            unique_keys(t@),
            forall|j: int| 0 <= j < i ==> fresh_at((#[trigger] t@[j]).1@, now),
        decreases t@.len() - i,
    {
        if !t[i].1.is_fresh(now) {
            let _ = take_at(t, i);
            return Some(i);
        }
        i += 1;
    }
    if t.len() == 0 {
        return None;
    }
    let _ = take_at(t, 0);
    Some(0)
}

/// Reap stale entries from the front of the shard, stopping when the clock
/// passes `deadline` (read every 64 entries examined) or after `max_keys`
/// removals. Returns how many were removed and whether the shard was
/// scanned to its end.
pub fn reap_stale(t: &mut Vec<(CacheKey, CacheEntry)>, now: Instant, deadline: Instant, max_keys: usize) -> (r: (usize, bool))
    requires
        unique_keys(old(t)@),
    ensures
        unique_keys(final(t)@),
        final(t)@.len() + r.0 == old(t)@.len(),
        forall|j: int| 0 <= j < final(t)@.len() ==> holds_key(old(t)@, (#[trigger] final(t)@[j]).0@),
        forall|k: Seq<u8>|
            #![trigger entry_for(final(t)@, k)]
            entry_for(final(t)@, k) == entry_for(old(t)@, k) || (entry_for(old(t)@, k) matches Some(e)
                && !fresh_at(e, now) && entry_for(final(t)@, k) is None),
        r.1 ==> forall|k: Seq<u8>| #[trigger]
            entry_for(final(t)@, k) matches Some(e) ==> fresh_at(e, now),
        old(t)@.len() == 0 ==> r.0 == 0 && r.1,
        r.0 <= max_keys || r.0 <= 1,
        r.1 ==> r.0 < max_keys || r.0 == 0,
        !r.1 ==> r.0 >= max_keys || final(t)@.len() > 0,
{
    let ghost o = t@;
    let mut i: usize = 0;
    let mut removed: usize = 0;
    let mut finished = true;
    let mut stop = false;
    let n0 = t.len();
    assert(o.len() == n0);
    while i < t.len() && !stop
        invariant
            o.len() <= usize::MAX,
            unique_keys(t@),
            i <= t@.len(),
            t@.len() + removed == o.len(),
            finished == !stop,
            o.len() == 0 ==> finished && removed == 0,
            removed <= max_keys || removed <= 1,
            finished ==> removed < max_keys || removed == 0,
            !finished ==> removed >= max_keys || i < t@.len(),
            finished ==> forall|j: int| 0 <= j < i ==> fresh_at((#[trigger] t@[j]).1@, now),
            forall|j: int| 0 <= j < t@.len() ==> holds_key(o, (#[trigger] t@[j]).0@),
            forall|k: Seq<u8>|
                #![trigger entry_for(t@, k)]
                entry_for(t@, k) == entry_for(o, k) || (entry_for(o, k) matches Some(e)
                    && !fresh_at(e, now) && entry_for(t@, k) is None),
        decreases t@.len() - i, if stop { 0int } else { 1int },
    {
        let examined = i + removed;
        if examined % 64 == 0 && deadline.nanos <= Instant::now().nanos {
            finished = false;
            stop = true;
        } else if t[i].1.is_fresh(now) {
            i += 1;
        } else {
            let ghost before = t@;
            let _ = take_at(t, i);
            removed += 1;
            proof {
                assert forall|j: int| 0 <= j < t@.len() implies holds_key(o, (#[trigger] t@[j]).0@) by {
                    let bj = if j < i { j } else { j + 1 };
                    assert(t@[j] == before[bj]);
                }
                assert forall|k: Seq<u8>| #![trigger entry_for(t@, k)]
                    entry_for(t@, k) == entry_for(o, k) || (entry_for(o, k) matches Some(e)
                        && !fresh_at(e, now) && entry_for(t@, k) is None) by {
                    if k == before[i as int].0@ {
                        lemma_entry_at(before, i as int);
                        assert(entry_for(before, k) == entry_for(o, k));
                    }
                }
            }
            if removed >= max_keys {
                finished = false;
                stop = true;
            }
        }
    }
    proof {
        if finished {
            assert forall|k: Seq<u8>| #[trigger]
                entry_for(t@, k) is Some implies fresh_at(entry_for(t@, k)->0, now) by {
                if holds_key(t@, k) {
                    let c = choose|c: int| 0 <= c < t@.len() && #[trigger] t@[c].0@ == k;
                    lemma_entry_at(t@, c);
                }
            }
        }
    }
    (removed, finished)
}

} // verus!
