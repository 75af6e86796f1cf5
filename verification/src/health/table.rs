//! Association lists keyed by backend identity `(pool, address)`, with at
//! most one entry per key.

use vstd::prelude::*;
use crate::net::SockAddr;
use super::state::BackendKey;

verus! {

/// No two entries share a key.
pub open spec fn keys_unique<V>(t: Seq<(BackendKey, V)>) -> bool {
    forall|i: int, j: int| 0 <= i < j < t.len() ==> #[trigger] t[i].0@ != #[trigger] t[j].0@
}

/// Whether some entry has key `k`.
pub open spec fn has_key<V>(t: Seq<(BackendKey, V)>, k: (Seq<char>, SockAddr)) -> bool {
    exists|i: int| 0 <= i < t.len() && #[trigger] t[i].0@ == k
}

/// The value stored under `k`, if any.
pub open spec fn lookup<V>(t: Seq<(BackendKey, V)>, k: (Seq<char>, SockAddr)) -> Option<V> {
    if has_key(t, k) {
        Some(t[choose|i: int| 0 <= i < t.len() && #[trigger] t[i].0@ == k].1)
    } else {
        None
    }
}

pub proof fn lemma_lookup_at<V>(t: Seq<(BackendKey, V)>, i: int)
    requires
        keys_unique(t),
        0 <= i < t.len(),
    ensures
        lookup(t, t[i].0@) == Some(t[i].1),
{
    let k = t[i].0@;
    assert(t[i].0@ == k);
    let c = choose|c: int| 0 <= c < t.len() && #[trigger] t[c].0@ == k;
    if c != i {
        if c < i {
            assert(t[c].0@ != t[i].0@);
        } else {
            assert(t[i].0@ != t[c].0@);
        }
    }
}

/// Position of the entry with key `(pool, address)`, if any.
pub fn find_key<V>(t: &Vec<(BackendKey, V)>, pool: &String, address: SockAddr) -> (r: Option<usize>)
    requires
        keys_unique(t@),
    ensures
        r is None <==> !has_key(t@, (pool@, address)),
        r is None ==> lookup(t@, (pool@, address)) is None,
        r matches Some(i) ==> i < t@.len() && t@[i as int].0@ == (pool@, address) && lookup(
            t@,
            (pool@, address),
        ) == Some(t@[i as int].1),
{
    let mut i: usize = 0;
    while i < t.len()
        invariant
            keys_unique(t@),
            0 <= i <= t@.len(),
            forall|k: int| 0 <= k < i ==> t@[k].0@ != (pool@, address),
        decreases t@.len() - i,
    {
        if t[i].0.address == address && t[i].0.pool == *pool {
            proof {
                lemma_lookup_at(t@, i as int);
            }
            return Some(i);
        }
        i += 1;
    }
    None
}

/// Store `v` under `key`, replacing an existing entry for that key.
pub fn assoc_insert<V>(t: &mut Vec<(BackendKey, V)>, key: BackendKey, v: V)
    requires
        keys_unique(old(t)@),
    ensures
        keys_unique(final(t)@),
        forall|k: (Seq<char>, SockAddr)| #[trigger]
            lookup(final(t)@, k) == if k == key@ {
                Some(v)
            } else {
                lookup(old(t)@, k)
            },
{
    let ghost kv = key@;
    match find_key(t, &key.pool, key.address) {
        Some(i) => {
            t.set(i, (key, v));
            proof {
                assert(keys_unique(t@)) by {
                    assert forall|a: int, b: int| 0 <= a < b < t@.len() implies #[trigger] t@[a].0@
                        != #[trigger] t@[b].0@ by {
                        assert(old(t)@[a].0@ != old(t)@[b].0@);
                    }
                }
                assert forall|k: (Seq<char>, SockAddr)| #[trigger]
                    lookup(t@, k) == if k == kv {
                        Some(v)
                    } else {
                        lookup(old(t)@, k)
                    } by {
                    if k == kv {
                        lemma_lookup_at(t@, i as int);
                    } else if has_key(old(t)@, k) {
                        let j = choose|j: int| 0 <= j < old(t)@.len() && #[trigger] old(t)@[j].0@ == k;
                        lemma_lookup_at(old(t)@, j);
                        lemma_lookup_at(t@, j);
                    } else {
                        if has_key(t@, k) {
                            let j = choose|j: int| 0 <= j < t@.len() && #[trigger] t@[j].0@ == k;
                            assert(old(t)@[j].0@ == k);
                        }
                    }
                }
            }
        },
        None => {
            t.push((key, v));
            proof {
                let n = old(t)@.len() as int;
                assert(keys_unique(t@)) by {
                    assert forall|a: int, b: int| 0 <= a < b < t@.len() implies #[trigger] t@[a].0@
                        != #[trigger] t@[b].0@ by {
                        if b == n {
                            assert(old(t)@[a].0@ == t@[a].0@);
                        } else {
                            assert(old(t)@[a].0@ != old(t)@[b].0@);
                        }
                    }
                }
                assert forall|k: (Seq<char>, SockAddr)| #[trigger]
                    lookup(t@, k) == if k == kv {
                        Some(v)
                    } else {
                        lookup(old(t)@, k)
                    } by {
                    if k == kv {
                        lemma_lookup_at(t@, n);
                    } else if has_key(old(t)@, k) {
                        let j = choose|j: int| 0 <= j < old(t)@.len() && #[trigger] old(t)@[j].0@ == k;
                        lemma_lookup_at(old(t)@, j);
                        lemma_lookup_at(t@, j);
                    } else {
                        if has_key(t@, k) {
                            let j = choose|j: int| 0 <= j < t@.len() && #[trigger] t@[j].0@ == k;
                            assert(j != n);
                            assert(old(t)@[j].0@ == k);
                        }
                    }
                }
            }
        },
    }
}

/// Remove the entry for `(pool, address)`, if any.
pub fn assoc_remove<V>(t: &mut Vec<(BackendKey, V)>, pool: &String, address: SockAddr)
    requires
        keys_unique(old(t)@),
    ensures
        keys_unique(final(t)@),
        forall|k: (Seq<char>, SockAddr)| #[trigger]
            lookup(final(t)@, k) == if k == (pool@, address) {
                None
            } else {
                lookup(old(t)@, k)
            },
{
    match find_key(t, pool, address) {
        Some(i) => {
            let _ = t.remove(i);
            proof {
                let o = old(t)@;
                assert(t@ == o.remove(i as int));
                assert(keys_unique(t@)) by {
                    assert forall|a: int, b: int| 0 <= a < b < t@.len() implies #[trigger] t@[a].0@
                        != #[trigger] t@[b].0@ by {
                        let oa = if a < i { a } else { a + 1 };
                        let ob = if b < i { b } else { b + 1 };
                        assert(t@[a] == o[oa]);
                        assert(t@[b] == o[ob]);
                        assert(o[oa].0@ != o[ob].0@);
                    }
                }
                assert forall|k: (Seq<char>, SockAddr)| #[trigger]
                    lookup(t@, k) == if k == (pool@, address) {
                        None
                    } else {
                        lookup(o, k)
                    } by {
                    if has_key(t@, k) {
                        let j = choose|j: int| 0 <= j < t@.len() && #[trigger] t@[j].0@ == k;
                        let oj = if j < i { j } else { j + 1 };
                        assert(t@[j] == o[oj]);
                        assert(oj != i) ;
                        lemma_lookup_at(t@, j);
                        lemma_lookup_at(o, oj);
                        if k == (pool@, address) {
                            assert(o[oj].0@ == o[i as int].0@);
                            if oj < i {
                                assert(o[oj].0@ != o[i as int].0@);
                            } else {
                                assert(o[i as int].0@ != o[oj].0@);
                            }
                        }
                    } else {
                        if k != (pool@, address) && has_key(o, k) {
                            let j = choose|j: int| 0 <= j < o.len() && #[trigger] o[j].0@ == k;
                            assert(j != i);
                            let tj = if j < i { j } else { j - 1 };
                            assert(t@[tj] == o[j]);
                        }
                    }
                }
            }
        },
        None => {},
    }
}

} // verus!
