//! Association lists keyed by strings, with at most one entry per key.

use vstd::prelude::*;

verus! {

/// No two entries share a key.
pub open spec fn unique_keys<V>(t: Seq<(String, V)>) -> bool {
    forall|i: int, j: int| 0 <= i < j < t.len() ==> #[trigger] t[i].0@ != #[trigger] t[j].0@
}

/// Whether some entry has key `k`.
pub open spec fn holds_key<V>(t: Seq<(String, V)>, k: Seq<char>) -> bool {
    exists|i: int| 0 <= i < t.len() && #[trigger] t[i].0@ == k
}

/// The entry stored under `k`, if any.
pub open spec fn entry_for<V>(t: Seq<(String, V)>, k: Seq<char>) -> Option<V> {
    if holds_key(t, k) {
        Some(t[choose|i: int| 0 <= i < t.len() && #[trigger] t[i].0@ == k].1)
    } else {
        None
    }
}

pub proof fn lemma_entry_at<V>(t: Seq<(String, V)>, i: int)
    requires
        unique_keys(t),
        0 <= i < t.len(),
    ensures
        entry_for(t, t[i].0@) == Some(t[i].1),
{
    let k = t[i].0@;
    assert(t[i].0@ == k);
    let c = choose|c: int| 0 <= c < t.len() && #[trigger] t[c].0@ == k;
    if c != i {
        if c < i {
            assert(t[c].0@ != t[i].0@);
        } else {
            assert(t[i].0@ != t[c].0@);
        }
    }
}

/// Removing position `i` drops exactly the key stored there.
pub proof fn lemma_remove_at<V>(t: Seq<(String, V)>, i: int)
    requires
        unique_keys(t),
        0 <= i < t.len(),
    ensures
        unique_keys(t.remove(i)),
        forall|k: Seq<char>| #[trigger]
            entry_for(t.remove(i), k) == if k == t[i].0@ {
                None
            } else {
                entry_for(t, k)
            },
{
    let r = t.remove(i);
    assert(unique_keys(r)) by {
        assert forall|a: int, b: int| 0 <= a < b < r.len() implies #[trigger] r[a].0@
            != #[trigger] r[b].0@ by {
            let oa = if a < i { a } else { a + 1 };
            let ob = if b < i { b } else { b + 1 };
            assert(r[a] == t[oa]);
            assert(r[b] == t[ob]);
            assert(t[oa].0@ != t[ob].0@);
        }
    }
    assert forall|k: Seq<char>| #[trigger]
        entry_for(r, k) == if k == t[i].0@ {
            None
        } else {
            entry_for(t, k)
        } by {
        if holds_key(r, k) {
            let j = choose|j: int| 0 <= j < r.len() && #[trigger] r[j].0@ == k;
            let oj = if j < i { j } else { j + 1 };
            assert(r[j] == t[oj]);
            lemma_entry_at(r, j);
            lemma_entry_at(t, oj);
            if k == t[i].0@ {
                if oj < i {
                    assert(t[oj].0@ != t[i].0@);
                } else {
                    assert(t[i].0@ != t[oj].0@);
                }
            }
        } else {
            if k != t[i].0@ && holds_key(t, k) {
                let j = choose|j: int| 0 <= j < t.len() && #[trigger] t[j].0@ == k;
                assert(j != i);
                let rj = if j < i { j } else { j - 1 };
                assert(r[rj] == t[j]);
            }
        }
    }
}

/// Position of the entry whose key equals `key`, if any.
pub fn find_entry<V>(t: &Vec<(String, V)>, key: &str) -> (r: Option<usize>)
    requires
        unique_keys(t@),
    ensures
        r is None <==> !holds_key(t@, key@),
        r is None ==> entry_for(t@, key@) is None,
        r matches Some(i) ==> i < t@.len() && t@[i as int].0@ == key@ && entry_for(t@, key@)
            == Some(t@[i as int].1),
{
    let mut i: usize = 0;
    while i < t.len()
        invariant
            unique_keys(t@),
            0 <= i <= t@.len(),
            forall|k: int| 0 <= k < i ==> t@[k].0@ != key@,
        decreases t@.len() - i,
    {
        if crate::text::str_eq(t[i].0.as_str(), key) {
            proof {
                lemma_entry_at(t@, i as int);
            }
            return Some(i);
        }
        i += 1;
    }
    None
}

/// Store `entry` under `key`, replacing the entry that key had.
pub fn put_entry<V>(t: &mut Vec<(String, V)>, key: String, entry: V)
    requires
        unique_keys(old(t)@),
    ensures
        unique_keys(final(t)@),
        forall|k: Seq<char>| #[trigger]
            entry_for(final(t)@, k) == if k == key@ {
                Some(entry)
            } else {
                entry_for(old(t)@, k)
            },
        forall|j: int|
            0 <= j < final(t)@.len() ==> (#[trigger] final(t)@[j]).0@ == key@ || holds_key(
                old(t)@,
                final(t)@[j].0@,
            ),
        final(t)@.len() == old(t)@.len() + if holds_key(old(t)@, key@) {
            0int
        } else {
            1int
        },
{
    let ghost kv = key@;
    let ghost ev = entry;
    match find_entry(t, &key) {
        Some(i) => {
            t.set(i, (key, entry));
            proof {
                let o = old(t)@;
                assert(unique_keys(t@)) by {
                    assert forall|a: int, b: int| 0 <= a < b < t@.len() implies #[trigger] t@[a].0@
                        != #[trigger] t@[b].0@ by {
                        assert(o[a].0@ != o[b].0@);
                    }
                }
                assert forall|k: Seq<char>| #[trigger]
                    entry_for(t@, k) == if k == kv {
                        Some(ev)
                    } else {
                        entry_for(o, k)
                    } by {
                    if k == kv {
                        lemma_entry_at(t@, i as int);
                    } else if holds_key(o, k) {
                        let j = choose|j: int| 0 <= j < o.len() && #[trigger] o[j].0@ == k;
                        lemma_entry_at(o, j);
                        lemma_entry_at(t@, j);
                    } else {
                        if holds_key(t@, k) {
                            let j = choose|j: int| 0 <= j < t@.len() && #[trigger] t@[j].0@ == k;
                            assert(o[j].0@ == k);
                        }
                    }
                }
                assert forall|j: int| 0 <= j < t@.len() implies (#[trigger] t@[j]).0@ == kv
                    || holds_key(o, t@[j].0@) by {
                    if j != i {
                        assert(o[j].0@ == t@[j].0@);
                    }
                }
            }
        },
        None => {
            t.push((key, entry));
            proof {
                let o = old(t)@;
                let n = o.len() as int;
                assert(unique_keys(t@)) by {
                    assert forall|a: int, b: int| 0 <= a < b < t@.len() implies #[trigger] t@[a].0@
                        != #[trigger] t@[b].0@ by {
                        if b == n {
                            assert(o[a].0@ == t@[a].0@);
                        } else {
                            assert(o[a].0@ != o[b].0@);
                        }
                    }
                }
                assert forall|k: Seq<char>| #[trigger]
                    entry_for(t@, k) == if k == kv {
                        Some(ev)
                    } else {
                        entry_for(o, k)
                    } by {
                    if k == kv {
                        lemma_entry_at(t@, n);
                    } else if holds_key(o, k) {
                        let j = choose|j: int| 0 <= j < o.len() && #[trigger] o[j].0@ == k;
                        lemma_entry_at(o, j);
                        lemma_entry_at(t@, j);
                    } else {
                        if holds_key(t@, k) {
                            let j = choose|j: int| 0 <= j < t@.len() && #[trigger] t@[j].0@ == k;
                            assert(j != n);
                            assert(o[j].0@ == k);
                        }
                    }
                }
                assert forall|j: int| 0 <= j < t@.len() implies (#[trigger] t@[j]).0@ == kv
                    || holds_key(o, t@[j].0@) by {
                    if j != n {
                        assert(o[j].0@ == t@[j].0@);
                    }
                }
            }
        },
    }
}

/// Remove the entry at position `i`, returning it.
pub fn take_at<V>(t: &mut Vec<(String, V)>, i: usize) -> (r: (String, V))
    requires
        unique_keys(old(t)@),
        i < old(t)@.len(),
    ensures
        r == old(t)@[i as int],
        final(t)@ == old(t)@.remove(i as int),
        unique_keys(final(t)@),
        forall|k: Seq<char>| #[trigger]
            entry_for(final(t)@, k) == if k == r.0@ {
                None
            } else {
                entry_for(old(t)@, k)
            },
{
    proof {
        lemma_remove_at(t@, i as int);
    }
    t.remove(i)
}

} // verus!
