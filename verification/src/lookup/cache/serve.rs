//! Prepare cached wire for a client response: response id, TTLs decayed by
//! the entry's age, optional cyclic rotation of each answer RRset, and the
//! client's own question when an ancestor entry answers.

use vstd::prelude::*;
use vstd::seq_lib::*;
use std::sync::Arc;
use crate::clock::{Instant, spec_secs_between};
use crate::dns_message::{spec_wire_header, spec_wire_tc, spec_record_views, spec_ttls, spec_no_opt,
    spec_summary_agrees, spec_wire_agrees, spec_edns_payload_ok, add_questions, EdnsView, HeaderView, MessageView,
    QuestionView, RecordView, SectionsView, DnsMessage, spec_wire_records, spec_wire_section,
    spec_wire_question_origins, spec_encodes,
    decode_message, edns_of, encode_message, put_additionals, put_answers,
    put_authority, put_edns, record_ttl, rrset_key, set_message_id, set_record_ttl,
    take_additionals, take_answers, take_authority, take_questions, clear_questions,
    ResourceRecord,
};
use crate::lookup::cache::response::spec_response_summary;
use crate::text::str_eq;
use crate::structural_parse::{spec_wire_edns, spec_wire_query};

verus! {

/// Why a cached wire could not be served.
#[derive(Debug, Clone, Copy, PartialEq, Eq, Structural)]
pub enum ServeError {
    /// The stored wire, or the client's query wire, does not decode.
    Malformed,
    /// The edited message did not encode.
    Encode,
}

/// Whole seconds since the entry was stored, saturating at `u32::MAX`.
pub open spec fn spec_cache_age(filled_at: Instant, now: Instant) -> int {
    let s = spec_secs_between(filled_at, now);
    if s > u32::MAX as int { u32::MAX as int } else { s }
}

/// Whole seconds since the entry was stored (DNS TTL aging uses second
/// granularity); zero when `now` is not after `filled_at`.
pub fn cache_age_secs(filled_at: Instant, now: Instant) -> (r: u32)
    ensures
        r == spec_cache_age(filled_at, now),
{
    let secs = now.saturating_secs_since(filled_at);
    if secs > u32::MAX as u64 {
        u32::MAX
    } else {
        secs as u32
    }
}

/// A record's TTL after `age` seconds in the cache: lowered by `age`,
/// stopping at zero.
pub open spec fn spec_decayed_ttl(ttl: u32, age: u32) -> u32 {
    if ttl >= age { (ttl - age) as u32 } else { 0 }
}

/// Each TTL after `age` seconds in the cache.
pub open spec fn spec_decayed_ttls(ttls: Seq<u32>, age: u32) -> Seq<u32> {
    ttls.map_values(|t: u32| spec_decayed_ttl(t, age))
}

/// The records after `age` seconds in the cache: same types, decayed TTLs.
pub open spec fn spec_decayed_views(v: Seq<RecordView>, age: u32) -> Seq<RecordView> {
    v.map_values(|r: RecordView| RecordView { ttl: spec_decayed_ttl(r.ttl, age), ..r })
}

proof fn lemma_decayed_views(v: Seq<RecordView>, w: Seq<RecordView>, age: u32)
    ensures
        spec_no_opt(v) ==> spec_no_opt(spec_decayed_views(v, age)),
        spec_ttls(spec_decayed_views(v, age)) + spec_ttls(spec_decayed_views(w, age))
            == spec_decayed_ttls(spec_ttls(v) + spec_ttls(w), age),
        age == 0 ==> spec_decayed_views(v, age) == v,
{
    let d = spec_decayed_views(v, age);
    if spec_no_opt(v) {
        assert forall|i: int| 0 <= i < d.len() implies (#[trigger] d[i]).rtype != crate::dns_message::spec_opt_type() by {
            assert(d[i].rtype == v[i].rtype);
        }
    }
    assert(spec_ttls(spec_decayed_views(v, age)) + spec_ttls(spec_decayed_views(w, age))
        =~= spec_decayed_ttls(spec_ttls(v) + spec_ttls(w), age));
    if age == 0 {
        assert(spec_decayed_views(v, age) =~= v);
    }
}

/// A record's TTL after `age` seconds in the cache.
pub fn decayed_ttl(ttl: u32, age: u32) -> (r: u32)
    ensures
        r == spec_decayed_ttl(ttl, age),
{
    ttl.saturating_sub(age)
}

/// One xorshift64* step of the serve-time generator.
pub open spec fn spec_xorshift(x: u64) -> u64 {
    let a = x ^ (x >> 12u64);
    let b = a ^ (a << 25u64);
    let c = b ^ (b >> 27u64);
    ((c as nat * 0x2545_F491_4F6C_DD1Dnat) % 0x1_0000_0000_0000_0000nat) as u64
}

/// The seed the serve-time generator starts from.
pub const SERVE_RAND_SEED: u64 = 0x9E37_79B9_7F4A_7C15;

/// Advances the generator state and returns the new state, which is also
/// the drawn value.
pub fn next_serve_rand(state: &mut u64) -> (r: u64)
    ensures
        r == spec_xorshift(*old(state)),
        *final(state) == r,
{
    let mut x = *state;
    x = x ^ (x >> 12u64);
    x = x ^ (x << 25u64);
    x = x ^ (x >> 27u64);
    x = x.wrapping_mul(0x2545_F491_4F6C_DD1Du64);
    *state = x;
    x
}

/// The RRset keys `(owner name, type)` as plain values.
pub open spec fn spec_key_views(keys: Seq<(String, u16)>) -> Seq<(Seq<char>, u16)> {
    keys.map_values(|k: (String, u16)| (k.0@, k.1))
}

/// Adds position `i` to the group whose first member has the same key, or
/// opens a new group for it at the end.
pub open spec fn spec_add_member(groups: Seq<Seq<int>>, keys: Seq<(Seq<char>, u16)>, i: int) -> Seq<Seq<int>>
    decreases groups.len(),
{
    if groups.len() == 0 {
        seq![seq![i]]
    } else if keys[groups[0][0]] == keys[i] {
        groups.update(0, groups[0].push(i))
    } else {
        seq![groups[0]] + spec_add_member(groups.drop_first(), keys, i)
    }
}

/// The positions `0..n` grouped by RRset key: groups in the order their key
/// first appears, members in position order.
pub open spec fn spec_rrset_groups(keys: Seq<(Seq<char>, u16)>, n: nat) -> Seq<Seq<int>>
    decreases n,
{
    if n == 0 {
        Seq::empty()
    } else {
        spec_add_member(spec_rrset_groups(keys, (n - 1) as nat), keys, n - 1)
    }
}

/// `s` rotated left by `k`.
pub open spec fn spec_rotate(s: Seq<int>, k: int) -> Seq<int> {
    s.subrange(k, s.len() as int) + s.subrange(0, k)
}

/// The first `k` groups concatenated, each group of two or more members
/// rotated left by a fresh draw of the generator modulo its size; with the
/// generator state afterwards.
pub open spec fn spec_rotate_groups(groups: Seq<Seq<int>>, k: nat, state: u64) -> (Seq<int>, u64)
    decreases k,
{
    if k == 0 {
        (Seq::empty(), state)
    } else {
        let (acc, st) = spec_rotate_groups(groups, (k - 1) as nat, state);
        let g = groups[k - 1];
        if g.len() > 1 {
            let r = spec_xorshift(st);
            (acc + spec_rotate(g, (r as int) % (g.len() as int)), r)
        } else {
            (acc + g, st)
        }
    }
}

/// The order in which RRset rotation serves the records with these keys:
/// positions of the original section, and the generator state afterwards.
pub open spec fn spec_rotation_order(keys: Seq<(Seq<char>, u16)>, state: u64) -> (Seq<int>, u64) {
    let groups = spec_rrset_groups(keys, keys.len());
    spec_rotate_groups(groups, groups.len(), state)
}

/// The positions `0..n` in order.
pub open spec fn spec_positions(n: nat) -> Seq<int> {
    Seq::new(n, |j: int| j)
}

proof fn lemma_flatten_cons(a: Seq<int>, b: Seq<Seq<int>>)
    ensures
        (seq![a] + b).flatten() == a + b.flatten(),
{
    let s = seq![a] + b;
    assert(s.len() > 0);
    assert(s.first() == a);
    assert(s.drop_first() =~= b);
}

proof fn lemma_add_member_multiset(groups: Seq<Seq<int>>, keys: Seq<(Seq<char>, u16)>, i: int)
    ensures
        spec_add_member(groups, keys, i).flatten().to_multiset() =~= groups.flatten().to_multiset().insert(i),
    decreases groups.len(),
{
    broadcast use group_to_multiset_ensures, lemma_multiset_commutative;
    broadcast use vstd::multiset::group_multiset_axioms;

    if groups.len() == 0 {
        lemma_flatten_cons(seq![i], Seq::<Seq<int>>::empty());
        assert(seq![seq![i]] =~= seq![seq![i]] + Seq::<Seq<int>>::empty());
        assert(Seq::<Seq<int>>::empty().flatten() =~= Seq::<int>::empty());
        assert(seq![i] =~= Seq::<int>::empty().push(i));
        assert(groups.flatten() =~= Seq::<int>::empty());
    } else {
        let rest = groups.drop_first();
        assert(groups =~= seq![groups[0]] + rest);
        lemma_flatten_cons(groups[0], rest);
        if keys[groups[0][0]] == keys[i] {
            let u = groups.update(0, groups[0].push(i));
            assert(u =~= seq![groups[0].push(i)] + rest);
            lemma_flatten_cons(groups[0].push(i), rest);
        } else {
            lemma_add_member_multiset(rest, keys, i);
            lemma_flatten_cons(groups[0], spec_add_member(rest, keys, i));
        }
    }
}

proof fn lemma_groups_multiset(keys: Seq<(Seq<char>, u16)>, n: nat)
    ensures
        spec_rrset_groups(keys, n).flatten().to_multiset() =~= spec_positions(n).to_multiset(),
    decreases n,
{
    broadcast use group_to_multiset_ensures;

    if n == 0 {
        assert(spec_positions(0) =~= Seq::<int>::empty());
    } else {
        lemma_groups_multiset(keys, (n - 1) as nat);
        lemma_add_member_multiset(spec_rrset_groups(keys, (n - 1) as nat), keys, n - 1);
        assert(spec_positions(n) =~= spec_positions((n - 1) as nat).push(n - 1));
    }
}

proof fn lemma_rotate_groups_multiset(groups: Seq<Seq<int>>, k: nat, state: u64)
    requires
        k <= groups.len(),
    ensures
        spec_rotate_groups(groups, k, state).0.to_multiset() =~= groups.take(k as int).flatten().to_multiset(),
    decreases k,
{
    broadcast use lemma_multiset_commutative;

    if k == 0 {
        assert(groups.take(0) =~= Seq::<Seq<int>>::empty());
    } else {
        lemma_rotate_groups_multiset(groups, (k - 1) as nat, state);
        let g = groups[k - 1];
        assert(groups.take(k as int) =~= groups.take(k - 1).push(g));
        groups.take(k - 1).lemma_flatten_push(g);
        if g.len() > 1 {
            let (_, st) = spec_rotate_groups(groups, (k - 1) as nat, state);
            let r = spec_xorshift(st);
            let off = (r as int) % (g.len() as int);
            assert(g =~= g.subrange(0, off) + g.subrange(off, g.len() as int));
        }
    }
}

/// Two sequences with the same elements keep the same elements under a map.
proof fn lemma_map_same_multiset<A, B>(a: Seq<A>, b: Seq<A>, f: spec_fn(A) -> B)
    requires
        a.to_multiset() =~= b.to_multiset(),
    ensures
        a.map_values(f).to_multiset() =~= b.map_values(f).to_multiset(),
    decreases a.len(),
{
    broadcast use group_to_multiset_ensures;
    broadcast use vstd::multiset::group_multiset_axioms;

    if a.len() == 0 {
        to_multiset_len(a);
        to_multiset_len(b);
        assert(b.len() == 0);
        assert(a.map_values(f) =~= Seq::<B>::empty());
        assert(b.map_values(f) =~= Seq::<B>::empty());
    } else {
        let x = a.last();
        let a0 = a.drop_last();
        assert(a =~= a0.push(x));
        assert(a.to_multiset().count(x) > 0);
        assert(b.contains(x));
        let i = choose|i: int| 0 <= i < b.len() && b[i] == x;
        let b0 = b.remove(i);
        assert(a0.to_multiset() =~= b0.to_multiset());
        lemma_map_same_multiset(a0, b0, f);
        let am = a.map_values(f);
        let bm = b.map_values(f);
        assert(am =~= a0.map_values(f).push(f(x)));
        assert(bm.remove(i) =~= b0.map_values(f));
        assert(bm[i] == f(x));
        assert(bm.to_multiset().count(f(x)) > 0);
        assert(bm.to_multiset() =~= bm.remove(i).to_multiset().insert(f(x)));
    }
}

/// RRset rotation only reorders: every position of the section is served
/// exactly once.
pub proof fn lemma_rotation_is_permutation(keys: Seq<(Seq<char>, u16)>, state: u64)
    ensures
        spec_rotation_order(keys, state).0.to_multiset() =~= spec_positions(keys.len()).to_multiset(),
{
    let groups = spec_rrset_groups(keys, keys.len());
    lemma_rotate_groups_multiset(groups, groups.len(), state);
    assert(groups.take(groups.len() as int) =~= groups);
    lemma_groups_multiset(keys, keys.len());
}

/// Every group is non-empty, holds positions below `n`, and its members
/// share the key of its first member.
pub open spec fn spec_groups_wf(groups: Seq<Seq<int>>, keys: Seq<(Seq<char>, u16)>, n: int) -> bool {
    forall|g: int| 0 <= g < groups.len() ==> {
        &&& groups[g].len() > 0
        &&& forall|m: int| 0 <= m < groups[g].len() ==> 0 <= #[trigger] groups[g][m] < n
            && keys[groups[g][m]] == keys[groups[g][0]]
    }
}

proof fn lemma_add_member_found(groups: Seq<Seq<int>>, keys: Seq<(Seq<char>, u16)>, i: int, j: int)
    requires
        0 <= j < groups.len(),
        forall|g: int| 0 <= g < groups.len() ==> #[trigger] groups[g].len() > 0,
        keys[groups[j][0]] == keys[i],
        forall|g: int| 0 <= g < j ==> keys[#[trigger] groups[g][0]] != keys[i],
    ensures
        spec_add_member(groups, keys, i) == groups.update(j, groups[j].push(i)),
    decreases groups.len(),
{
    if j > 0 {
        let rest = groups.drop_first();
        assert(groups[0].len() > 0);
        assert(keys[groups[0][0]] != keys[i]);
        assert forall|g: int| 0 <= g < rest.len() implies #[trigger] rest[g].len() > 0 by {
            assert(rest[g] == groups[g + 1]);
        }
        assert forall|g: int| 0 <= g < j - 1 implies keys[#[trigger] rest[g][0]] != keys[i] by {
            assert(rest[g] == groups[g + 1]);
        }
        lemma_add_member_found(rest, keys, i, j - 1);
        assert(spec_add_member(groups, keys, i) =~= groups.update(j, groups[j].push(i)));
    }
}

proof fn lemma_add_member_new(groups: Seq<Seq<int>>, keys: Seq<(Seq<char>, u16)>, i: int)
    requires
        forall|g: int| 0 <= g < groups.len() ==> #[trigger] groups[g].len() > 0,
        forall|g: int| 0 <= g < groups.len() ==> keys[#[trigger] groups[g][0]] != keys[i],
    ensures
        spec_add_member(groups, keys, i) == groups.push(seq![i]),
    decreases groups.len(),
{
    if groups.len() > 0 {
        let rest = groups.drop_first();
        assert(keys[groups[0][0]] != keys[i]);
        assert forall|g: int| 0 <= g < rest.len() implies #[trigger] rest[g].len() > 0 by {
            assert(rest[g] == groups[g + 1]);
        }
        assert forall|g: int| 0 <= g < rest.len() implies keys[#[trigger] rest[g][0]] != keys[i] by {
            assert(rest[g] == groups[g + 1]);
        }
        lemma_add_member_new(rest, keys, i);
        assert(spec_add_member(groups, keys, i) =~= groups.push(seq![i]));
    }
}

/// Whether two RRset keys are equal.
fn same_key(a: &(String, u16), b: &(String, u16)) -> (r: bool)
    ensures
        r == ((a.0@, a.1) == (b.0@, b.1)),
{
    a.1 == b.1 && str_eq(&a.0, &b.0)
}

/// `v` rotated left by `k`.
fn rotate_vec<T>(v: Vec<T>, k: usize) -> (r: Vec<T>)
    requires
        k <= v@.len(),
    ensures
        r@ == v@.subrange(k as int, v@.len() as int) + v@.subrange(0, k as int),
{
    let mut head = v;
    let mut tail = head.split_off(k);
    tail.append(&mut head);
    tail
}

/// The items rearranged in the order of `spec_rotation_order`: grouped by
/// RRset key (groups in first-appearance order), each group of two or more
/// rotated left by a draw of the generator modulo its size.
pub fn rotate_rrsets<T>(items: Vec<T>, keys: &Vec<(String, u16)>, state: &mut u64) -> (r: Vec<T>)
    requires
        keys@.len() == items@.len(),
    ensures
        r@ == spec_rotation_order(spec_key_views(keys@), *old(state)).0.map_values(|i: int| items@[i]),
        *final(state) == spec_rotation_order(spec_key_views(keys@), *old(state)).1,
{
    let ghost kv = spec_key_views(keys@);
    let ghost orig = items@;
    let n = items.len();
    let mut rest = items;
    let mut groups: Vec<Vec<T>> = Vec::new();
    let mut firsts: Vec<usize> = Vec::new();
    let ghost mut gidx: Seq<Seq<int>> = Seq::empty();
    let mut i: usize = 0;
    while i < n
        invariant
            n == orig.len(),
            keys@.len() == n,
            kv == spec_key_views(keys@),
            i <= n,
            rest@ == orig.subrange(i as int, n as int),
            gidx == spec_rrset_groups(kv, i as nat),
            spec_groups_wf(gidx, kv, i as int),
            groups@.len() == gidx.len(),
            firsts@.len() == gidx.len(),
            forall|g: int| 0 <= g < gidx.len() ==> #[trigger] firsts@[g] == gidx[g][0],
            forall|g: int| 0 <= g < gidx.len() ==> (#[trigger] groups@[g])@ == gidx[g].map_values(|j: int| orig[j]),
        decreases n - i,
    {
        let item = rest.remove(0);
        let mut j: usize = 0;
        while j < groups.len() && !same_key(&keys[firsts[j]], &keys[i])
            invariant
                j <= groups@.len(),
                groups@.len() == gidx.len(),
                firsts@.len() == gidx.len(),
                keys@.len() == n,
                i < n,
                kv == spec_key_views(keys@),
                spec_groups_wf(gidx, kv, i as int),
                forall|g: int| 0 <= g < gidx.len() ==> #[trigger] firsts@[g] == gidx[g][0],
                forall|g: int| 0 <= g < j ==> kv[#[trigger] gidx[g][0]] != kv[i as int],
            decreases groups@.len() - j,
        {
            proof {
                assert(gidx[j as int].len() > 0);
                assert(kv[firsts@[j as int] as int] == (keys@[firsts@[j as int] as int].0@, keys@[firsts@[j as int] as int].1));
                assert(kv[i as int] == (keys@[i as int].0@, keys@[i as int].1));
            }
            j = j + 1;
        }
        let ghost old_gidx = gidx;
        let ghost old_groups = groups@;
        proof {
            assert forall|g: int| 0 <= g < gidx.len() implies #[trigger] gidx[g].len() > 0 by {}
        }
        if j < groups.len() {
            proof {
                assert(gidx[j as int].len() > 0);
                assert(kv[firsts@[j as int] as int] == (keys@[firsts@[j as int] as int].0@, keys@[firsts@[j as int] as int].1));
                assert(kv[i as int] == (keys@[i as int].0@, keys@[i as int].1));
                lemma_add_member_found(old_gidx, kv, i as int, j as int);
            }
            let mut g = groups.remove(j);
            g.push(item);
            groups.insert(j, g);
            proof {
                gidx = old_gidx.update(j as int, old_gidx[j as int].push(i as int));
                assert(gidx[j as int].map_values(|x: int| orig[x]) =~= old_gidx[j as int].map_values(|x: int| orig[x]).push(orig[i as int]));
                assert forall|g: int| 0 <= g < gidx.len() implies (#[trigger] groups@[g])@ == gidx[g].map_values(|x: int| orig[x]) by {
                    if g < j {
                        assert(groups@[g] == old_groups[g]);
                    } else if g > j {
                        assert(groups@[g] == old_groups[g]);
                    }
                }
            }
        } else {
            proof {
                lemma_add_member_new(old_gidx, kv, i as int);
            }
            groups.push(vec![item]);
            firsts.push(i);
            proof {
                gidx = old_gidx.push(seq![i as int]);
                assert(gidx[gidx.len() - 1].map_values(|x: int| orig[x]) =~= seq![orig[i as int]]);
            }
        }
        proof {
            assert(rest@ =~= orig.subrange(i + 1, n as int));
            assert forall|g: int| 0 <= g < gidx.len() implies {
                &&& gidx[g].len() > 0
                &&& forall|m: int| 0 <= m < gidx[g].len() ==> 0 <= #[trigger] gidx[g][m] < i + 1
                    && kv[gidx[g][m]] == kv[gidx[g][0]]
            } by {
                if g < old_gidx.len() {
                    assert forall|m: int| 0 <= m < gidx[g].len() implies 0 <= #[trigger] gidx[g][m] < i + 1
                        && kv[gidx[g][m]] == kv[gidx[g][0]] by {
                        if m < old_gidx[g].len() {
                            assert(gidx[g][m] == old_gidx[g][m]);
                            assert(gidx[g][0] == old_gidx[g][0]);
                        }
                    }
                }
            }
        }
        i = i + 1;
    }
    let ghost total = gidx.len();
    let mut out: Vec<T> = Vec::new();
    let ghost mut done: nat = 0;
    while groups.len() > 0
        invariant
            done + groups@.len() == total,
            total == gidx.len(),
            spec_groups_wf(gidx, kv, n as int),
            n == orig.len(),
            forall|g: int| 0 <= g < groups@.len() ==> (#[trigger] groups@[g])@ == gidx[done + g].map_values(|j: int| orig[j]),
            out@ == spec_rotate_groups(gidx, done, *old(state)).0.map_values(|j: int| orig[j]),
            *state == spec_rotate_groups(gidx, done, *old(state)).1,
        decreases groups@.len(),
    {
        let ghost groups_before = groups@;
        let mut g = groups.remove(0);
        let ghost gi = gidx[done as int];
        assert(g@ == gi.map_values(|j: int| orig[j]));
        if g.len() > 1 {
            let r = next_serve_rand(state);
            let off = (r % (g.len() as u64)) as usize;
            g = rotate_vec(g, off);
            proof {
                assert(g@ =~= spec_rotate(gi, off as int).map_values(|j: int| orig[j]));
            }
        }
        let ghost before = out@;
        out.append(&mut g);
        proof {
            done = done + 1;
            assert forall|k: int| 0 <= k < groups@.len() implies (#[trigger] groups@[k])@ == gidx[done + k].map_values(|j: int| orig[j]) by {
                assert(groups@[k] == groups_before[k + 1]);
            }
            let (acc, _) = spec_rotate_groups(gidx, (done - 1) as nat, *old(state));
            let rotated = if gi.len() > 1 {
                spec_rotate(gi, (spec_xorshift(spec_rotate_groups(gidx, (done - 1) as nat, *old(state)).1) as int) % (gi.len() as int))
            } else {
                gi
            };
            assert(out@ =~= (acc + rotated).map_values(|j: int| orig[j]));
        }
    }
    proof {
        assert(gidx == spec_rrset_groups(kv, kv.len()));
    }
    out
}

/// Lowers every record's TTL by `age` seconds, stopping at zero.
fn decay_records(records: &mut Vec<ResourceRecord>, age: u32)
    ensures
        spec_record_views(final(records)@) == spec_decayed_views(spec_record_views(old(records)@), age),
{
    let ghost orig = spec_record_views(records@);
    let n = records.len();
    let mut i: usize = 0;
    while i < n
        invariant
            records@.len() == n,
            orig.len() == n,
            i <= n,
            forall|j: int| 0 <= j < i ==> (#[trigger] records@[j]).spec_view()
                == (RecordView { ttl: spec_decayed_ttl(orig[j].ttl, age), ..orig[j] }),
            forall|j: int| i <= j < n ==> (#[trigger] records@[j]).spec_view() == orig[j],
        decreases n - i,
    {
        let ghost before = records@;
        let mut rr = records.remove(i);
        let ttl = record_ttl(&rr);
        set_record_ttl(&mut rr, decayed_ttl(ttl, age));
        records.insert(i, rr);
        proof {
            assert forall|j: int| 0 <= j < n && j != i implies #[trigger] records@[j] == before[j] by {}
        }
        i = i + 1;
    }
    proof {
        assert(spec_record_views(records@) =~= spec_decayed_views(orig, age));
    }
}

/// What served records hold against the stored wire's summary, given the
/// served answer count and the served answer-then-authority TTLs: the same
/// answer count and as many TTLs; with rotation off, every answer and
/// authority TTL lowered by `age` in stored order; with rotation on (answer
/// RRsets reordered), the authority TTLs lowered by `age` in stored order
/// and the answer TTLs lowered by `age`, each served as often as stored.
pub open spec fn spec_served_records(
    stored: Option<(u16, nat, Seq<u32>, bool)>,
    count: nat,
    ttls: Seq<u32>,
    age: u32,
    rotate: bool,
) -> bool {
    let n = (stored->0).1 as int;
    &&& stored is Some
    &&& count == (stored->0).1
    &&& ttls.len() == (stored->0).2.len()
    &&& if rotate {
        &&& ttls.skip(n) == spec_decayed_ttls((stored->0).2.skip(n), age)
        &&& ttls.take(n).to_multiset() == spec_decayed_ttls((stored->0).2.take(n), age).to_multiset()
    } else {
        ttls == spec_decayed_ttls((stored->0).2, age)
    }
}

/// What a served wire's summary holds against the stored wire's: it
/// decodes, and its answer count and TTLs are as `spec_served_records`
/// says.
pub open spec fn spec_served_summary(
    stored: Option<(u16, nat, Seq<u32>, bool)>,
    served: Option<(u16, nat, Seq<u32>, bool)>,
    age: u32,
    rotate: bool,
) -> bool {
    &&& served is Some
    &&& spec_served_records(stored, (served->0).1, (served->0).2, age, rotate)
}

/// The answer-then-authority TTLs of sections, as a response summary reads
/// them.
pub open spec fn spec_section_ttls(s: SectionsView) -> Seq<u32> {
    spec_ttls(s.answers) + spec_ttls(s.authority)
}

proof fn lemma_served_records(stored: Seq<u8>, s0: SectionsView, s1: SectionsView, age: u32, rotate: bool)
    requires
        spec_summary_agrees(spec_response_summary(stored), s0),
        s1.authority == spec_decayed_views(s0.authority, age),
        s1.answers.len() == s0.answers.len(),
        !rotate ==> s1.answers == spec_decayed_views(s0.answers, age),
        spec_ttls(s1.answers).to_multiset() == spec_ttls(spec_decayed_views(s0.answers, age)).to_multiset(),
    ensures
        spec_served_records(spec_response_summary(stored), s1.answers.len(), spec_section_ttls(s1), age, rotate),
{
    let n = s0.answers.len() as int;
    let t0 = (spec_response_summary(stored)->0).2;
    let t1 = spec_section_ttls(s1);
    assert(t0.skip(n) =~= spec_ttls(s0.authority));
    assert(t1.skip(n) =~= spec_ttls(s1.authority));
    assert(spec_ttls(s1.authority) =~= spec_decayed_ttls(spec_ttls(s0.authority), age));
    assert(t1.take(n) =~= spec_ttls(s1.answers));
    assert(spec_decayed_ttls(t0.take(n), age) =~= spec_ttls(spec_decayed_views(s0.answers, age)));
    if !rotate {
        assert(t1 =~= spec_decayed_ttls(t0, age));
    }
}

/// The questions and EDNS section a served copy of `stored` carries: those
/// of the client's query when one is given (its EDNS section only when it
/// has one, else the stored one), the stored ones otherwise.
pub open spec fn spec_served_body(stored: Seq<u8>, client: Option<Seq<u8>>) -> (Seq<QuestionView>, Option<EdnsView>) {
    match client {
        Some(q) => (
            (spec_wire_query(q)->0).3,
            if spec_wire_edns(q) is Some { spec_wire_edns(q) } else { spec_wire_edns(stored) },
        ),
        None => ((spec_wire_query(stored)->0).3, spec_wire_edns(stored)),
    }
}

/// The message carries the questions and EDNS section of `spec_served_body`.
pub open spec fn spec_served_body_view(stored: Seq<u8>, client: Option<Seq<u8>>, m: MessageView) -> bool {
    (m.questions, m.edns) == spec_served_body(stored, client)
}

/// A served wire reads back the questions and EDNS section of
/// `spec_served_body`.
pub open spec fn spec_served_wire_body(stored: Seq<u8>, client: Option<Seq<u8>>, served: Seq<u8>) -> bool {
    &&& spec_wire_query(served) is Some
    &&& ((spec_wire_query(served)->0).3, spec_wire_edns(served)) == spec_served_body(stored, client)
}

/// The RRset keys `(owner name, type)` of the answer records of `wire`.
pub open spec fn spec_wire_answer_keys(wire: Seq<u8>) -> Seq<(Seq<char>, u16)> {
    spec_wire_records(wire)[0].map_values(|x: (Seq<char>, u16, u32)| (x.0, x.1))
}

/// The RRset key of a record: the owner name decoded at its origin, its type.
pub open spec fn spec_record_key(r: RecordView) -> (Seq<char>, u16) {
    (spec_wire_records(r.origin.0)[r.origin.1 as int][r.origin.2 as int].0, r.rtype)
}

/// The answer records a served copy carries: the stored ones with their
/// TTLs lowered by `age`, in the order of `spec_rotation_order` when
/// rotating from generator state `rng`.
pub open spec fn spec_served_answers(stored: Seq<u8>, rotate: bool, age: u32, rng: u64) -> Seq<RecordView> {
    let d = spec_decayed_views(spec_wire_section(stored, 0), age);
    if rotate {
        spec_rotation_order(spec_wire_answer_keys(stored), rng).0.map_values(|i: int| d[i])
    } else {
        d
    }
}

/// The generator state after serving: advanced by the rotation's draws.
pub open spec fn spec_served_rng(stored: Seq<u8>, rotate: bool, rng: u64) -> u64 {
    if rotate {
        spec_rotation_order(spec_wire_answer_keys(stored), rng).1
    } else {
        rng
    }
}

/// The wire whose EDNS section a served copy carries: the client's when it
/// has one, else the stored one's, if any.
pub open spec fn spec_served_edns_origin(stored: Seq<u8>, client: Option<Seq<u8>>) -> Option<Seq<u8>> {
    if client matches Some(q) && spec_wire_edns(q) is Some {
        Some(client->0)
    } else if spec_wire_edns(stored) is Some {
        Some(stored)
    } else {
        None
    }
}

/// The message a served copy is encoded from, all of it: the stored header
/// with the new id; the client's questions when a client query is given,
/// else the stored ones; the stored records with TTLs lowered by `age`
/// (answers rotated when `rotate`); and the EDNS section of
/// `spec_served_edns_origin`.
pub open spec fn spec_served_view(
    stored: Seq<u8>,
    query_id: u16,
    rotate: bool,
    age: u32,
    client: Option<Seq<u8>>,
    rng: u64,
) -> MessageView {
    let qsrc = match client {
        Some(q) => q,
        None => stored,
    };
    let questions = (spec_wire_query(qsrc)->0).3;
    MessageView {
        header: HeaderView { id: query_id, ..spec_wire_header(stored)->0 },
        questions,
        sections: SectionsView {
            answers: spec_served_answers(stored, rotate, age, rng),
            authority: spec_decayed_views(spec_wire_section(stored, 1), age),
            additionals: spec_decayed_views(spec_wire_section(stored, 2), age),
        },
        edns: spec_served_body(stored, client).1,
        header_src: Some(stored),
        rcode_set: None,
        question_origins: spec_wire_question_origins(qsrc, questions.len()),
        edns_origin: spec_served_edns_origin(stored, client),
    }
}

/// With at most one record there is nothing to rotate: the order is the
/// identity and the generator does not advance.
proof fn lemma_rotation_small(keys: Seq<(Seq<char>, u16)>, state: u64)
    requires
        keys.len() <= 1,
    ensures
        spec_rotation_order(keys, state) == (spec_positions(keys.len()), state),
{
    let groups = spec_rrset_groups(keys, keys.len());
    if keys.len() == 0 {
        assert(groups =~= Seq::<Seq<int>>::empty());
        assert(spec_positions(0) =~= Seq::<int>::empty());
    } else {
        assert(spec_rrset_groups(keys, 0) =~= Seq::<Seq<int>>::empty());
        assert(groups == spec_add_member(Seq::<Seq<int>>::empty(), keys, 0));
        assert(groups =~= seq![seq![0int]]);
        assert(spec_rotate_groups(groups, 0, state) == (Seq::<int>::empty(), state));
        assert(spec_positions(1) =~= seq![0int]);
        assert(Seq::<int>::empty() + groups[0] =~= seq![0int]);
    }
}

/// The message a served copy of a stored wire is encoded from: response id
/// `query_id`; TTLs of the answer, authority and additional records lowered
/// by the entry's age; answer RRsets rotated when `rotate_rrset` (drawing
/// from `rng`); and, when `client_query_wire` is given, the client's
/// questions and EDNS in place of the stored ones (an ancestor NXDOMAIN
/// entry answering a descendant name). `Malformed` exactly when the stored
/// wire, or the client's query wire, does not decode.
pub fn served_message(
    stored: &[u8],
    query_id: u16,
    rotate_rrset: bool,
    filled_at: Instant,
    now: Instant,
    client_query_wire: Option<&[u8]>,
    rng: &mut u64,
) -> (r: Result<DnsMessage, ServeError>)
    ensures
        r is Err <==> spec_response_summary(stored@) is None || (client_query_wire matches Some(q)
            && spec_response_summary(q@) is None),
        r is Err ==> r matches Err(ServeError::Malformed),
        r matches Ok(m) ==> m@.header == (HeaderView { id: query_id, ..spec_wire_header(stored@)->0 }),
        r matches Ok(m) ==> spec_served_body_view(stored@, match client_query_wire {
            Some(q) => Some(q@),
            None => None,
        }, m@),
        r matches Ok(m) ==> spec_served_records(
            spec_response_summary(stored@),
            m@.sections.answers.len(),
            spec_section_ttls(m@.sections),
            spec_cache_age(filled_at, now) as u32,
            rotate_rrset,
        ),
        r matches Ok(m) ==> spec_no_opt(m@.sections.additionals) && spec_edns_payload_ok(m@),
        r matches Ok(m) ==> m@ == spec_served_view(stored@, query_id, rotate_rrset,
            spec_cache_age(filled_at, now) as u32, match client_query_wire {
                Some(q) => Some(q@),
                None => None,
            }, *old(rng)),
        r is Ok ==> *final(rng) == spec_served_rng(stored@, rotate_rrset, *old(rng)),
        r is Err ==> *final(rng) == *old(rng),
        !rotate_rrset ==> *final(rng) == *old(rng),
{
    let mut msg = match decode_message(stored) {
        Some(m) => m,
        None => return Err(ServeError::Malformed),
    };
    let ghost s0 = msg.spec_sections();
    set_message_id(&mut msg, query_id);
    match client_query_wire {
        Some(qw) => {
            let mut client = match decode_message(qw) {
                Some(c) => c,
                None => return Err(ServeError::Malformed),
            };
            clear_questions(&mut msg);
            let questions = take_questions(&mut client);
            add_questions(&mut msg, questions);
            match edns_of(&client) {
                Some(e) => put_edns(&mut msg, &e),
                None => {},
            }
        },
        None => {},
    }
    assert(spec_served_body_view(stored@, match client_query_wire {
        Some(q) => Some(q@),
        None => None,
    }, msg@));
    assert(spec_edns_payload_ok(msg@));
    assert(msg.spec_sections() == s0);
    assert(msg.spec_header() == (HeaderView { id: query_id, ..spec_wire_header(stored@)->0 }));
    let ghost cv = match client_query_wire {
        Some(q) => Some(q@),
        None => None::<Seq<u8>>,
    };
    let ghost target = spec_served_view(stored@, query_id, rotate_rrset, spec_cache_age(filled_at, now) as u32, cv, *rng);
    assert(msg@.question_origins == target.question_origins);
    assert(msg@.edns_origin == target.edns_origin);
    assert(msg@.header_src == target.header_src && msg@.rcode_set is None);
    let ghost body = msg@;
    let age = cache_age_secs(filled_at, now);
    proof {
        lemma_decayed_views(s0.additionals, s0.additionals, age);
        lemma_decayed_views(s0.answers, s0.authority, age);
        lemma_decayed_views(s0.authority, s0.authority, age);
    }
    if age != 0 {
        let mut answers = take_answers(&mut msg);
        decay_records(&mut answers, age);
        put_answers(&mut msg, answers);
        let mut authority = take_authority(&mut msg);
        decay_records(&mut authority, age);
        put_authority(&mut msg, authority);
        let mut additionals = take_additionals(&mut msg);
        decay_records(&mut additionals, age);
        put_additionals(&mut msg, additionals);
    }
    assert(msg.spec_sections().answers == spec_decayed_views(s0.answers, age));
    assert(msg.spec_sections().authority == spec_decayed_views(s0.authority, age));
    assert(msg.spec_sections().additionals == spec_decayed_views(s0.additionals, age));
    let ghost d0 = spec_decayed_views(spec_wire_section(stored@, 0), age);
    assert(msg.spec_sections().answers == d0);
    let ghost rng0 = *rng;
    if rotate_rrset {
        let answers = take_answers(&mut msg);
        assert(spec_record_views(answers@) == d0);
        if answers.len() > 1 {
            let mut keys: Vec<(String, u16)> = Vec::new();
            let mut i: usize = 0;
            while i < answers.len()
                invariant
                    keys@.len() == i,
                    i <= answers@.len(),
                    forall|j: int| 0 <= j < i ==> (#[trigger] keys@[j].0@, keys@[j].1) == spec_record_key(answers@[j].spec_view()),
                decreases answers@.len() - i,
            {
                keys.push(rrset_key(&answers[i]));
                i = i + 1;
            }
            proof {
                let kv = spec_key_views(keys@);
                let wk = spec_wire_answer_keys(stored@);
                assert forall|j: int| 0 <= j < kv.len() implies kv[j] == wk[j] by {
                    assert(kv[j] == (keys@[j].0@, keys@[j].1));
                    assert(answers@[j].spec_view() == d0[j]);
                }
                assert(kv =~= wk);
            }
            let ghost old_rng = *rng;
            let ghost items = answers@;
            let rotated = rotate_rrsets(answers, &keys, rng);
            proof {
                lemma_rotation_is_permutation(spec_key_views(keys@), old_rng);
                let order = spec_rotation_order(spec_key_views(keys@), old_rng).0;
                vstd::seq_lib::to_multiset_len(order);
                vstd::seq_lib::to_multiset_len(spec_positions(spec_key_views(keys@).len()));
                assert(spec_key_views(keys@).len() == keys@.len());
                assert(spec_record_views(rotated@).len() == items.len());
                let g = |j: int| items[j].spec_view().ttl;
                lemma_map_same_multiset(order, spec_positions(items.len()), g);
                assert(spec_ttls(spec_record_views(rotated@)) =~= order.map_values(g));
                assert(spec_ttls(spec_record_views(items)) =~= spec_positions(items.len()).map_values(g));
            }
            proof {
                broadcast use group_to_multiset_ensures;
                let order = spec_rotation_order(spec_wire_answer_keys(stored@), old_rng).0;
                let n = items.len();
                assert(spec_key_views(keys@) == spec_wire_answer_keys(stored@));
                assert(rotated@ == order.map_values(|k: int| items[k]));
                assert forall|k: int| 0 <= k < order.len() implies 0 <= #[trigger] order[k] < n by {
                    assert(order.to_multiset().count(order[k]) > 0);
                    assert(spec_positions(n).contains(order[k]));
                    let j = choose|j: int| 0 <= j < spec_positions(n).len() && spec_positions(n)[j] == order[k];
                    assert(spec_positions(n)[j] == j);
                }
                assert forall|k: int| 0 <= k < order.len() implies spec_record_views(rotated@)[k] == d0[order[k]] by {
                    assert(rotated@[k] == items[order[k]]);
                    assert(spec_record_views(items)[order[k]] == items[order[k]].spec_view());
                }
                assert(spec_record_views(rotated@) =~= order.map_values(|k: int| d0[k]));
            }
            put_answers(&mut msg, rotated);
        } else {
            proof {
                lemma_rotation_small(spec_wire_answer_keys(stored@), rng0);
                assert(spec_positions(d0.len()).map_values(|k: int| d0[k]) =~= d0);
            }
            put_answers(&mut msg, answers);
        }
    }
    assert(msg@.sections.answers == target.sections.answers);
    assert(*rng == spec_served_rng(stored@, rotate_rrset, rng0));
    assert(msg@.questions == body.questions && msg@.edns == body.edns);
    proof {
        lemma_served_records(stored@, s0, msg.spec_sections(), age, rotate_rrset);
    }
    assert(msg@ == target);
    Ok(msg)
}

/// The served copy from what the encoder gave: its bytes when it reported
/// success, `Encode` otherwise.
pub fn finish_encoding(wire: Vec<u8>, encoded: bool) -> (r: Result<Vec<u8>, ServeError>)
    ensures
        encoded ==> r == Ok::<Vec<u8>, ServeError>(wire),
        !encoded ==> r == Err::<Vec<u8>, ServeError>(ServeError::Encode),
{
    if encoded {
        Ok(wire)
    } else {
        Err(ServeError::Encode)
    }
}

/// What a served copy of `stored` is, as `prepare_served_wire` and
/// `prepare_served_arc` both give it: `r` the result with its bytes, the
/// generator state before and after.
pub open spec fn spec_prepared(
    stored: Seq<u8>,
    query_id: u16,
    rotate_rrset: bool,
    filled_at: Instant,
    now: Instant,
    client: Option<Seq<u8>>,
    rng_before: u64,
    rng_after: u64,
    r: Result<Seq<u8>, ServeError>,
) -> bool {
    &&& spec_response_summary(stored) is None ==> r == Err::<Seq<u8>, ServeError>(ServeError::Malformed)
    &&& spec_response_summary(stored) is Some ==> match client {
        Some(q) => spec_response_summary(q) is None ==> r == Err::<Seq<u8>, ServeError>(ServeError::Malformed),
        None => true,
    }
    &&& spec_response_summary(stored) is Some && (client matches Some(q) ==> spec_response_summary(q) is Some)
        ==> (r is Ok || r == Err::<Seq<u8>, ServeError>(ServeError::Encode))
    &&& spec_response_summary(stored) is Some && (client matches Some(q) ==> spec_response_summary(q) is Some)
        ==> (r is Ok <==> spec_encodes(spec_served_view(stored, query_id, rotate_rrset,
            spec_cache_age(filled_at, now) as u32, client, rng_before)))
            && rng_after == spec_served_rng(stored, rotate_rrset, rng_before)
    &&& r matches Ok(w) ==> spec_wire_header(w) == Some(HeaderView { id: query_id, ..spec_wire_header(stored)->0 })
    &&& r matches Ok(w) ==> (!spec_wire_tc(w) ==> spec_served_summary(
        spec_response_summary(stored),
        spec_response_summary(w),
        spec_cache_age(filled_at, now) as u32,
        rotate_rrset,
    ))
    &&& r matches Ok(w) ==> (!spec_wire_tc(w) ==> spec_served_wire_body(stored, client, w))
    &&& !rotate_rrset ==> rng_after == rng_before
}

/// Serve-time copy of a stored wire: `served_message`, encoded. When both
/// wires decode, the copy is served exactly when the served message
/// (`spec_served_view`) encodes. The stored bytes are not changed. A served wire without TC set (the encoder sets TC
/// when it leaves records out) decodes to the stored records with their
/// TTLs lowered by the age, under the questions and EDNS section of
/// `spec_served_body`.
pub fn prepare_served_wire(
    stored: &[u8],
    query_id: u16,
    rotate_rrset: bool,
    filled_at: Instant,
    now: Instant,
    client_query_wire: Option<&[u8]>,
    rng: &mut u64,
) -> (r: Result<Vec<u8>, ServeError>)
    ensures
        spec_prepared(stored@, query_id, rotate_rrset, filled_at, now, match client_query_wire {
            Some(q) => Some(q@),
            None => None,
        }, *old(rng), *final(rng), match r {
            Ok(w) => Ok(w@),
            Err(e) => Err(e),
        }),
{
    let msg = match served_message(stored, query_id, rotate_rrset, filled_at, now, client_query_wire, rng) {
        Ok(m) => m,
        Err(e) => return Err(e),
    };
    let (wire, ok) = encode_message(&msg);
    finish_encoding(wire, ok)
}

/// `prepare_served_wire` on a shared stored wire: the same contract over
/// the bytes the `Arc` holds.
pub fn prepare_served_arc(
    stored: &Arc<[u8]>,
    query_id: u16,
    rotate_rrset: bool,
    filled_at: Instant,
    now: Instant,
    client_query_wire: Option<&[u8]>,
    rng: &mut u64,
) -> (r: Result<Vec<u8>, ServeError>)
    ensures
        spec_prepared(stored@, query_id, rotate_rrset, filled_at, now, match client_query_wire {
            Some(q) => Some(q@),
            None => None,
        }, *old(rng), *final(rng), match r {
            Ok(w) => Ok(w@),
            Err(e) => Err(e),
        }),
{
    prepare_served_wire(&**stored, query_id, rotate_rrset, filled_at, now, client_query_wire, rng)
}

} // verus!
