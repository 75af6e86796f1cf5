//! Backend selection for a pool: retries, health eligibility and the
//! weighted pick.

use vstd::prelude::*;
use crate::net::SockAddr;
use crate::text::{owned, str_eq};

verus! {

/// One forward attempt of a transaction.
#[derive(Debug, Clone)]
pub struct AttemptRecord {
    pub pool: String,
    pub backend: SockAddr,
    pub attempt: u32,
}

/// The backends of the attempts made in `pool`, in attempt order.
pub open spec fn spec_tried_in_pool(attempts: Seq<AttemptRecord>, pool: Seq<char>) -> Seq<SockAddr>
    decreases attempts.len(),
{
    if attempts.len() == 0 {
        Seq::empty()
    } else {
        let rest = spec_tried_in_pool(attempts.drop_last(), pool);
        if attempts.last().pool@ == pool {
            rest.push(attempts.last().backend)
        } else {
            rest
        }
    }
}

/// Backends already used for `pool_name` on this transaction.
pub fn tried_backends_in_pool(attempts: &Vec<AttemptRecord>, pool_name: &str) -> (r: Vec<SockAddr>)
    ensures
        r@ == spec_tried_in_pool(attempts@, pool_name@),
{
    let mut out: Vec<SockAddr> = Vec::new();
    let mut i: usize = 0;
    while i < attempts.len()
        invariant
            i <= attempts@.len(),
            out@ == spec_tried_in_pool(attempts@.subrange(0, i as int), pool_name@),
        decreases attempts@.len() - i,
    {
        proof {
            assert(attempts@.subrange(0, i as int + 1).drop_last() =~= attempts@.subrange(0, i as int));
        }
        if crate::text::str_eq(attempts[i].pool.as_str(), pool_name) {
            out.push(attempts[i].backend);
        }
        i += 1;
    }
    proof {
        assert(attempts@.subrange(0, i as int) =~= attempts@);
    }
    out
}

/// A configured backend as Route sees it.
#[derive(Debug, Clone)]
pub struct RouteBackend {
    /// The configured address text.
    pub address_text: String,
    /// The address, when the text parses as a socket address.
    pub address: Option<SockAddr>,
    /// The resolved configured weight.
    pub weight: u32,
    /// The configured name, if any.
    pub name: Option<String>,
}

/// A configured pool as Route sees it.
#[derive(Debug, Clone)]
pub struct RoutePool {
    pub name: String,
    pub backends: Vec<RouteBackend>,
}

/// Health of one backend of a pool, as selection reads it.
#[derive(Debug, Clone, Copy, PartialEq, Eq, Structural)]
pub struct BackendHealthInput {
    /// The backend's applied health is up (or it has no health entry).
    pub eligible: bool,
    /// The configured weight scaled by the backend's latency factor (at
    /// least 1; the configured weight when it has no health entry).
    pub latency_weight: u64,
}

/// Health inputs for one pool: the fail-open floor, whether latency
/// weighting is on, and one entry per backend of the pool, in order.
#[derive(Debug, Clone)]
pub struct PoolHealthInput {
    pub min_eligible: u32,
    pub latency_weighting: bool,
    pub backends: Vec<BackendHealthInput>,
}

/// Index of the first pool named `name`.
pub open spec fn spec_find_pool(pools: Seq<RoutePool>, name: Seq<char>) -> Option<int> {
    if exists|i: int| 0 <= i < pools.len() && pools[i].name@ == name {
        Some(choose|i: int| 0 <= i < pools.len() && pools[i].name@ == name && forall|j: int| 0 <= j < i ==> pools[j].name@ != name)
    } else {
        None
    }
}

/// Indices of the first `n` backends that parse and, on a retry, were not
/// already tried.
pub open spec fn spec_candidates(bs: Seq<RouteBackend>, attempt_count: u32, tried: Seq<SockAddr>, n: int) -> Seq<int>
    decreases n,
{
    if n <= 0 {
        Seq::empty()
    } else {
        let c = spec_candidates(bs, attempt_count, tried, n - 1);
        if bs[n - 1].address matches Some(a) && !(attempt_count > 0 && tried.contains(a)) {
            c.push(n - 1)
        } else {
            c
        }
    }
}

/// The first `n` candidates whose backend is eligible.
pub open spec fn spec_eligible(cands: Seq<int>, hb: Seq<BackendHealthInput>, n: int) -> Seq<int>
    decreases n,
{
    if n <= 0 {
        Seq::empty()
    } else {
        let e = spec_eligible(cands, hb, n - 1);
        if hb[cands[n - 1]].eligible {
            e.push(cands[n - 1])
        } else {
            e
        }
    }
}

/// The backends selection picks among, and whether latency weights apply:
/// with health, the eligible candidates unless too few are eligible (or the
/// pool has a single backend), in which case all candidates (fail open).
pub open spec fn spec_chosen(pool: RoutePool, attempt_count: u32, tried: Seq<SockAddr>, health: Option<PoolHealthInput>) -> (Seq<int>, bool) {
    let cands = spec_candidates(pool.backends@, attempt_count, tried, pool.backends@.len() as int);
    match health {
        None => (cands, false),
        Some(h) => {
            let eligible = spec_eligible(cands, h.backends@, cands.len() as int);
            let floor = if h.min_eligible > 1 { h.min_eligible as int } else { 1 };
            if pool.backends@.len() <= 1 || eligible.len() < floor {
                (cands, false)
            } else {
                (eligible, h.latency_weighting)
            }
        },
    }
}

/// Selection weight of backend `i`.
pub open spec fn spec_weight(pool: RoutePool, health: Option<PoolHealthInput>, use_latency: bool, i: int) -> u64 {
    if use_latency && health is Some {
        health->0.backends@[i].latency_weight
    } else {
        pool.backends@[i].weight as u64
    }
}

/// Sum of the weights of the first `n` chosen backends.
pub open spec fn spec_weight_sum(pool: RoutePool, health: Option<PoolHealthInput>, use_latency: bool, chosen: Seq<int>, n: int) -> int
    decreases n,
{
    if n <= 0 {
        0
    } else {
        spec_weight_sum(pool, health, use_latency, chosen, n - 1) + spec_weight(pool, health, use_latency, chosen[n - 1])
    }
}

/// Position in `chosen`, from `j` on, where the running weight sum `acc`
/// first passes `pick`; `-1` when it never does.
pub open spec fn spec_first_over(pool: RoutePool, health: Option<PoolHealthInput>, use_latency: bool, chosen: Seq<int>, pick: int, j: int, acc: int) -> int
    decreases chosen.len() - j,
{
    if j < 0 || j >= chosen.len() {
        -1
    } else if pick < acc + spec_weight(pool, health, use_latency, chosen[j]) {
        j
    } else {
        spec_first_over(pool, health, use_latency, chosen, pick, j + 1, acc + spec_weight(pool, health, use_latency, chosen[j]))
    }
}

/// Inputs selection can run on: the pool's health entries, when given,
/// match its backends one for one.
pub open spec fn spec_selection_inputs_ok(pools: Seq<RoutePool>, pool_name: Seq<char>, health: Option<PoolHealthInput>) -> bool {
    spec_find_pool(pools, pool_name) matches Some(p) ==> (health matches Some(h) ==> h.backends@.len()
        == pools[p].backends@.len())
}

/// The deterministic weighted pick: the pool's chosen backends (see
/// `spec_chosen`), weighted, picked at `(txn_id + generation) mod 2^64`
/// modulo the total weight.
pub open spec fn spec_select(
    pools: Seq<RoutePool>,
    pool_name: Seq<char>,
    txn_id: u64,
    generation: u64,
    attempt_count: u32,
    tried: Seq<SockAddr>,
    health: Option<PoolHealthInput>,
) -> Option<SockAddr> {
    match spec_find_pool(pools, pool_name) {
        None => None,
        Some(p) => {
            let pool = pools[p];
            let (chosen, use_latency) = spec_chosen(pool, attempt_count, tried, health);
            let total = spec_weight_sum(pool, health, use_latency, chosen, chosen.len() as int);
            if pool.backends@.len() == 0 || chosen.len() == 0 || total == 0 {
                None
            } else {
                let sum = txn_id + generation;
                let wrapped = if sum > u64::MAX { sum - 0x1_0000_0000_0000_0000 } else { sum };
                let pick = wrapped % total;
                let k = spec_first_over(pool, health, use_latency, chosen, pick, 0, 0);
                let at = if k < 0 { chosen.len() - 1 } else { k };
                pool.backends@[chosen[at]].address
            }
        },
    }
}

pub fn find_pool(pools: &Vec<RoutePool>, name: &str) -> (r: Option<usize>)
    ensures
        r matches Some(i) ==> i < pools@.len() && spec_find_pool(pools@, name@) == Some(i as int),
        r is None ==> spec_find_pool(pools@, name@) is None,
{
    let mut i: usize = 0;
    while i < pools.len()
        invariant
            i <= pools@.len(),
            forall|j: int| 0 <= j < i ==> pools@[j].name@ != name@,
        decreases pools@.len() - i,
    {
        if str_eq(pools[i].name.as_str(), name) {
            proof {
                let c = choose|c: int|
                    0 <= c < pools@.len() && pools@[c].name@ == name@ && forall|j: int| 0 <= j < c ==> pools@[j].name@ != name@;
                assert(c == i) by {
                    if c > i {
                        assert(pools@[i as int].name@ != name@);
                    }
                }
            }
            return Some(i);
        }
        i += 1;
    }
    None
}

fn contains_addr(v: &Vec<SockAddr>, a: SockAddr) -> (r: bool)
    ensures
        r == v@.contains(a),
{
    let mut i: usize = 0;
    while i < v.len()
        invariant
            i <= v@.len(),
            forall|j: int| 0 <= j < i ==> v@[j] != a,
        decreases v@.len() - i,
    {
        if v[i] == a {
            proof {
                assert(v@[i as int] == a);
            }
            return true;
        }
        i += 1;
    }
    false
}

/// Deterministic weighted backend pick for `pool_name`, stable for a given
/// transaction id and snapshot generation.
///
/// On the first attempt every parseable backend is a candidate; on retries
/// the backends already tried are excluded, and `None` means the pool is
/// exhausted. With health, candidates are narrowed to the eligible ones
/// unless fewer than the floor (at least 1) are eligible or the pool has a
/// single backend (fail open); with latency weighting on and no fail-open,
/// latency-scaled weights replace the configured ones.
pub fn select_backend(
    pools: &Vec<RoutePool>,
    pool_name: &str,
    txn_id: u64,
    snapshot_generation: u64,
    attempt_count: u32,
    tried_backends: &Vec<SockAddr>,
    health: Option<&PoolHealthInput>,
) -> (r: Option<(String, SockAddr)>)
    requires
        spec_selection_inputs_ok(pools@, pool_name@, match health { Some(h) => Some(*h), None => None }),
    ensures
        match r {
            Some((name, addr)) => name@ == pool_name@ && spec_select(
                pools@,
                pool_name@,
                txn_id,
                snapshot_generation,
                attempt_count,
                tried_backends@,
                match health { Some(h) => Some(*h), None => None },
            ) == Some(addr),
            None => spec_select(
                pools@,
                pool_name@,
                txn_id,
                snapshot_generation,
                attempt_count,
                tried_backends@,
                match health { Some(h) => Some(*h), None => None },
            ) is None,
        },
{
    let ghost hv = match health { Some(h) => Some(*h), None => None };
    let p = match find_pool(pools, pool_name) {
        Some(p) => p,
        None => return None,
    };
    let pool = &pools[p];
    if pool.backends.len() == 0 {
        return None;
    }
    let ghost bs = pool.backends@;
    // Candidates: parseable backends not already tried on this transaction.
    let mut candidates: Vec<usize> = Vec::new();
    let mut i: usize = 0;
    while i < pool.backends.len()
        invariant
            bs == pool.backends@,
            i <= bs.len(),
            candidates@.len() == spec_candidates(bs, attempt_count, tried_backends@, i as int).len(),
            forall|k: int| 0 <= k < candidates@.len() ==> candidates@[k] as int == #[trigger] spec_candidates(bs, attempt_count, tried_backends@, i as int)[k],
            forall|k: int| 0 <= k < candidates@.len() ==> #[trigger] candidates@[k] < bs.len(),
            forall|k: int| 0 <= k < candidates@.len() ==> bs[#[trigger] candidates@[k] as int].address is Some,
        decreases bs.len() - i,
    {
        let keep = match pool.backends[i].address {
            Some(a) => !(attempt_count > 0 && contains_addr(tried_backends, a)),
            None => false,
        };
        if keep {
            candidates.push(i);
        }
        i += 1;
    }
    let ghost cands = spec_candidates(bs, attempt_count, tried_backends@, bs.len() as int);
    if candidates.len() == 0 {
        return None;
    }
    // Eligibility filter and fail-open floor.
    let mut chosen: Vec<usize> = Vec::new();
    let mut use_latency = false;
    match health {
        None => {
            chosen = candidates;
        },
        Some(h) => {
            let mut eligible: Vec<usize> = Vec::new();
            let mut j: usize = 0;
            while j < candidates.len()
                invariant
                    h.backends@.len() == bs.len(),
                    candidates@.len() == cands.len(),
                    forall|k: int| 0 <= k < candidates@.len() ==> candidates@[k] as int == #[trigger] cands[k],
                    forall|k: int| 0 <= k < candidates@.len() ==> #[trigger] candidates@[k] < bs.len(),
                    forall|k: int| 0 <= k < candidates@.len() ==> bs[#[trigger] candidates@[k] as int].address is Some,
                    j <= candidates@.len(),
                    eligible@.len() == spec_eligible(cands, h.backends@, j as int).len(),
                    forall|k: int| 0 <= k < eligible@.len() ==> eligible@[k] as int == #[trigger] spec_eligible(cands, h.backends@, j as int)[k],
                    forall|k: int| 0 <= k < eligible@.len() ==> #[trigger] eligible@[k] < bs.len(),
                    forall|k: int| 0 <= k < eligible@.len() ==> bs[#[trigger] eligible@[k] as int].address is Some,
                decreases candidates@.len() - j,
            {
                if h.backends[candidates[j]].eligible {
                    eligible.push(candidates[j]);
                }
                j += 1;
            }
            let floor: usize = if h.min_eligible > 1 {
                h.min_eligible as usize
            } else {
                1
            };
            let fail_open = pool.backends.len() <= 1 || eligible.len() < floor;
            if fail_open {
                chosen = candidates;
            } else {
                chosen = eligible;
                use_latency = h.latency_weighting;
            }
        },
    }
    let ghost ch = spec_chosen(*pool, attempt_count, tried_backends@, hv).0;
    assert(use_latency == spec_chosen(*pool, attempt_count, tried_backends@, hv).1);
    assert(chosen@.len() == ch.len());
    assert(forall|k: int| 0 <= k < chosen@.len() ==> chosen@[k] as int == #[trigger] ch[k]);
    assert forall|q: int| 0 <= q < ch.len() implies 0 <= #[trigger] ch[q] < bs.len() && bs[ch[q]].address is Some by {
        assert(chosen@[q] < bs.len());
        assert(bs[chosen@[q] as int].address is Some);
    }
    proof {
        lemma_weight_sum_bound(*pool, hv, use_latency, ch, ch.len() as int);
    }
    // Total weight.
    let mut total: u128 = 0;
    let mut k: usize = 0;
    while k < chosen.len()
        invariant
            spec_selection_inputs_ok(pools@, pool_name@, hv),
            spec_find_pool(pools@, pool_name@) == Some(p as int),
            p < pools@.len(),
            *pool == pools@[p as int],
            hv matches Some(h) ==> h.backends@.len() == bs.len(),
            health matches Some(h) ==> hv == Some(*h),
            health is None ==> hv is None,
            ch == spec_chosen(*pool, attempt_count, tried_backends@, hv).0,
            use_latency == spec_chosen(*pool, attempt_count, tried_backends@, hv).1,
            forall|q: int| 0 <= q < ch.len() ==> 0 <= #[trigger] ch[q] < bs.len() && bs[ch[q]].address is Some,
            chosen@.len() <= usize::MAX,
            bs.len() > 0,
            bs == pool.backends@,
            chosen@.len() == ch.len(),
            forall|m: int| 0 <= m < chosen@.len() ==> chosen@[m] as int == #[trigger] ch[m],
            forall|m: int| 0 <= m < chosen@.len() ==> #[trigger] chosen@[m] < bs.len(),
            k <= chosen@.len(),
            total == spec_weight_sum(*pool, hv, use_latency, ch, k as int),
        decreases chosen@.len() - k,
    {
        proof {
            lemma_weight_sum_prefix(*pool, hv, use_latency, ch, k as int + 1);
            lemma_weight_sum_bound(*pool, hv, use_latency, ch, k as int + 1);
            assert((k as int + 1) * 0xffff_ffff_ffff_ffff <= 0xffff_ffff_ffff_ffff * 0xffff_ffff_ffff_ffff);
        }
        let w: u64 = if use_latency {
            match health {
                Some(h) => h.backends[chosen[k]].latency_weight,
                None => pool.backends[chosen[k]].weight as u64,
            }
        } else {
            pool.backends[chosen[k]].weight as u64
        };
        total = total + (w as u128);
        k += 1;
    }
    if total == 0 {
        return None;
    }
    let pick: u128 = (txn_id.wrapping_add(snapshot_generation) as u128) % total;
    let mut acc: u128 = 0;
    let mut m: usize = 0;
    while m < chosen.len()
        invariant
            spec_selection_inputs_ok(pools@, pool_name@, hv),
            spec_find_pool(pools@, pool_name@) == Some(p as int),
            p < pools@.len(),
            *pool == pools@[p as int],
            hv matches Some(h) ==> h.backends@.len() == bs.len(),
            health matches Some(h) ==> hv == Some(*h),
            health is None ==> hv is None,
            ch == spec_chosen(*pool, attempt_count, tried_backends@, hv).0,
            use_latency == spec_chosen(*pool, attempt_count, tried_backends@, hv).1,
            forall|q: int| 0 <= q < ch.len() ==> 0 <= #[trigger] ch[q] < bs.len() && bs[ch[q]].address is Some,
            chosen@.len() <= usize::MAX,
            bs.len() > 0,
            bs == pool.backends@,
            chosen@.len() == ch.len(),
            forall|q: int| 0 <= q < chosen@.len() ==> chosen@[q] as int == #[trigger] ch[q],
            forall|q: int| 0 <= q < chosen@.len() ==> #[trigger] chosen@[q] < bs.len(),
            m <= chosen@.len(),
            acc == spec_weight_sum(*pool, hv, use_latency, ch, m as int),
            total == spec_weight_sum(*pool, hv, use_latency, ch, ch.len() as int),
            total > 0,
            pick as int == (if txn_id + snapshot_generation > u64::MAX {
                txn_id + snapshot_generation - 0x1_0000_0000_0000_0000
            } else {
                txn_id + snapshot_generation
            }) % (total as int),
            spec_first_over(*pool, hv, use_latency, ch, pick as int, 0, 0) == spec_first_over(*pool, hv, use_latency, ch, pick as int, m as int, acc as int),
        decreases chosen@.len() - m,
    {
        proof {
            lemma_weight_sum_prefix(*pool, hv, use_latency, ch, m as int + 1);
            lemma_weight_sum_monotone(*pool, hv, use_latency, ch, m as int + 1, ch.len() as int);
            lemma_weight_sum_bound(*pool, hv, use_latency, ch, ch.len() as int);
            assert((ch.len() as int) * 0xffff_ffff_ffff_ffff <= 0xffff_ffff_ffff_ffff * 0xffff_ffff_ffff_ffff);
        }
        let w: u64 = if use_latency {
            match health {
                Some(h) => h.backends[chosen[m]].latency_weight,
                None => pool.backends[chosen[m]].weight as u64,
            }
        } else {
            pool.backends[chosen[m]].weight as u64
        };
        assert(w == spec_weight(*pool, hv, use_latency, ch[m as int]));
        let ghost prev = acc;
        acc = acc + (w as u128);
        if pick < acc {
            let addr = match pool.backends[chosen[m]].address {
                Some(a) => a,
                None => SockAddr::v4(0, 0, 0, 0, 0),
            };
            proof {
                assert(spec_first_over(*pool, hv, use_latency, ch, pick as int, m as int, prev as int) == m);
                assert(bs[ch[m as int]].address == Some(addr));
            }
            return Some((owned(pool_name), addr));
        }
        m += 1;
    }
    let last = chosen[chosen.len() - 1];
    let addr = match pool.backends[last].address {
        Some(a) => a,
        None => SockAddr::v4(0, 0, 0, 0, 0),
    };
    Some((owned(pool_name), addr))
}

/// A sum of `n` weights is at most `n` times the largest `u64`.
pub proof fn lemma_weight_sum_bound(pool: RoutePool, health: Option<PoolHealthInput>, use_latency: bool, chosen: Seq<int>, n: int)
    requires
        0 <= n,
    ensures
        0 <= spec_weight_sum(pool, health, use_latency, chosen, n) <= n * 0xffff_ffff_ffff_ffff,
    decreases n,
{
    if n > 0 {
        lemma_weight_sum_bound(pool, health, use_latency, chosen, n - 1);
    }
}

pub proof fn lemma_weight_sum_prefix(pool: RoutePool, health: Option<PoolHealthInput>, use_latency: bool, chosen: Seq<int>, n: int)
    requires
        n >= 1,
    ensures
        spec_weight_sum(pool, health, use_latency, chosen, n) == spec_weight_sum(pool, health, use_latency, chosen, n - 1)
            + spec_weight(pool, health, use_latency, chosen[n - 1]),
{
}

pub proof fn lemma_weight_sum_monotone(pool: RoutePool, health: Option<PoolHealthInput>, use_latency: bool, chosen: Seq<int>, a: int, b: int)
    requires
        0 <= a <= b,
    ensures
        spec_weight_sum(pool, health, use_latency, chosen, a) <= spec_weight_sum(pool, health, use_latency, chosen, b),
    decreases b - a,
{
    if a < b {
        lemma_weight_sum_monotone(pool, health, use_latency, chosen, a, b - 1);
    }
}

/// The default pool: the pool named `default` when there is one, else the
/// first pool.
pub fn default_pool_name(pools: &Vec<RoutePool>) -> (r: Option<String>)
    ensures
        spec_find_pool(pools@, "default"@) matches Some(i) ==> (r matches Some(n) && n@ == pools@[i].name@),
        spec_find_pool(pools@, "default"@) is None && pools@.len() > 0 ==> (r matches Some(n) && n@
            == pools@[0].name@),
        spec_find_pool(pools@, "default"@) is None && pools@.len() == 0 ==> r is None,
{
    match find_pool(pools, "default") {
        Some(i) => Some(pools[i].name.clone()),
        None => {
            if pools.len() > 0 {
                Some(pools[0].name.clone())
            } else {
                None
            }
        },
    }
}

/// A configured name when set and non-empty, else the address text.
pub open spec fn spec_label(name: Option<String>, address: Seq<char>) -> Seq<char> {
    match name {
        Some(n) => if n@.len() > 0 {
            n@
        } else {
            address
        },
        None => address,
    }
}

fn label_or_address(name: &Option<String>, address: &String) -> (r: String)
    ensures
        r@ == spec_label(*name, address@),
{
    match name {
        Some(n) => {
            if !n.as_str().is_empty() {
                n.clone()
            } else {
                address.clone()
            }
        },
        None => address.clone(),
    }
}

/// Metric/log label for a backend: its configured name when set, else its
/// address.
pub fn backend_metric_label(backend: &RouteBackend) -> (r: String)
    ensures
        r@ == spec_label(backend.name, backend.address_text@),
{
    label_or_address(&backend.name, &backend.address_text)
}

/// Metric/log label for a listener: its configured name when set, else its
/// bind address.
pub fn listener_metric_label(name: &Option<String>, address: &String) -> (r: String)
    ensures
        r@ == spec_label(*name, address@),
{
    label_or_address(name, address)
}

/// Metric label of the first backend of `pool_name` whose address is
/// `addr`; `None` when there is none (the caller labels by the address).
pub fn backend_metric_label_for_addr(pools: &Vec<RoutePool>, pool_name: &str, addr: SockAddr) -> (r: Option<String>)
    ensures
        r matches Some(l) ==> (spec_find_pool(pools@, pool_name@) matches Some(p) && exists|i: int|
            0 <= i < pools@[p].backends@.len() && pools@[p].backends@[i].address == Some(addr) && (forall|j: int|
                0 <= j < i ==> pools@[p].backends@[j].address != Some(addr)) && l@ == spec_label(
                pools@[p].backends@[i].name,
                pools@[p].backends@[i].address_text@,
            )),
        r is None ==> (spec_find_pool(pools@, pool_name@) matches Some(p) ==> forall|i: int|
            0 <= i < pools@[p].backends@.len() ==> pools@[p].backends@[i].address != Some(addr)),
{
    let p = match find_pool(pools, pool_name) {
        Some(p) => p,
        None => return None,
    };
    let pool = &pools[p];
    let mut i: usize = 0;
    while i < pool.backends.len()
        invariant
            p < pools@.len(),
            *pool == pools@[p as int],
            spec_find_pool(pools@, pool_name@) == Some(p as int),
            i <= pool.backends@.len(),
            forall|j: int| 0 <= j < i ==> pool.backends@[j].address != Some(addr),
        decreases pool.backends@.len() - i,
    {
        if pool.backends[i].address == Some(addr) {
            return Some(backend_metric_label(&pool.backends[i]));
        }
        i += 1;
    }
    None
}

/// Every candidate is a backend of the pool whose address parses and, on
/// a retry, was not tried yet.
pub proof fn lemma_candidates_untried(bs: Seq<RouteBackend>, attempt_count: u32, tried: Seq<SockAddr>, n: int)
    requires
        n <= bs.len(),
    ensures
        forall|k: int|
            0 <= k < spec_candidates(bs, attempt_count, tried, n).len() ==> {
                let c = #[trigger] spec_candidates(bs, attempt_count, tried, n)[k];
                &&& 0 <= c < n
                &&& bs[c].address is Some
                &&& !(attempt_count > 0 && tried.contains(bs[c].address->0))
            },
    decreases n,
{
    if n > 0 {
        lemma_candidates_untried(bs, attempt_count, tried, n - 1);
    }
}

/// Eligible candidates are candidates.
pub proof fn lemma_eligible_subset(cands: Seq<int>, hb: Seq<BackendHealthInput>, n: int)
    requires
        n <= cands.len(),
    ensures
        forall|k: int|
            0 <= k < spec_eligible(cands, hb, n).len() ==> exists|q: int|
                0 <= q < n && #[trigger] spec_eligible(cands, hb, n)[k] == cands[q],
    decreases n,
{
    if n > 0 {
        lemma_eligible_subset(cands, hb, n - 1);
        let e = spec_eligible(cands, hb, n - 1);
        assert forall|k: int| 0 <= k < spec_eligible(cands, hb, n).len() implies exists|q: int|
            0 <= q < n && #[trigger] spec_eligible(cands, hb, n)[k] == cands[q] by {
            if k < e.len() {
                let q = choose|q: int| 0 <= q < n - 1 && #[trigger] e[k] == cands[q];
                assert(spec_eligible(cands, hb, n)[k] == cands[q]);
            } else {
                assert(spec_eligible(cands, hb, n)[k] == cands[n - 1]);
            }
        }
    }
}

/// The backend selection returns is a backend of the named pool that, on a
/// retry (`attempt_count > 0`), was not tried before on the transaction.
pub proof fn lemma_select_untried(
    pools: Seq<RoutePool>,
    pool_name: Seq<char>,
    txn_id: u64,
    generation: u64,
    attempt_count: u32,
    tried: Seq<SockAddr>,
    health: Option<PoolHealthInput>,
)
    requires
        spec_select(pools, pool_name, txn_id, generation, attempt_count, tried, health) is Some,
    ensures
        ({
            let a = spec_select(pools, pool_name, txn_id, generation, attempt_count, tried, health)->0;
            let p = spec_find_pool(pools, pool_name)->0;
            &&& spec_find_pool(pools, pool_name) is Some
            &&& exists|i: int| 0 <= i < pools[p].backends@.len() && pools[p].backends@[i].address == Some(a)
            &&& attempt_count > 0 ==> !tried.contains(a)
        }),
{
    let p = spec_find_pool(pools, pool_name)->0;
    let pool = pools[p];
    let bs = pool.backends@;
    let cands = spec_candidates(bs, attempt_count, tried, bs.len() as int);
    let (chosen, use_latency) = spec_chosen(pool, attempt_count, tried, health);
    let total = spec_weight_sum(pool, health, use_latency, chosen, chosen.len() as int);
    let sum = txn_id + generation;
    let wrapped = if sum > u64::MAX { sum - 0x1_0000_0000_0000_0000 } else { sum };
    let pick = wrapped % total;
    let k = spec_first_over(pool, health, use_latency, chosen, pick, 0, 0);
    let at = if k < 0 { chosen.len() - 1 } else { k };
    lemma_first_over_range(pool, health, use_latency, chosen, pick, 0, 0);
    lemma_candidates_untried(bs, attempt_count, tried, bs.len() as int);
    let c = chosen[at];
    let q: int = if health is Some && chosen != cands {
        let h = health->0;
        lemma_eligible_subset(cands, h.backends@, cands.len() as int);
        choose|q: int| 0 <= q < cands.len() && chosen[at] == cands[q]
    } else {
        at
    };
    assert(c == cands[q]);
}

pub proof fn lemma_first_over_range(pool: RoutePool, health: Option<PoolHealthInput>, use_latency: bool, chosen: Seq<int>, pick: int, j: int, acc: int)
    requires
        0 <= j,
    ensures
        spec_first_over(pool, health, use_latency, chosen, pick, j, acc) == -1 || (j <= spec_first_over(pool, health, use_latency, chosen, pick, j, acc) < chosen.len()),
    decreases chosen.len() - j,
{
    if j < chosen.len() && !(pick < acc + spec_weight(pool, health, use_latency, chosen[j])) {
        lemma_first_over_range(pool, health, use_latency, chosen, pick, j + 1, acc + spec_weight(pool, health, use_latency, chosen[j]));
    }
}

/// A retry on a pool whose backends were all tried (or do not parse)
/// selects nothing: the pool is exhausted.
pub proof fn lemma_exhausted_pool(
    pools: Seq<RoutePool>,
    pool_name: Seq<char>,
    txn_id: u64,
    generation: u64,
    attempt_count: u32,
    tried: Seq<SockAddr>,
    health: Option<PoolHealthInput>,
)
    requires
        attempt_count > 0,
        spec_find_pool(pools, pool_name) matches Some(p) ==> forall|i: int|
            0 <= i < pools[p].backends@.len() && (#[trigger] pools[p].backends@[i]).address is Some
                ==> tried.contains(pools[p].backends@[i].address->0),
    ensures
        spec_select(pools, pool_name, txn_id, generation, attempt_count, tried, health) is None,
{
    if spec_select(pools, pool_name, txn_id, generation, attempt_count, tried, health) is Some {
        lemma_select_untried(pools, pool_name, txn_id, generation, attempt_count, tried, health);
        let a = spec_select(pools, pool_name, txn_id, generation, attempt_count, tried, health)->0;
        let p = spec_find_pool(pools, pool_name)->0;
        let i = choose|i: int| 0 <= i < pools[p].backends@.len() && pools[p].backends@[i].address == Some(a);
        assert(tried.contains(a));
    }
}

/// Retries in one pool go to different backends: with the backends tried
/// so far excluded at each retry, a first pick and two retries in the same
/// pool are three different backends.
pub proof fn lemma_same_pool_retries_distinct(
    pools: Seq<RoutePool>,
    pool_name: Seq<char>,
    txn_id: u64,
    generation: u64,
    health: Option<PoolHealthInput>,
    a1: SockAddr,
    a2: SockAddr,
    a3: SockAddr,
)
    requires
        spec_select(pools, pool_name, txn_id, generation, 1, seq![a1], health) == Some(a2),
        spec_select(pools, pool_name, txn_id, generation, 2, seq![a1, a2], health) == Some(a3),
    ensures
        a1 != a2,
        a1 != a3,
        a2 != a3,
{
    lemma_select_untried(pools, pool_name, txn_id, generation, 1, seq![a1], health);
    lemma_select_untried(pools, pool_name, txn_id, generation, 2, seq![a1, a2], health);
    assert(seq![a1][0] == a1);
    assert(seq![a1].contains(a1));
    assert(seq![a1, a2].contains(a1));
    assert(seq![a1, a2].contains(a2));
    assert(seq![a1, a2][0] == a1);
    assert(seq![a1, a2][1] == a2);
}

/// Every eligible candidate's health entry is eligible.
pub proof fn lemma_eligible_entries(cands: Seq<int>, hb: Seq<BackendHealthInput>, n: int)
    ensures
        forall|k: int| 0 <= k < spec_eligible(cands, hb, n).len() ==> hb[#[trigger] spec_eligible(cands, hb, n)[k]].eligible,
    decreases n,
{
    if n > 0 {
        lemma_eligible_entries(cands, hb, n - 1);
        let e = spec_eligible(cands, hb, n - 1);
        assert forall|k: int| 0 <= k < spec_eligible(cands, hb, n).len() implies hb[#[trigger] spec_eligible(cands, hb, n)[k]].eligible by {
            if k < e.len() {
                assert(spec_eligible(cands, hb, n)[k] == e[k]);
            }
        }
    }
}

/// With health and no fail-open (more than one backend and at least the
/// floor eligible), selection picks a backend whose health entry is
/// eligible.
pub proof fn lemma_select_eligible(
    pools: Seq<RoutePool>,
    pool_name: Seq<char>,
    txn_id: u64,
    generation: u64,
    attempt_count: u32,
    tried: Seq<SockAddr>,
    h: PoolHealthInput,
)
    requires
        spec_select(pools, pool_name, txn_id, generation, attempt_count, tried, Some(h)) is Some,
        ({
            let p = spec_find_pool(pools, pool_name)->0;
            let cands = spec_candidates(pools[p].backends@, attempt_count, tried, pools[p].backends@.len() as int);
            &&& pools[p].backends@.len() > 1
            &&& spec_eligible(cands, h.backends@, cands.len() as int).len() >= (if h.min_eligible > 1 {
                h.min_eligible as int
            } else {
                1
            })
        }),
    ensures
        ({
            let a = spec_select(pools, pool_name, txn_id, generation, attempt_count, tried, Some(h))->0;
            let p = spec_find_pool(pools, pool_name)->0;
            exists|i: int|
                0 <= i < pools[p].backends@.len() && pools[p].backends@[i].address == Some(a) && h.backends@[i].eligible
        }),
{
    let p = spec_find_pool(pools, pool_name)->0;
    let pool = pools[p];
    let bs = pool.backends@;
    let cands = spec_candidates(bs, attempt_count, tried, bs.len() as int);
    let health = Some(h);
    let (chosen, use_latency) = spec_chosen(pool, attempt_count, tried, health);
    let total = spec_weight_sum(pool, health, use_latency, chosen, chosen.len() as int);
    let sum = txn_id + generation;
    let wrapped = if sum > u64::MAX { sum - 0x1_0000_0000_0000_0000 } else { sum };
    let pick = wrapped % total;
    let k = spec_first_over(pool, health, use_latency, chosen, pick, 0, 0);
    let at = if k < 0 { chosen.len() - 1 } else { k };
    lemma_first_over_range(pool, health, use_latency, chosen, pick, 0, 0);
    lemma_candidates_untried(bs, attempt_count, tried, bs.len() as int);
    lemma_eligible_subset(cands, h.backends@, cands.len() as int);
    lemma_eligible_entries(cands, h.backends@, cands.len() as int);
    let c = chosen[at];
    let q = choose|q: int| 0 <= q < cands.len() && chosen[at] == cands[q];
    assert(c == cands[q]);
    assert(h.backends@[c].eligible);
}

} // verus!
