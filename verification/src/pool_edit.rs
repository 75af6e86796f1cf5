//! Typed edits of the configured pools: set a backend's weight, remove a
//! backend, add a backend. A backend is addressed by its configured name
//! first, then by its address text.

use vstd::prelude::*;
use vstd::string::StringExecFns;
use crate::routing::{find_pool, spec_find_pool, RouteBackend, RoutePool};
use crate::text::{owned, str_eq};

verus! {

/// Why a pool edit was refused.
#[derive(Debug, Clone, Copy, PartialEq, Eq, Structural)]
pub enum PoolEditError {
    /// No pool has the given name.
    UnknownPool,
    /// The pool has no backend with the given name or address.
    UnknownBackend,
    /// The pool already has a backend with the added backend's name or address.
    DuplicateBackend,
    /// The added backend has an empty address.
    EmptyAddress,
}

impl PoolEditError {
    /// The operator-facing message for an edit of `pool` naming `backend`.
    pub fn message(&self, pool: &str, backend: &str) -> (r: String)
        ensures
            *self == PoolEditError::UnknownPool ==> r@ == "unknown pool '"@ + pool@ + "'"@,
            *self == PoolEditError::UnknownBackend ==> r@ == "pool '"@ + pool@ + "' has no backend named or addressed '"@
                + backend@ + "'"@,
            *self == PoolEditError::DuplicateBackend ==> r@ == "pool '"@ + pool@
                + "' already has a backend matching the add identity"@,
            *self == PoolEditError::EmptyAddress ==> r@ == "add backend requires a non-empty address"@,
    {
        match self {
            PoolEditError::UnknownPool => {
                let mut s = owned("unknown pool '");
                s.append(pool);
                s.append("'");
                s
            },
            PoolEditError::UnknownBackend => {
                let mut s = owned("pool '");
                s.append(pool);
                s.append("' has no backend named or addressed '");
                s.append(backend);
                s.append("'");
                s
            },
            PoolEditError::DuplicateBackend => {
                let mut s = owned("pool '");
                s.append(pool);
                s.append("' already has a backend matching the add identity");
                s
            },
            PoolEditError::EmptyAddress => owned("add backend requires a non-empty address"),
        }
    }
}

/// The backend's configured name is `id`.
pub open spec fn spec_named(b: RouteBackend, id: Seq<char>) -> bool {
    b.name matches Some(n) && n@ == id
}

/// The first of the first `n` backends named `id`.
pub open spec fn spec_first_named(bs: Seq<RouteBackend>, id: Seq<char>, n: nat) -> Option<int>
    decreases n,
{
    if n == 0 {
        None
    } else {
        match spec_first_named(bs, id, (n - 1) as nat) {
            Some(i) => Some(i),
            None => if spec_named(bs[n - 1], id) { Some(n - 1) } else { None },
        }
    }
}

/// The first of the first `n` backends whose address text is `id`.
pub open spec fn spec_first_addressed(bs: Seq<RouteBackend>, id: Seq<char>, n: nat) -> Option<int>
    decreases n,
{
    if n == 0 {
        None
    } else {
        match spec_first_addressed(bs, id, (n - 1) as nat) {
            Some(i) => Some(i),
            None => if bs[n - 1].address_text@ == id { Some(n - 1) } else { None },
        }
    }
}

/// The backend `id` designates: the first named `id`, else the first
/// addressed `id`.
pub open spec fn spec_backend_index(bs: Seq<RouteBackend>, id: Seq<char>) -> Option<int> {
    match spec_first_named(bs, id, bs.len()) {
        Some(i) => Some(i),
        None => spec_first_addressed(bs, id, bs.len()),
    }
}

proof fn lemma_first_named_range(bs: Seq<RouteBackend>, id: Seq<char>, n: nat)
    requires
        n <= bs.len(),
    ensures
        spec_first_named(bs, id, n) matches Some(i) ==> 0 <= i < n && spec_named(bs[i], id),
        spec_first_named(bs, id, n) is None ==> forall|j: int| 0 <= j < n ==> !spec_named(#[trigger] bs[j], id),
    decreases n,
{
    if n > 0 {
        lemma_first_named_range(bs, id, (n - 1) as nat);
    }
}

proof fn lemma_first_addressed_range(bs: Seq<RouteBackend>, id: Seq<char>, n: nat)
    requires
        n <= bs.len(),
    ensures
        spec_first_addressed(bs, id, n) matches Some(i) ==> 0 <= i < n && bs[i].address_text@ == id,
        spec_first_addressed(bs, id, n) is None ==> forall|j: int| 0 <= j < n ==> (#[trigger] bs[j]).address_text@ != id,
    decreases n,
{
    if n > 0 {
        lemma_first_addressed_range(bs, id, (n - 1) as nat);
    }
}

fn is_named(b: &RouteBackend, id: &str) -> (r: bool)
    ensures
        r == spec_named(*b, id@),
{
    match &b.name {
        Some(n) => str_eq(n.as_str(), id),
        None => false,
    }
}

/// Position of the backend `id` designates in `pool`.
pub fn find_backend_index(pool: &RoutePool, id: &str) -> (r: Option<usize>)
    ensures
        r is None <==> spec_backend_index(pool.backends@, id@) is None,
        r matches Some(i) ==> spec_backend_index(pool.backends@, id@) == Some(i as int) && i < pool.backends@.len(),
        spec_backend_index(pool.backends@, id@) matches Some(i) ==> 0 <= i < pool.backends@.len(),
{
    proof {
        lemma_first_named_range(pool.backends@, id@, pool.backends@.len());
        lemma_first_addressed_range(pool.backends@, id@, pool.backends@.len());
    }
    let bs = &pool.backends;
    let mut i: usize = 0;
    while i < bs.len()
        invariant
            bs@ == pool.backends@,
            i <= bs@.len(),
            spec_first_named(bs@, id@, i as nat) is None,
        decreases bs@.len() - i,
    {
        if is_named(&bs[i], id) {
            proof {
                assert(spec_first_named(bs@, id@, (i + 1) as nat) == Some(i as int));
                lemma_first_prefix_named(bs@, id@, (i + 1) as nat, bs@.len());
            }
            return Some(i);
        }
        i = i + 1;
    }
    let mut j: usize = 0;
    while j < bs.len()
        invariant
            bs@ == pool.backends@,
            j <= bs@.len(),
            spec_first_named(bs@, id@, bs@.len()) is None,
            spec_first_addressed(bs@, id@, j as nat) is None,
        decreases bs@.len() - j,
    {
        if str_eq(bs[j].address_text.as_str(), id) {
            proof {
                assert(spec_first_addressed(bs@, id@, (j + 1) as nat) == Some(j as int));
                lemma_first_prefix_addressed(bs@, id@, (j + 1) as nat, bs@.len());
            }
            return Some(j);
        }
        j = j + 1;
    }
    None
}

proof fn lemma_first_prefix_named(bs: Seq<RouteBackend>, id: Seq<char>, m: nat, n: nat)
    requires
        m <= n <= bs.len(),
        spec_first_named(bs, id, m) is Some,
    ensures
        spec_first_named(bs, id, n) == spec_first_named(bs, id, m),
    decreases n - m,
{
    if n > m {
        lemma_first_prefix_named(bs, id, m, (n - 1) as nat);
    }
}

proof fn lemma_first_prefix_addressed(bs: Seq<RouteBackend>, id: Seq<char>, m: nat, n: nat)
    requires
        m <= n <= bs.len(),
        spec_first_addressed(bs, id, m) is Some,
    ensures
        spec_first_addressed(bs, id, n) == spec_first_addressed(bs, id, m),
    decreases n - m,
{
    if n > m {
        lemma_first_prefix_addressed(bs, id, m, (n - 1) as nat);
    }
}

/// Whether `pool` already has a backend with the non-empty name of `b`, or
/// with the non-empty address of `b`.
pub open spec fn spec_identity_exists(bs: Seq<RouteBackend>, b: RouteBackend) -> bool {
    (b.name matches Some(n) && n@.len() > 0 && exists|i: int| 0 <= i < bs.len() && spec_named(#[trigger] bs[i], n@))
        || (b.address_text@.len() > 0 && exists|i: int| 0 <= i < bs.len() && (#[trigger] bs[i]).address_text@ == b.address_text@)
}

/// Whether `pool` already has a backend with the identity of `b`.
pub fn backend_identity_exists(pool: &RoutePool, b: &RouteBackend) -> (r: bool)
    ensures
        r == spec_identity_exists(pool.backends@, *b),
{
    let bs = &pool.backends;
    match &b.name {
        Some(n) => {
            if n.as_str().unicode_len() > 0 {
                let mut i: usize = 0;
                while i < bs.len()
                    invariant
                        bs@ == pool.backends@,
                        b.name == Some(*n),
                        n@.len() > 0,
                        i <= bs@.len(),
                        forall|j: int| 0 <= j < i ==> !spec_named(#[trigger] bs@[j], n@),
                    decreases bs@.len() - i,
                {
                    if is_named(&bs[i], n.as_str()) {
                        assert(spec_named(bs@[i as int], n@));
                        return true;
                    }
                    i = i + 1;
                }
            }
        },
        None => {},
    }
    if b.address_text.as_str().unicode_len() == 0 {
        return false;
    }
    let mut j: usize = 0;
    while j < bs.len()
        invariant
            bs@ == pool.backends@,
            b.address_text@.len() > 0,
            j <= bs@.len(),
            forall|k: int| 0 <= k < j ==> (#[trigger] bs@[k]).address_text@ != b.address_text@,
            !(b.name matches Some(n) && n@.len() > 0 && exists|i: int| 0 <= i < bs@.len() && spec_named(#[trigger] bs@[i], n@)),
        decreases bs@.len() - j,
    {
        if str_eq(bs[j].address_text.as_str(), b.address_text.as_str()) {
            assert(bs@[j as int].address_text@ == b.address_text@);
            return true;
        }
        j = j + 1;
    }
    false
}

/// `after` is `before` with the backends of pool `p` replaced by `backends`.
pub open spec fn spec_pool_replaced(before: Seq<RoutePool>, after: Seq<RoutePool>, p: int, backends: Seq<RouteBackend>) -> bool {
    &&& after.len() == before.len()
    &&& 0 <= p < before.len()
    &&& forall|q: int| 0 <= q < before.len() && q != p ==> after[q] == before[q]
    &&& after[p].name == before[p].name
    &&& after[p].backends@ == backends
}

/// Pool `p` with its backends replaced.
fn replace_backends(pools: &mut Vec<RoutePool>, p: usize, backends: Vec<RouteBackend>)
    requires
        p < old(pools)@.len(),
    ensures
        spec_pool_replaced(old(pools)@, final(pools)@, p as int, backends@),
{
    let ghost before = pools@;
    let mut target = pools.remove(p);
    target.backends = backends;
    pools.insert(p, target);
    proof {
        assert forall|q: int| 0 <= q < before.len() && q != p implies pools@[q] == before[q] by {
            if q < p {
                assert(pools@[q] == before.remove(p as int)[q]);
            } else {
                assert(pools@[q] == before.remove(p as int)[q - 1]);
            }
        }
    }
}

/// The backends of pool `p`, taken out (the pool is left without backends).
fn take_backends(pools: &mut Vec<RoutePool>, p: usize) -> (r: Vec<RouteBackend>)
    requires
        p < old(pools)@.len(),
    ensures
        r@ == old(pools)@[p as int].backends@,
        spec_pool_replaced(old(pools)@, final(pools)@, p as int, Seq::empty()),
{
    let ghost before = pools@;
    let mut target = pools.remove(p);
    let mut bs: Vec<RouteBackend> = Vec::new();
    std::mem::swap(&mut bs, &mut target.backends);
    pools.insert(p, target);
    proof {
        assert forall|q: int| 0 <= q < before.len() && q != p implies pools@[q] == before[q] by {
            if q < p {
                assert(pools@[q] == before.remove(p as int)[q]);
            } else {
                assert(pools@[q] == before.remove(p as int)[q - 1]);
            }
        }
    }
    bs
}

fn set_weight_at(pools: &mut Vec<RoutePool>, p: usize, b: usize, weight: u32)
    requires
        p < old(pools)@.len(),
        b < old(pools)@[p as int].backends@.len(),
    ensures
        spec_pool_replaced(
            old(pools)@,
            final(pools)@,
            p as int,
            old(pools)@[p as int].backends@.update(b as int, RouteBackend { weight, ..old(pools)@[p as int].backends@[b as int] }),
        ),
{
    let ghost before = pools@;
    let mut bs = take_backends(pools, p);
    let ghost mid = pools@;
    let mut be = bs.remove(b);
    be.weight = weight;
    bs.insert(b, be);
    proof {
        assert(bs@ =~= before[p as int].backends@.update(b as int, RouteBackend { weight, ..before[p as int].backends@[b as int] }));
    }
    replace_backends(pools, p, bs);
    proof {
        assert forall|q: int| 0 <= q < before.len() && q != p implies pools@[q] == before[q] by {
            assert(pools@[q] == mid[q]);
        }
    }
}

/// Set the weight of backend `backend` in pool `pool`.
pub fn set_backend_weight(pools: &mut Vec<RoutePool>, pool: &str, backend: &str, weight: u32) -> (r: Result<(), PoolEditError>)
    ensures
        match spec_find_pool(old(pools)@, pool@) {
            None => r == Err::<(), PoolEditError>(PoolEditError::UnknownPool) && final(pools)@ == old(pools)@,
            Some(p) => match spec_backend_index(old(pools)@[p].backends@, backend@) {
                None => r == Err::<(), PoolEditError>(PoolEditError::UnknownBackend) && final(pools)@ == old(pools)@,
                Some(b) => r is Ok && spec_pool_replaced(
                    old(pools)@,
                    final(pools)@,
                    p,
                    old(pools)@[p].backends@.update(b, RouteBackend { weight, ..old(pools)@[p].backends@[b] }),
                ),
            },
        },
{
    let p = match find_pool(pools, pool) {
        Some(p) => p,
        None => return Err(PoolEditError::UnknownPool),
    };
    let target = &pools[p];
    let found = find_backend_index(target, backend);
    proof {
        assert(*target == pools@[p as int]);
    }
    let b = match found {
        Some(b) => b,
        None => return Err(PoolEditError::UnknownBackend),
    };

    set_weight_at(pools, p, b, weight);
    Ok(())
}

/// Remove backend `backend` from pool `pool`.
pub fn remove_backend(pools: &mut Vec<RoutePool>, pool: &str, backend: &str) -> (r: Result<(), PoolEditError>)
    ensures
        match spec_find_pool(old(pools)@, pool@) {
            None => r == Err::<(), PoolEditError>(PoolEditError::UnknownPool) && final(pools)@ == old(pools)@,
            Some(p) => match spec_backend_index(old(pools)@[p].backends@, backend@) {
                None => r == Err::<(), PoolEditError>(PoolEditError::UnknownBackend) && final(pools)@ == old(pools)@,
                Some(b) => r is Ok && spec_pool_replaced(old(pools)@, final(pools)@, p, old(pools)@[p].backends@.remove(b)),
            },
        },
{
    let p = match find_pool(pools, pool) {
        Some(p) => p,
        None => return Err(PoolEditError::UnknownPool),
    };
    let target = &pools[p];
    let found = find_backend_index(target, backend);
    let b = match found {
        Some(b) => b,
        None => return Err(PoolEditError::UnknownBackend),
    };
    let ghost before = pools@;
    let mut bs = take_backends(pools, p);
    let ghost mid = pools@;
    bs.remove(b);
    replace_backends(pools, p, bs);
    proof {
        assert forall|q: int| 0 <= q < before.len() && q != p implies pools@[q] == before[q] by {
            assert(pools@[q] == mid[q]);
        }
    }
    Ok(())
}

/// Append `backend` to pool `pool`, unless the pool already has a backend
/// with its name or address, or its address is empty.
pub fn add_backend(pools: &mut Vec<RoutePool>, pool: &str, backend: RouteBackend) -> (r: Result<(), PoolEditError>)
    ensures
        match spec_find_pool(old(pools)@, pool@) {
            None => r == Err::<(), PoolEditError>(PoolEditError::UnknownPool) && final(pools)@ == old(pools)@,
            Some(p) => if spec_identity_exists(old(pools)@[p].backends@, backend) {
                r == Err::<(), PoolEditError>(PoolEditError::DuplicateBackend) && final(pools)@ == old(pools)@
            } else if backend.address_text@.len() == 0 {
                r == Err::<(), PoolEditError>(PoolEditError::EmptyAddress) && final(pools)@ == old(pools)@
            } else {
                r is Ok && spec_pool_replaced(old(pools)@, final(pools)@, p, old(pools)@[p].backends@.push(backend))
            },
        },
{
    let p = match find_pool(pools, pool) {
        Some(p) => p,
        None => return Err(PoolEditError::UnknownPool),
    };
    if backend_identity_exists(&pools[p], &backend) {
        return Err(PoolEditError::DuplicateBackend);
    }
    if backend.address_text.as_str().unicode_len() == 0 {
        return Err(PoolEditError::EmptyAddress);
    }
    let ghost before = pools@;
    let mut bs = take_backends(pools, p);
    let ghost mid = pools@;
    bs.push(backend);
    replace_backends(pools, p, bs);
    proof {
        assert forall|q: int| 0 <= q < before.len() && q != p implies pools@[q] == before[q] by {
            assert(pools@[q] == mid[q]);
        }
    }
    Ok(())
}

/// An edit touches only the pool it names: every other pool, and the
/// order of the pools, stay as they were.
pub proof fn lemma_edit_is_local(before: Seq<RoutePool>, after: Seq<RoutePool>, p: int, backends: Seq<RouteBackend>, q: int)
    requires
        spec_pool_replaced(before, after, p, backends),
        0 <= q < before.len(),
        q != p,
    ensures
        after[q] == before[q],
        after.len() == before.len(),
        after[p].name == before[p].name,
{
}

} // verus!
