//! Route: the pool a forward attempt uses and the backend it goes to.

use vstd::prelude::*;
use crate::net::SockAddr;
use crate::routing::{
    backend_metric_label_for_addr, default_pool_name, lemma_select_untried, select_backend, spec_find_pool,
    spec_label, spec_select, spec_selection_inputs_ok, spec_tried_in_pool, tried_backends_in_pool, PoolHealthInput,
    RoutePool,
};
use crate::string_map::{entry_for, find_entry, unique_keys};
use crate::transaction::Transaction;

verus! {

/// Why Route picked no backend.
#[derive(Debug, Clone, Copy, PartialEq, Eq, Structural)]
pub enum RouteFailure {
    /// No pool was selected and the configuration has none.
    NoPool,
    /// The pool has no backend to pick (none parse, or every one was tried).
    NoBackendSelected,
}

/// What Route did: recorded an attempt to forward, or failed, leaving the
/// transaction with a SERVFAIL rcode.
#[derive(Debug, Clone, Copy, PartialEq, Eq, Structural)]
pub enum RouteOutcome {
    Forward,
    Failed(RouteFailure),
}

/// The DNS SERVFAIL response code.
pub const ROUTE_FAILURE_RCODE: u16 = 2;

/// The pool named `default`, else the first configured pool.
pub open spec fn spec_default_pool(pools: Seq<RoutePool>) -> Option<Seq<char>> {
    match spec_find_pool(pools, "default"@) {
        Some(i) => Some(pools[i].name@),
        None => if pools.len() > 0 {
            Some(pools[0].name@)
        } else {
            None
        },
    }
}

/// The pool an attempt routes to: on a retry the stashed retry pool, else
/// the selected pool; on a first attempt the selected pool; either way the
/// default pool when none is set.
pub open spec fn spec_route_pool(txn: Transaction, pools: Seq<RoutePool>) -> Option<Seq<char>> {
    let chosen = if txn.attempt_count > 0 {
        match txn.retry_pool {
            Some(p) => Some(p),
            None => txn.selected_pool,
        }
    } else {
        txn.selected_pool
    };
    match chosen {
        Some(p) => Some(p@),
        None => spec_default_pool(pools),
    }
}

/// The transaction once Route has read its pool: a retry consumes the
/// stashed retry pool.
pub open spec fn spec_after_pool_read(txn: Transaction) -> Transaction {
    if txn.attempt_count > 0 {
        Transaction { retry_pool: None, ..txn }
    } else {
        txn
    }
}

fn copy_name(s: &Option<String>) -> (r: Option<String>)
    ensures
        match *s {
            Some(p) => r matches Some(q) && q@ == p@,
            None => r is None,
        },
{
    match s {
        Some(p) => Some(p.clone()),
        None => None,
    }
}

/// The pool this attempt routes to (see [`spec_route_pool`]).
pub fn route_pool_name(txn: &mut Transaction, pools: &Vec<RoutePool>) -> (r: Option<String>)
    ensures
        *final(txn) == spec_after_pool_read(*old(txn)),
        match r {
            Some(n) => spec_route_pool(*old(txn), pools@) == Some(n@),
            None => spec_route_pool(*old(txn), pools@) is None,
        },
{
    let chosen = if txn.attempt_count > 0 {
        match txn.take_retry_pool() {
            Some(p) => Some(p),
            None => copy_name(&txn.selected_pool),
        }
    } else {
        copy_name(&txn.selected_pool)
    };
    match chosen {
        Some(p) => Some(p),
        None => default_pool_name(pools),
    }
}

/// The first Route of a transaction routes to its selected pool, or the
/// default pool when none is selected, whatever retry pool a rule has
/// stashed, and leaves the stash for a later retry; a retry routes to the
/// stashed pool when there is one and consumes it.
pub proof fn lemma_first_route_ignores_retry_pool(txn: Transaction, pools: Seq<RoutePool>, stash: Option<String>)
    ensures
        txn.attempt_count == 0 ==> spec_route_pool(txn, pools) == match txn.selected_pool {
            Some(p) => Some(p@),
            None => spec_default_pool(pools),
        },
        txn.attempt_count == 0 ==> spec_route_pool(Transaction { retry_pool: stash, ..txn }, pools)
            == spec_route_pool(txn, pools),
        txn.attempt_count == 0 ==> spec_after_pool_read(txn).retry_pool == txn.retry_pool,
        txn.attempt_count > 0 ==> (txn.retry_pool matches Some(p) ==> spec_route_pool(txn, pools) == Some(p@)),
        txn.attempt_count > 0 ==> spec_after_pool_read(txn).retry_pool is None,
{
}

/// The default pool is the pool named `default` when one is configured,
/// else the first configured pool, and there is none without pools.
pub proof fn lemma_default_pool(pools: Seq<RoutePool>)
    ensures
        (exists|i: int| 0 <= i < pools.len() && pools[i].name@ == "default"@)
            ==> spec_default_pool(pools) == Some("default"@),
        !(exists|i: int| 0 <= i < pools.len() && pools[i].name@ == "default"@) && pools.len() > 0
            ==> spec_default_pool(pools) == Some(pools[0].name@),
        pools.len() == 0 ==> spec_default_pool(pools) is None,
{
    if exists|i: int| 0 <= i < pools.len() && pools[i].name@ == "default"@ {
        let k = choose|i: int| 0 <= i < pools.len() && pools[i].name@ == "default"@;
        lemma_first_named(pools, "default"@, k);
        let f = spec_find_pool(pools, "default"@)->0;
        assert(pools[f].name@ == "default"@);
    }
}

proof fn lemma_first_named(pools: Seq<RoutePool>, name: Seq<char>, k: int)
    requires
        0 <= k < pools.len(),
        pools[k].name@ == name,
    ensures
        exists|i: int| 0 <= i < pools.len() && pools[i].name@ == name && forall|j: int| 0 <= j < i ==> pools[j].name@ != name,
    decreases k,
{
    if exists|j: int| 0 <= j < k && pools[j].name@ == name {
        let j = choose|j: int| 0 <= j < k && pools[j].name@ == name;
        lemma_first_named(pools, name, j);
    }
}

/// The label of the first backend of `pool_name` with address `a`.
pub open spec fn spec_backend_label(pools: Seq<RoutePool>, pool_name: Seq<char>, a: SockAddr, l: Seq<char>) -> bool {
    spec_find_pool(pools, pool_name) matches Some(p) && exists|i: int|
        0 <= i < pools[p].backends@.len() && pools[p].backends@[i].address == Some(a) && (forall|j: int|
            0 <= j < i ==> pools[p].backends@[j].address != Some(a)) && l == spec_label(
            pools[p].backends@[i].name,
            pools[p].backends@[i].address_text@,
        )
}

/// What Route leaves in the transaction after picking backend `a` of
/// `pool_name`: one more attempt, recorded, and the pick as the selection.
pub open spec fn spec_recorded(before: Transaction, after: Transaction, pools: Seq<RoutePool>, pool_name: Seq<char>, a: SockAddr) -> bool {
    &&& after.attempt_count == before.attempt_count + 1
    &&& after.attempts@.drop_last() == before.attempts@
    &&& after.attempts@.len() == before.attempts@.len() + 1
    &&& after.attempts@.last().pool@ == pool_name
    &&& after.attempts@.last().backend == a
    &&& after.attempts@.last().attempt == after.attempt_count
    &&& after.selected_pool matches Some(p) && p@ == pool_name
    &&& after.selected_backend == Some(a)
    &&& after.selected_backend_label matches Some(l) && spec_backend_label(pools, pool_name, a, l@)
    &&& after == Transaction {
        attempt_count: after.attempt_count,
        attempts: after.attempts,
        selected_pool: after.selected_pool,
        selected_backend: Some(a),
        selected_backend_label: after.selected_backend_label,
        ..before
    }
}

/// Route with per-pool health inputs, keyed by pool name.
#[derive(Debug, Clone, Copy)]
pub struct RouteStage;

impl RouteStage {
    pub fn new() -> (r: RouteStage) {
        RouteStage
    }

    /// Pick the pool (see [`spec_route_pool`]) and, within it, the backend
    /// selection returns for this transaction and snapshot generation; record
    /// the attempt. Without a pool, or without a backend to pick, the
    /// transaction gets a SERVFAIL rcode.
    pub fn handle(
        &self,
        txn: &mut Transaction,
        pools: &Vec<RoutePool>,
        generation: u64,
        health: &Vec<(String, PoolHealthInput)>,
    ) -> (r: RouteOutcome)
        requires
            unique_keys(health@),
            forall|name: Seq<char>| spec_selection_inputs_ok(pools@, name, #[trigger] entry_for(health@, name)),
            old(txn).attempt_count < u32::MAX,
        ensures
            ({
                let t1 = spec_after_pool_read(*old(txn));
                match spec_route_pool(*old(txn), pools@) {
                    None => r == RouteOutcome::Failed(RouteFailure::NoPool) && *final(txn) == (Transaction {
                        rcode: Some(ROUTE_FAILURE_RCODE),
                        ..t1
                    }),
                    Some(name) => match spec_select(
                        pools@,
                        name,
                        t1.id,
                        generation,
                        t1.attempt_count,
                        spec_tried_in_pool(t1.attempts@, name),
                        entry_for(health@, name),
                    ) {
                        None => r == RouteOutcome::Failed(RouteFailure::NoBackendSelected) && *final(txn) == (
                        Transaction { rcode: Some(ROUTE_FAILURE_RCODE), ..t1 }),
                        Some(a) => r == RouteOutcome::Forward && spec_recorded(t1, *final(txn), pools@, name, a),
                    },
                }
            }),
    {
        let pool_name = match route_pool_name(txn, pools) {
            Some(p) => p,
            None => {
                txn.set_rcode(ROUTE_FAILURE_RCODE);
                return RouteOutcome::Failed(RouteFailure::NoPool);
            },
        };
        let ghost t1 = *txn;
        let pool_health = match find_entry(health, pool_name.as_str()) {
            Some(i) => Some(&health[i].1),
            None => None,
        };
        proof {
            assert(match pool_health {
                Some(h) => Some(*h),
                None => None,
            } == entry_for(health@, pool_name@));
        }
        let tried = tried_backends_in_pool(&txn.attempts, pool_name.as_str());
        let picked = select_backend(pools, pool_name.as_str(), txn.id, generation, txn.attempt_count, &tried, pool_health);
        match picked {
            None => {
                txn.set_rcode(ROUTE_FAILURE_RCODE);
                RouteOutcome::Failed(RouteFailure::NoBackendSelected)
            },
            Some((pool, backend)) => {
                proof {
                    lemma_select_untried(
                        pools@,
                        pool_name@,
                        t1.id,
                        generation,
                        t1.attempt_count,
                        tried@,
                        entry_for(health@, pool_name@),
                    );
                }
                let label = match backend_metric_label_for_addr(pools, pool.as_str(), backend) {
                    Some(l) => l,
                    None => {
                        proof {
                            let p = spec_find_pool(pools@, pool_name@)->0;
                            let i = choose|i: int|
                                0 <= i < pools@[p].backends@.len() && pools@[p].backends@[i].address == Some(backend);
                            assert(pools@[p].backends@[i].address == Some(backend));
                        }
                        pool.clone()
                    },
                };
                txn.record_attempt(pool, backend, label);
                RouteOutcome::Forward
            },
        }
    }
}

} // verus!
