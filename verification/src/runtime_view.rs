//! The routing runtime view scripts read: per-pool counts and per-backend
//! health as seen at hook entry. Latency figures and weight factors are
//! floating point and are added to the view outside the library.

use vstd::prelude::*;
use crate::health::state::Health;

verus! {

/// The label a health value shows in the view.
pub fn health_label(h: Health) -> (r: &'static str)
    ensures
        r@ == (match h {
            Health::Up => "up"@,
            Health::Down => "down"@,
            Health::Unknown => "unknown"@,
        }),
{
    match h {
        Health::Up => "up",
        Health::Down => "down",
        Health::Unknown => "unknown",
    }
}

/// What the view reads of a backend's health state.
#[derive(Debug, Clone, Copy, PartialEq, Eq, Structural)]
pub struct BackendStateView {
    pub applied: Health,
    pub observed: Health,
    /// The backend's effective control scope is frozen.
    pub frozen: bool,
    pub last_transition_unix_ms: Option<u64>,
}

/// One configured backend of a pool, as the view reads it.
#[derive(Debug, Clone, Copy, PartialEq, Eq, Structural)]
pub struct BackendRow {
    /// The configured address parses as a socket address.
    pub address_parses: bool,
    /// The backend's health state, when the health table has one.
    pub state: Option<BackendStateView>,
    /// Forwards outstanding to this backend.
    pub outstanding: u32,
}

/// The non-floating-point part of a backend's routing view.
#[derive(Debug, Clone, Copy, PartialEq, Eq)]
pub struct BackendRouting {
    pub applied: &'static str,
    pub observed: &'static str,
    pub eligible: bool,
    pub frozen: bool,
    pub outstanding: u32,
    pub last_transition_unix_ms: Option<u64>,
}

/// A pool's routing view.
#[derive(Debug, Clone, Copy, PartialEq, Eq, Structural)]
pub struct PoolRouting {
    pub configured_count: u32,
    pub eligible_count: u32,
    pub fail_open_active: bool,
    pub max_outstanding: u32,
}

/// The view of a backend: from its health state when the pool is health
/// checked and the state exists, else up, unobserved and eligible.
pub fn backend_routing(row: &BackendRow, pool_health_checked: bool) -> (r: BackendRouting)
    ensures
        r.outstanding == row.outstanding,
        (pool_health_checked && row.state is Some) ==> ({
            let s = row.state.unwrap();
            &&& r.applied@ == (match s.applied {
                Health::Up => "up"@,
                Health::Down => "down"@,
                Health::Unknown => "unknown"@,
            })
            &&& r.observed@ == (match s.observed {
                Health::Up => "up"@,
                Health::Down => "down"@,
                Health::Unknown => "unknown"@,
            })
            &&& r.eligible == (s.applied == Health::Up)
            &&& r.frozen == s.frozen
            &&& r.last_transition_unix_ms == s.last_transition_unix_ms
        }),
        !(pool_health_checked && row.state is Some) ==> r.applied@ == "up"@ && r.observed@ == "unknown"@ && r.eligible
            && !r.frozen && r.last_transition_unix_ms is None,
{
    match row.state {
        Some(s) if pool_health_checked => BackendRouting {
            applied: health_label(s.applied),
            observed: health_label(s.observed),
            eligible: s.applied == Health::Up,
            frozen: s.frozen,
            outstanding: row.outstanding,
            last_transition_unix_ms: s.last_transition_unix_ms,
        },
        _ => BackendRouting {
            applied: "up",
            observed: "unknown",
            eligible: true,
            frozen: false,
            outstanding: row.outstanding,
            last_transition_unix_ms: None,
        },
    }
}

/// A backend routes: its address parses and it has no health state or an
/// applied verdict of up.
pub open spec fn spec_row_eligible(r: BackendRow) -> bool {
    r.address_parses && match r.state {
        Some(s) => s.applied == Health::Up,
        None => true,
    }
}

/// Eligible backends among the first `n` rows.
pub open spec fn spec_eligible(rows: Seq<BackendRow>, n: nat) -> nat
    decreases n,
{
    if n == 0 {
        0
    } else {
        spec_eligible(rows, (n - 1) as nat) + if spec_row_eligible(rows[n - 1]) { 1nat } else { 0nat }
    }
}

/// Largest outstanding count among the first `n` rows whose address parses.
pub open spec fn spec_max_outstanding(rows: Seq<BackendRow>, n: nat) -> u32
    decreases n,
{
    if n == 0 {
        0
    } else {
        let m = spec_max_outstanding(rows, (n - 1) as nat);
        if rows[n - 1].address_parses && rows[n - 1].outstanding > m {
            rows[n - 1].outstanding
        } else {
            m
        }
    }
}

/// The pool view for its backend rows; `min_eligible` is the pool's health
/// floor when it is health checked. Without health checking every backend
/// counts as eligible; with it, the pool fails open when it has at most one
/// backend or fewer eligible backends than its floor (at least one).
pub open spec fn spec_pool_routing(rows: Seq<BackendRow>, min_eligible: Option<u32>) -> PoolRouting {
    let configured = rows.len() as u32;
    let eligible = spec_eligible(rows, rows.len());
    PoolRouting {
        configured_count: configured,
        eligible_count: match min_eligible {
            Some(_) => eligible as u32,
            None => configured,
        },
        fail_open_active: match min_eligible {
            Some(m) => rows.len() <= 1 || eligible < (if m > 1 { m as nat } else { 1nat }),
            None => false,
        },
        max_outstanding: spec_max_outstanding(rows, rows.len()),
    }
}

proof fn lemma_eligible_le(rows: Seq<BackendRow>, n: nat)
    ensures
        spec_eligible(rows, n) <= n,
    decreases n,
{
    if n > 0 {
        lemma_eligible_le(rows, (n - 1) as nat);
    }
}

/// Build a pool's routing view.
pub fn pool_routing(rows: &Vec<BackendRow>, min_eligible: Option<u32>) -> (r: PoolRouting)
    ensures
        r == spec_pool_routing(rows@, min_eligible),
{
    let mut eligible: usize = 0;
    let mut max_out: u32 = 0;
    let mut i: usize = 0;
    while i < rows.len()
        invariant
            i <= rows@.len(),
            eligible == spec_eligible(rows@, i as nat),
            max_out == spec_max_outstanding(rows@, i as nat),
        decreases rows@.len() - i,
    {
        let row = &rows[i];
        proof {
            lemma_eligible_le(rows@, i as nat);
        }
        if row.address_parses {
            let ok = match row.state {
                Some(s) => s.applied == Health::Up,
                None => true,
            };
            if ok {
                eligible = eligible + 1;
            }
            if row.outstanding > max_out {
                max_out = row.outstanding;
            }
        }
        i = i + 1;
    }
    let configured = rows.len() as u32;
    match min_eligible {
        Some(m) => {
            let floor: usize = if m > 1 { m as usize } else { 1 };
            PoolRouting {
                configured_count: configured,
                eligible_count: eligible as u32,
                fail_open_active: rows.len() <= 1 || eligible < floor,
                max_outstanding: max_out,
            }
        },
        None => PoolRouting {
            configured_count: configured,
            eligible_count: configured,
            fail_open_active: false,
            max_outstanding: max_out,
        },
    }
}

proof fn lemma_none_eligible(rows: Seq<BackendRow>, n: nat)
    requires
        n <= rows.len(),
        forall|i: int| 0 <= i < n ==> !spec_row_eligible(#[trigger] rows[i]),
    ensures
        spec_eligible(rows, n) == 0,
    decreases n,
{
    if n > 0 {
        lemma_none_eligible(rows, (n - 1) as nat);
    }
}

/// A health-checked pool none of whose backends can route is in fail-open;
/// a pool without health checking never is, and counts every configured
/// backend as eligible.
pub proof fn lemma_pool_fail_open(rows: Seq<BackendRow>, min_eligible: Option<u32>)
    ensures
        min_eligible is Some && (forall|i: int| 0 <= i < rows.len() ==> !spec_row_eligible(#[trigger] rows[i]))
            ==> spec_pool_routing(rows, min_eligible).fail_open_active
                && spec_pool_routing(rows, min_eligible).eligible_count == 0,
        min_eligible is None ==> !spec_pool_routing(rows, min_eligible).fail_open_active
            && spec_pool_routing(rows, min_eligible).eligible_count == spec_pool_routing(rows, min_eligible).configured_count,
{
    if min_eligible is Some && (forall|i: int| 0 <= i < rows.len() ==> !spec_row_eligible(#[trigger] rows[i])) {
        lemma_none_eligible(rows, rows.len());
    }
}

} // verus!
