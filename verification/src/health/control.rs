//! Operator health controls: tri-state scope precedence.
//!
//! Scope is settable at global, pool, and backend levels as `inherit`
//! (absence), `frozen`, or `automatic`. Resolution is most-specific-wins:
//! backend, then pool, then global, then the system default (`automatic`).

use vstd::prelude::*;
use crate::net::SockAddr;
use super::state::BackendKey;
use super::table::{keys_unique, lookup, find_key, assoc_insert, assoc_remove};

verus! {

/// Stored encoding of an automatic scope.
pub const SCOPE_AUTOMATIC: u8 = 0;
/// Stored encoding of a frozen scope.
pub const SCOPE_FROZEN: u8 = 1;

/// Tri-state scope setting stored at a control level.
#[derive(Debug, Clone, Copy, PartialEq, Eq, Structural)]
pub enum ScopeMode {
    /// Follow the next broader level (not stored in maps).
    Inherit,
    /// Hold `applied` while `observed` keeps updating.
    Frozen,
    /// Probe-driven: `applied` tracks `observed`.
    Automatic,
}

/// Effective scope after most-specific-wins resolution.
#[derive(Debug, Clone, Copy, PartialEq, Eq, Structural)]
pub enum EffectiveScope {
    Frozen,
    Automatic,
}

/// Control scope target for a health control request.
#[derive(Debug, Clone)]
pub enum HealthControlScope {
    Global,
    Pool { pool: String },
    Backend { pool: String, address: SockAddr },
}

/// Control-plane action.
#[derive(Debug, Clone, Copy, PartialEq, Eq, Structural)]
pub enum HealthControlAction {
    Freeze,
    SetUp,
    SetDown,
    ResumeAutomatic,
}

pub open spec fn spec_scope_to_u8(mode: ScopeMode) -> u8 {
    match mode {
        ScopeMode::Frozen => SCOPE_FROZEN,
        _ => SCOPE_AUTOMATIC,
    }
}

pub open spec fn spec_u8_to_scope(v: u8) -> ScopeMode {
    if v == SCOPE_FROZEN { ScopeMode::Frozen } else { ScopeMode::Automatic }
}

pub open spec fn spec_effective(mode: ScopeMode) -> EffectiveScope {
    match mode {
        ScopeMode::Frozen => EffectiveScope::Frozen,
        _ => EffectiveScope::Automatic,
    }
}

/// Storage encoding: `automatic` and `inherit` store as automatic.
pub fn scope_to_u8(mode: ScopeMode) -> (r: u8)
    ensures
        r == spec_scope_to_u8(mode),
{
    match mode {
        ScopeMode::Automatic | ScopeMode::Inherit => SCOPE_AUTOMATIC,
        ScopeMode::Frozen => SCOPE_FROZEN,
    }
}

/// Decoding: only the frozen encoding reads as frozen.
pub fn u8_to_scope(v: u8) -> (r: ScopeMode)
    ensures
        r == spec_u8_to_scope(v),
{
    if v == SCOPE_FROZEN {
        ScopeMode::Frozen
    } else {
        ScopeMode::Automatic
    }
}

impl EffectiveScope {
    /// `frozen` stays frozen; `inherit` and `automatic` resolve to automatic.
    pub fn from_mode(mode: ScopeMode) -> (r: EffectiveScope)
        ensures
            r == spec_effective(mode),
    {
        match mode {
            ScopeMode::Frozen => EffectiveScope::Frozen,
            ScopeMode::Inherit | ScopeMode::Automatic => EffectiveScope::Automatic,
        }
    }
}

/// Storing a mode and reading it back gives the same effective scope.
pub proof fn lemma_scope_encoding_roundtrip(mode: ScopeMode)
    ensures
        spec_effective(spec_u8_to_scope(spec_scope_to_u8(mode))) == spec_effective(mode),
{
}

pub open spec fn pools_unique(t: Seq<(String, u8)>) -> bool {
    forall|i: int, j: int| 0 <= i < j < t.len() ==> #[trigger] t[i].0@ != #[trigger] t[j].0@
}

pub open spec fn pool_lookup(t: Seq<(String, u8)>, p: Seq<char>) -> Option<u8> {
    if exists|i: int| 0 <= i < t.len() && #[trigger] t[i].0@ == p {
        Some(t[choose|i: int| 0 <= i < t.len() && #[trigger] t[i].0@ == p].1)
    } else {
        None
    }
}

proof fn lemma_pool_lookup_at(t: Seq<(String, u8)>, i: int)
    requires
        pools_unique(t),
        0 <= i < t.len(),
    ensures
        pool_lookup(t, t[i].0@) == Some(t[i].1),
{
    let k = t[i].0@;
    assert(t[i].0@ == k);
    let c = choose|c: int| 0 <= c < t.len() && #[trigger] t[c].0@ == k;
    if c != i {
        if c < i {
            assert(t[c].0@ != t[i].0@);
        } else {
            assert(t[i].0@ != t[c].0@);
        }
    }
}

/// Scope overrides for operator controls: a global mode plus explicit
/// per-pool and per-backend modes.
#[derive(Debug, Clone)]
pub struct HealthControlScopes {
    global: u8,
    pools: Vec<(String, u8)>,
    backends: Vec<(BackendKey, u8)>,
}

impl HealthControlScopes {
    pub closed spec fn wf(&self) -> bool {
        pools_unique(self.pools@) && keys_unique(self.backends@)
    }

    /// The stored global mode.
    pub closed spec fn spec_global(&self) -> u8 {
        self.global
    }

    /// The explicit mode stored for a pool, if any.
    pub closed spec fn spec_pool_mode(&self, pool: Seq<char>) -> Option<u8> {
        pool_lookup(self.pools@, pool)
    }

    /// The explicit mode stored for a backend, if any.
    pub closed spec fn spec_backend_mode(&self, k: (Seq<char>, SockAddr)) -> Option<u8> {
        lookup(self.backends@, k)
    }

    /// Most specific explicit level wins: backend, then pool, then global.
    pub open spec fn spec_resolve(&self, pool: Seq<char>, k: (Seq<char>, SockAddr)) -> EffectiveScope {
        match self.spec_backend_mode(k) {
            Some(m) => spec_effective(spec_u8_to_scope(m)),
            None => match self.spec_pool_mode(pool) {
                Some(m) => spec_effective(spec_u8_to_scope(m)),
                None => spec_effective(spec_u8_to_scope(self.spec_global())),
            },
        }
    }

    /// No overrides anywhere: the global mode is automatic and no pool or
    /// backend has an explicit mode.
    pub open spec fn spec_is_default(&self) -> bool {
        &&& self.wf()
        &&& self.spec_global() == SCOPE_AUTOMATIC
        &&& forall|p: Seq<char>| #[trigger] self.spec_pool_mode(p) is None
        &&& forall|k: (Seq<char>, SockAddr)| #[trigger] self.spec_backend_mode(k) is None
    }

    /// No overrides anywhere: every backend resolves to automatic.
    pub fn new() -> (r: HealthControlScopes)
        ensures
            r.spec_is_default(),
            r.wf(),
            r.spec_global() == SCOPE_AUTOMATIC,
            forall|p: Seq<char>| #[trigger] r.spec_pool_mode(p) is None,
            forall|k: (Seq<char>, SockAddr)| #[trigger] r.spec_backend_mode(k) is None,
    {
        HealthControlScopes { global: SCOPE_AUTOMATIC, pools: Vec::new(), backends: Vec::new() }
    }

    /// `self` is `prev` after storing `mode` at `scope`.
    pub open spec fn spec_set_level_post(&self, prev: HealthControlScopes, scope: HealthControlScope, mode: ScopeMode) -> bool {
        &&& self.wf()
        &&& match scope {
                HealthControlScope::Global => {
                    &&& self.spec_global() == spec_scope_to_u8(mode)
                    &&& forall|p: Seq<char>| #[trigger] self.spec_pool_mode(p) == prev.spec_pool_mode(p)
                    &&& forall|k: (Seq<char>, SockAddr)| #[trigger] self.spec_backend_mode(k)
                        == prev.spec_backend_mode(k)
                },
                HealthControlScope::Pool { pool } => {
                    &&& self.spec_global() == prev.spec_global()
                    &&& forall|p: Seq<char>| #[trigger] self.spec_pool_mode(p) == if p == pool@ {
                        if mode == ScopeMode::Inherit { None } else { Some(spec_scope_to_u8(mode)) }
                    } else {
                        prev.spec_pool_mode(p)
                    }
                    &&& forall|k: (Seq<char>, SockAddr)| #[trigger] self.spec_backend_mode(k)
                        == prev.spec_backend_mode(k)
                },
                HealthControlScope::Backend { pool, address } => {
                    &&& self.spec_global() == prev.spec_global()
                    &&& forall|p: Seq<char>| #[trigger] self.spec_pool_mode(p) == prev.spec_pool_mode(p)
                    &&& forall|k: (Seq<char>, SockAddr)| #[trigger] self.spec_backend_mode(k)
                        == if k == (pool@, address) {
                        if mode == ScopeMode::Inherit { None } else { Some(spec_scope_to_u8(mode)) }
                    } else {
                        prev.spec_backend_mode(k)
                    }
                },
            }
    }

    /// Store `mode` at `scope`: the global level always stores a mode
    /// (`inherit` stores automatic); at pool and backend levels `inherit`
    /// removes the explicit mode.
    pub fn set_level(&mut self, scope: &HealthControlScope, mode: ScopeMode)
        requires
            old(self).wf(),
        ensures
            final(self).spec_set_level_post(*old(self), *scope, mode),
    {
        match scope {
            HealthControlScope::Global => {
                self.global = scope_to_u8(mode);
            },
            HealthControlScope::Pool { pool } => {
                self.set_pool_mode(pool, mode);
            },
            HealthControlScope::Backend { pool, address } => {
                let key = BackendKey::new(pool.clone(), *address);
                match mode {
                    ScopeMode::Inherit => {
                        assoc_remove(&mut self.backends, pool, *address);
                    },
                    other => {
                        let v = scope_to_u8(other);
                        assoc_insert(&mut self.backends, key, v);
                    },
                }
            },
        }
    }

    fn set_pool_mode(&mut self, pool: &String, mode: ScopeMode)
        requires
            old(self).wf(),
        ensures
            final(self).wf(),
            final(self).global == old(self).global,
            final(self).backends == old(self).backends,
            forall|p: Seq<char>| #[trigger] pool_lookup(final(self).pools@, p) == if p == pool@ {
                if mode == ScopeMode::Inherit { None } else { Some(spec_scope_to_u8(mode)) }
            } else {
                pool_lookup(old(self).pools@, p)
            },
    {
        let mut i: usize = 0;
        while i < self.pools.len()
            invariant
                self.wf(),
                *self == *old(self),
                0 <= i <= self.pools@.len(),
                forall|k: int| 0 <= k < i ==> self.pools@[k].0@ != pool@,
            ensures
                i < self.pools@.len() ==> self.pools@[i as int].0@ == pool@,
            decreases self.pools@.len() - i,
        {
            if self.pools[i].0 == *pool {
                break;
            }
            i += 1;
        }
        let ghost o = self.pools@;
        if i < self.pools.len() {
            proof {
                lemma_pool_lookup_at(o, i as int);
            }
            match mode {
                ScopeMode::Inherit => {
                    let _ = self.pools.remove(i);
                    proof {
                        assert(self.pools@ == o.remove(i as int));
                        assert forall|a: int, b: int| 0 <= a < b < self.pools@.len() implies #[trigger] self.pools@[a].0@
                            != #[trigger] self.pools@[b].0@ by {
                            let oa = if a < i { a } else { a + 1 };
                            let ob = if b < i { b } else { b + 1 };
                            assert(self.pools@[a] == o[oa]);
                            assert(self.pools@[b] == o[ob]);
                            assert(o[oa].0@ != o[ob].0@);
                        }
                        assert forall|p: Seq<char>| #[trigger] pool_lookup(self.pools@, p) == if p == pool@ {
                            None::<u8>
                        } else {
                            pool_lookup(o, p)
                        } by {
                            let t = self.pools@;
                            if exists|j: int| 0 <= j < t.len() && #[trigger] t[j].0@ == p {
                                let j = choose|j: int| 0 <= j < t.len() && #[trigger] t[j].0@ == p;
                                let oj = if j < i { j } else { j + 1 };
                                assert(t[j] == o[oj]);
                                lemma_pool_lookup_at(t, j);
                                lemma_pool_lookup_at(o, oj);
                                if p == pool@ {
                                    if oj < i {
                                        assert(o[oj].0@ != o[i as int].0@);
                                    } else {
                                        assert(o[i as int].0@ != o[oj].0@);
                                    }
                                }
                            } else if p != pool@ && exists|j: int| 0 <= j < o.len() && #[trigger] o[j].0@ == p {
                                let j = choose|j: int| 0 <= j < o.len() && #[trigger] o[j].0@ == p;
                                assert(j != i);
                                let tj = if j < i { j } else { j - 1 };
                                assert(t[tj] == o[j]);
                            }
                        }
                    }
                },
                other => {
                    let v = scope_to_u8(other);
                    let name = self.pools[i].0.clone();
                    self.pools.set(i, (name, v));
                    proof {
                        let t = self.pools@;
                        assert forall|a: int, b: int| 0 <= a < b < t.len() implies #[trigger] t[a].0@
                            != #[trigger] t[b].0@ by {
                            assert(o[a].0@ != o[b].0@);
                        }
                        assert forall|p: Seq<char>| #[trigger] pool_lookup(t, p) == if p == pool@ {
                            Some(v)
                        } else {
                            pool_lookup(o, p)
                        } by {
                            if p == pool@ {
                                lemma_pool_lookup_at(t, i as int);
                            } else if exists|j: int| 0 <= j < o.len() && #[trigger] o[j].0@ == p {
                                let j = choose|j: int| 0 <= j < o.len() && #[trigger] o[j].0@ == p;
                                lemma_pool_lookup_at(o, j);
                                lemma_pool_lookup_at(t, j);
                            } else if exists|j: int| 0 <= j < t.len() && #[trigger] t[j].0@ == p {
                                let j = choose|j: int| 0 <= j < t.len() && #[trigger] t[j].0@ == p;
                                assert(o[j].0@ == p);
                            }
                        }
                    }
                },
            }
        } else {
            match mode {
                ScopeMode::Inherit => {},
                other => {
                    let v = scope_to_u8(other);
                    self.pools.push((pool.clone(), v));
                    proof {
                        let t = self.pools@;
                        let n = o.len() as int;
                        assert forall|a: int, b: int| 0 <= a < b < t.len() implies #[trigger] t[a].0@
                            != #[trigger] t[b].0@ by {
                            if b == n {
                                assert(t[a] == o[a]);
                            } else {
                                assert(o[a].0@ != o[b].0@);
                            }
                        }
                        assert forall|p: Seq<char>| #[trigger] pool_lookup(t, p) == if p == pool@ {
                            Some(v)
                        } else {
                            pool_lookup(o, p)
                        } by {
                            if p == pool@ {
                                lemma_pool_lookup_at(t, n);
                            } else if exists|j: int| 0 <= j < o.len() && #[trigger] o[j].0@ == p {
                                let j = choose|j: int| 0 <= j < o.len() && #[trigger] o[j].0@ == p;
                                lemma_pool_lookup_at(o, j);
                                lemma_pool_lookup_at(t, j);
                            } else if exists|j: int| 0 <= j < t.len() && #[trigger] t[j].0@ == p {
                                let j = choose|j: int| 0 <= j < t.len() && #[trigger] t[j].0@ == p;
                                assert(j != n);
                                assert(o[j].0@ == p);
                            }
                        }
                    }
                },
            }
        }
    }

    fn pool_mode(&self, pool: &String) -> (r: Option<u8>)
        requires
            self.wf(),
        ensures
            r == self.spec_pool_mode(pool@),
    {
        let mut i: usize = 0;
        while i < self.pools.len()
            invariant
                self.wf(),
                0 <= i <= self.pools@.len(),
                forall|k: int| 0 <= k < i ==> self.pools@[k].0@ != pool@,
            decreases self.pools@.len() - i,
        {
            if self.pools[i].0 == *pool {
                proof {
                    lemma_pool_lookup_at(self.pools@, i as int);
                }
                return Some(self.pools[i].1);
            }
            i += 1;
        }
        None
    }

    /// Resolve the effective scope of backend `key` in `pool`: an explicit
    /// backend mode wins, then an explicit pool mode, then the global mode.
    pub fn resolve(&self, pool: &String, key: &BackendKey) -> (r: EffectiveScope)
        requires
            self.wf(),
        ensures
            r == self.spec_resolve(pool@, key@),
    {
        match find_key(&self.backends, &key.pool, key.address) {
            Some(i) => {
                return EffectiveScope::from_mode(u8_to_scope(self.backends[i].1));
            },
            None => {},
        }
        match self.pool_mode(pool) {
            Some(m) => EffectiveScope::from_mode(u8_to_scope(m)),
            None => EffectiveScope::from_mode(u8_to_scope(self.global)),
        }
    }
}

/// Most specific wins: an explicit backend mode decides regardless of pool
/// and global modes; without one, an explicit pool mode decides regardless
/// of the global mode.
pub proof fn lemma_most_specific_wins(s: HealthControlScopes, pool: Seq<char>, k: (Seq<char>, SockAddr))
    ensures
        s.spec_backend_mode(k) matches Some(m) ==> s.spec_resolve(pool, k) == spec_effective(spec_u8_to_scope(m)),
        s.spec_backend_mode(k) is None && s.spec_pool_mode(pool) is Some ==> s.spec_resolve(pool, k)
            == spec_effective(spec_u8_to_scope(s.spec_pool_mode(pool).unwrap())),
        s.spec_backend_mode(k) is None && s.spec_pool_mode(pool) is None ==> s.spec_resolve(pool, k)
            == spec_effective(spec_u8_to_scope(s.spec_global())),
{
}

} // verus!

verus! {

use super::state::{
    Health, HealthCounters, HealthRegistry, BackendHealthState, spec_set_applied, spec_visited, spec_in_first,
    EWMA_UNSET,
};
use super::compiled::{CompiledHealth, CompiledPoolHealth};

/// The address used in scope views where no address applies.
pub open spec fn spec_no_address() -> SockAddr {
    SockAddr { ip: crate::net::IpAddress { v6: false, bits: 0 }, port: 0 }
}

impl View for HealthControlScope {
    /// `(level, pool, address)` with level 0 = global, 1 = pool, 2 = backend.
    type V = (u8, Seq<char>, SockAddr);

    open spec fn view(&self) -> (u8, Seq<char>, SockAddr) {
        match self {
            HealthControlScope::Global => (0, Seq::empty(), spec_no_address()),
            HealthControlScope::Pool { pool } => (1, pool@, spec_no_address()),
            HealthControlScope::Backend { pool, address } => (2, pool@, *address),
        }
    }
}

/// Why a health control request was refused.
#[derive(Debug, Clone)]
pub enum HealthControlError {
    /// The named pool has no compiled health.
    UnknownPool(String),
    /// The backend address is not configured in the pool.
    BackendNotInPool { pool: String, address: SockAddr },
    /// The scope names no backend.
    NoBackendsInScope,
}

/// One backend affected by a health control request.
#[derive(Debug, Clone)]
pub struct HealthControlOutcome {
    pub scope: HealthControlScope,
    pub scope_state: EffectiveScope,
    pub pool: String,
    pub backend: SockAddr,
    pub applied: Health,
}

/// Keys of the backends of pool `name`, in configured order.
pub open spec fn spec_pool_keys(name: Seq<char>, p: CompiledPoolHealth) -> Seq<(Seq<char>, SockAddr)> {
    Seq::new(p.backends.len() as nat, |j: int| (name, p.backends[j].address))
}

/// Keys of the backends of the first `n` pools, pool by pool.
pub open spec fn spec_all_keys(pools: Seq<(String, CompiledPoolHealth)>, n: int) -> Seq<(Seq<char>, SockAddr)>
    decreases n,
{
    if n <= 0 {
        Seq::empty()
    } else {
        spec_all_keys(pools, n - 1) + spec_pool_keys(pools[n - 1].0@, pools[n - 1].1)
    }
}

/// The backends a control request at `scope` affects.
pub open spec fn spec_affected(compiled: CompiledHealth, scope: (u8, Seq<char>, SockAddr)) -> Seq<(Seq<char>, SockAddr)> {
    if scope.0 == 0 {
        spec_all_keys(compiled.pools@, compiled.pools.len() as int)
    } else if scope.0 == 1 {
        spec_pool_keys(scope.1, compiled.spec_pool(scope.1))
    } else {
        seq![(scope.1, scope.2)]
    }
}

/// Whether the request scope names configured pools and backends.
pub open spec fn spec_scope_valid(compiled: CompiledHealth, scope: (u8, Seq<char>, SockAddr)) -> bool {
    if scope.0 == 0 {
        true
    } else if scope.0 == 1 {
        compiled.spec_has_pool(scope.1)
    } else {
        compiled.spec_has_backend(scope.1, scope.2)
    }
}

/// The stored mode an action sets at its scope: a manual set implies freeze.
pub open spec fn spec_action_mode(action: HealthControlAction) -> ScopeMode {
    match action {
        HealthControlAction::ResumeAutomatic => ScopeMode::Automatic,
        _ => ScopeMode::Frozen,
    }
}

/// A backend's counters after a control action, given its scope resolved
/// after the action: set up/down move `applied`; resume snaps `applied :=
/// observed` when the backend resolves to automatic; the frozen flag then
/// follows the resolved scope.
pub open spec fn spec_control_apply(s: HealthCounters, action: HealthControlAction, resolved: EffectiveScope) -> HealthCounters {
    let s1 = match action {
        HealthControlAction::Freeze => s,
        HealthControlAction::SetUp => spec_set_applied(s, Health::Up),
        HealthControlAction::SetDown => spec_set_applied(s, Health::Down),
        HealthControlAction::ResumeAutomatic => if resolved == EffectiveScope::Automatic {
            spec_set_applied(s, s.observed)
        } else {
            s
        },
    };
    HealthCounters { frozen: resolved == EffectiveScope::Frozen, ..s1 }
}

/// The scope reported for one affected backend: the request scope when it
/// names a backend, else that backend.
pub open spec fn spec_scope_for_backend(request: (u8, Seq<char>, SockAddr), pool: Seq<char>, address: SockAddr) -> (u8, Seq<char>, SockAddr) {
    if request.0 == 2 { request } else { (2, pool, address) }
}

pub proof fn lemma_all_keys_contains(pools: Seq<(String, CompiledPoolHealth)>, n: int, k: (Seq<char>, SockAddr))
    requires
        0 <= n <= pools.len(),
    ensures
        spec_all_keys(pools, n).contains(k) <==> exists|i: int, j: int|
            0 <= i < n && 0 <= j < pools[i].1.backends.len() && k == (#[trigger] pools[i].0@, #[trigger] pools[i].1.backends[j].address),
    decreases n,
{
    if n > 0 {
        lemma_all_keys_contains(pools, n - 1, k);
        let a = spec_all_keys(pools, n - 1);
        let b = spec_pool_keys(pools[n - 1].0@, pools[n - 1].1);
        if (a + b).contains(k) {
            let x = choose|x: int| 0 <= x < (a + b).len() && (a + b)[x] == k;
            if x < a.len() {
                assert(a[x] == k);
                assert(a.contains(k));
            } else {
                assert(b[x - a.len()] == k);
                let j = x - a.len();
                assert(k == (pools[n - 1].0@, pools[n - 1].1.backends[j].address));
            }
        }
        if exists|i: int, j: int|
            0 <= i < n && 0 <= j < pools[i].1.backends.len() && k == (#[trigger] pools[i].0@, #[trigger] pools[i].1.backends[j].address) {
            let (i, j) = choose|i: int, j: int|
                0 <= i < n && 0 <= j < pools[i].1.backends.len() && k == (#[trigger] pools[i].0@, #[trigger] pools[i].1.backends[j].address);
            if i < n - 1 {
                let x = choose|x: int| 0 <= x < a.len() && a[x] == k;
                assert((a + b)[x] == k);
            } else {
                assert(b[j] == k);
                assert((a + b)[a.len() + j] == k);
            }
        }
    }
}

pub proof fn lemma_all_keys_no_dup(compiled: CompiledHealth, n: int)
    requires
        compiled.wf(),
        0 <= n <= compiled.pools.len(),
    ensures
        spec_all_keys(compiled.pools@, n).no_duplicates(),
    decreases n,
{
    let pools = compiled.pools@;
    if n > 0 {
        lemma_all_keys_no_dup(compiled, n - 1);
        let a = spec_all_keys(pools, n - 1);
        let b = spec_pool_keys(pools[n - 1].0@, pools[n - 1].1);
        let c = a + b;
        assert forall|x: int, y: int| 0 <= x < c.len() && 0 <= y < c.len() && x != y implies c[x] != c[y] by {
            if x < a.len() && y < a.len() {
            } else if x >= a.len() && y >= a.len() {
                let jx = x - a.len();
                let jy = y - a.len();
                assert(c[x] == b[jx]);
                assert(c[y] == b[jy]);
                if jx < jy {
                    assert(pools[n - 1].1.backends[jx].address != pools[n - 1].1.backends[jy].address);
                } else {
                    assert(pools[n - 1].1.backends[jy].address != pools[n - 1].1.backends[jx].address);
                }
            } else {
                let (xa, yb) = if x < a.len() { (x, y) } else { (y, x) };
                let k = c[xa];
                assert(a[xa] == k);
                assert(a.contains(k));
                lemma_all_keys_contains(pools, n - 1, k);
                let (i, j) = choose|i: int, j: int|
                    0 <= i < n - 1 && 0 <= j < pools[i].1.backends.len() && k == (#[trigger] pools[i].0@, #[trigger] pools[i].1.backends[j].address);
                assert(c[yb] == b[yb - a.len()]);
                assert(pools[i].0@ != pools[n - 1].0@);
            }
        }
    }
}

fn pool_keys(name: &String, p: &CompiledPoolHealth, out: &mut Vec<(String, SockAddr)>)
    ensures
        final(out)@.map_values(|e: (String, SockAddr)| (e.0@, e.1)) == old(out)@.map_values(
            |e: (String, SockAddr)| (e.0@, e.1),
        ) + spec_pool_keys(name@, *p),
{
    let ghost start = old(out)@.map_values(|e: (String, SockAddr)| (e.0@, e.1));
    let mut j: usize = 0;
    while j < p.backends.len()
        invariant
            0 <= j <= p.backends.len(),
            out@.map_values(|e: (String, SockAddr)| (e.0@, e.1)) == start + spec_pool_keys(name@, *p).take(j as int),
        decreases p.backends.len() - j,
    {
        let ghost before = out@;
        out.push((name.clone(), p.backends[j].address));
        proof {
            assert(out@.map_values(|e: (String, SockAddr)| (e.0@, e.1)) =~= before.map_values(
                |e: (String, SockAddr)| (e.0@, e.1),
            ).push((name@, p.backends[j as int].address)));
            assert(spec_pool_keys(name@, *p).take(j + 1) == spec_pool_keys(name@, *p).take(j as int).push(
                (name@, p.backends[j as int].address),
            ));
            assert(out@.map_values(|e: (String, SockAddr)| (e.0@, e.1)) == start + spec_pool_keys(name@, *p).take(
                j + 1,
            ));
        }
        j += 1;
    }
    proof {
        assert(spec_pool_keys(name@, *p).take(p.backends.len() as int) == spec_pool_keys(name@, *p));
    }
}

/// The request scope as reported for one affected backend.
fn scope_for_backend(request: &HealthControlScope, pool: &String, address: SockAddr) -> (r: HealthControlScope)
    ensures
        r@ == spec_scope_for_backend(request@, pool@, address),
{
    match request {
        HealthControlScope::Global | HealthControlScope::Pool { .. } => {
            HealthControlScope::Backend { pool: pool.clone(), address }
        },
        HealthControlScope::Backend { pool: p, address: a } => {
            HealthControlScope::Backend { pool: p.clone(), address: *a }
        },
    }
}

impl HealthRegistry {
    /// The effective scope of one backend.
    pub fn resolve_scope(&self, pool: &str, address: SockAddr) -> (r: EffectiveScope)
        requires
            self.wf(),
        ensures
            r == self.spec_scopes().spec_resolve(pool@, (pool@, address)),
    {
        let name = pool.to_owned();
        let key = BackendKey::new(name.clone(), address);
        self.scopes().resolve(&name, &key)
    }

    /// Whether probe-driven transitions may not move `applied` for this backend.
    pub fn is_effectively_frozen(&self, pool: &str, address: SockAddr) -> (r: bool)
        requires
            self.wf(),
        ensures
            r == (self.spec_scopes().spec_resolve(pool@, (pool@, address)) == EffectiveScope::Frozen),
    {
        self.resolve_scope(pool, address) == EffectiveScope::Frozen
    }

    /// Sync each configured backend's frozen flag with its resolved scope.
    pub fn sync_frozen_flags(&mut self, compiled: &CompiledHealth)
        requires
            old(self).wf(),
            compiled.wf(),
        ensures
            final(self).wf(),
            final(self).spec_scopes() == old(self).spec_scopes(),
            final(self).size() == old(self).size(),
            forall|p: Seq<char>, a: SockAddr| #[trigger] final(self).entry(p, a) == if compiled.spec_has_backend(p, a)
                && old(self).entry(p, a) is Some {
                Some(
                    old(self).entry(p, a).unwrap().spec_with_frozen(
                        old(self).spec_scopes().spec_resolve(p, (p, a)) == EffectiveScope::Frozen,
                    ),
                )
            } else {
                old(self).entry(p, a)
            },
    {
        let ghost start = *self;
        let mut i: usize = 0;
        while i < compiled.pools.len()
            invariant
                compiled.wf(),
                self.wf(),
                self.spec_scopes() == start.spec_scopes(),
                self.size() == start.size(),
                0 <= i <= compiled.pools.len(),
                forall|p: Seq<char>, a: SockAddr| #[trigger] self.entry(p, a) == if spec_visited(*compiled, i as int, 0, (p, a))
                    && start.entry(p, a) is Some {
                    Some(
                        start.entry(p, a).unwrap().spec_with_frozen(
                            start.spec_scopes().spec_resolve(p, (p, a)) == EffectiveScope::Frozen,
                        ),
                    )
                } else {
                    start.entry(p, a)
                },
            decreases compiled.pools.len() - i,
        {
            let pool_name = &compiled.pools[i].0;
            let pool = &compiled.pools[i].1;
            proof {
                compiled.lemma_pool_at(i as int);
            }
            let mut j: usize = 0;
            while j < pool.backends.len()
                invariant
                    compiled.wf(),
                    self.wf(),
                    self.spec_scopes() == start.spec_scopes(),
                    self.size() == start.size(),
                    0 <= i < compiled.pools.len(),
                    *pool_name == compiled.pools[i as int].0,
                    *pool == compiled.pools[i as int].1,
                    0 <= j <= pool.backends.len(),
                    forall|p: Seq<char>, a: SockAddr| #[trigger] self.entry(p, a) == if spec_visited(*compiled, i as int, j as int, (p, a))
                        && start.entry(p, a) is Some {
                        Some(
                            start.entry(p, a).unwrap().spec_with_frozen(
                                start.spec_scopes().spec_resolve(p, (p, a)) == EffectiveScope::Frozen,
                            ),
                        )
                    } else {
                        start.entry(p, a)
                    },
                decreases pool.backends.len() - j,
            {
                let address = pool.backends[j].address;
                let ghost kv = (pool_name@, address);
                proof {
                    compiled.lemma_backend_at(i as int, j as int);
                }
                let ghost visited_before = spec_visited(*compiled, i as int, j as int, kv);
                proof {
                    if visited_before {
                        if !(exists|i2: int|
                            0 <= i2 < i && i2 < compiled.pools.len() && #[trigger] compiled.pools[i2].0@ == kv.0 && spec_in_first(
                                compiled.pools[i2].1,
                                compiled.pools[i2].1.backends.len() as int,
                                kv.1,
                            )) {
                            let jj = choose|jj: int|
                                0 <= jj < j && jj < pool.backends.len() && #[trigger] pool.backends[jj].address == address;
                            assert(pool.backends[jj].address != pool.backends[j as int].address);
                        } else {
                            let i2 = choose|i2: int|
                                0 <= i2 < i && i2 < compiled.pools.len() && #[trigger] compiled.pools[i2].0@ == kv.0 && spec_in_first(
                                    compiled.pools[i2].1,
                                    compiled.pools[i2].1.backends.len() as int,
                                    kv.1,
                                );
                            assert(compiled.pools[i2].0@ != compiled.pools[i as int].0@);
                        }
                    }
                }
                match self.get(pool_name.as_str(), address) {
                    Some(state) => {
                        let frozen = self.is_effectively_frozen(pool_name.as_str(), address);
                        let mut st = state;
                        st.set_frozen_flag(frozen);
                        let _ = self.put(pool_name.as_str(), address, st);
                    },
                    None => {},
                }
                proof {
                    assert forall|p: Seq<char>, a: SockAddr| #[trigger]
                        spec_visited(*compiled, i as int, j + 1, (p, a)) == (spec_visited(
                            *compiled,
                            i as int,
                            j as int,
                            (p, a),
                        ) || (p, a) == kv) by {
                        if (p, a) == kv {
                            assert(pool.backends[j as int].address == a);
                            assert(spec_in_first(*pool, j + 1, a));
                        }
                        if spec_in_first(*pool, j + 1, a) && !spec_in_first(*pool, j as int, a) {
                            let jj = choose|jj: int|
                                0 <= jj < j + 1 && jj < pool.backends.len() && #[trigger] pool.backends[jj].address == a;
                            assert(jj == j);
                        }
                        if spec_visited(*compiled, i as int, j + 1, (p, a)) && !spec_visited(*compiled, i as int, j as int, (p, a)) {
                            if !(exists|i2: int|
                                0 <= i2 < i && i2 < compiled.pools.len() && #[trigger] compiled.pools[i2].0@ == p && spec_in_first(
                                    compiled.pools[i2].1,
                                    compiled.pools[i2].1.backends.len() as int,
                                    a,
                                )) {
                                assert(compiled.pools[i as int].0@ == p);
                                assert(spec_in_first(compiled.pools[i as int].1, j + 1, a));
                            }
                        }
                    }
                }
                j += 1;
            }
            proof {
                assert forall|p: Seq<char>, a: SockAddr| #[trigger]
                    spec_visited(*compiled, i + 1, 0, (p, a)) == spec_visited(
                        *compiled,
                        i as int,
                        pool.backends.len() as int,
                        (p, a),
                    ) by {
                    if spec_visited(*compiled, i + 1, 0, (p, a)) {
                        if exists|i2: int|
                            0 <= i2 < i + 1 && i2 < compiled.pools.len() && #[trigger] compiled.pools[i2].0@ == p && spec_in_first(
                                compiled.pools[i2].1,
                                compiled.pools[i2].1.backends.len() as int,
                                a,
                            ) {
                            let i2 = choose|i2: int|
                                0 <= i2 < i + 1 && i2 < compiled.pools.len() && #[trigger] compiled.pools[i2].0@ == p && spec_in_first(
                                    compiled.pools[i2].1,
                                    compiled.pools[i2].1.backends.len() as int,
                                    a,
                                );
                            if i2 < i {
                            } else {
                                assert(i2 == i);
                            }
                        } else {
                            let jj = choose|jj: int| 0 <= jj < 0 && jj < compiled.pools[i + 1].1.backends.len() && #[trigger] compiled.pools[i + 1].1.backends[jj].address == a;
                        }
                    }
                    if spec_visited(*compiled, i as int, pool.backends.len() as int, (p, a)) {
                        if !(exists|i2: int|
                            0 <= i2 < i && i2 < compiled.pools.len() && #[trigger] compiled.pools[i2].0@ == p && spec_in_first(
                                compiled.pools[i2].1,
                                compiled.pools[i2].1.backends.len() as int,
                                a,
                            )) {
                            assert(compiled.pools[i as int].0@ == p);
                        }
                    }
                }
            }
            i += 1;
        }
        proof {
            assert forall|p: Seq<char>, a: SockAddr| #[trigger] spec_visited(*compiled, compiled.pools.len() as int, 0, (p, a))
                == compiled.spec_has_backend(p, a) by {
                super::state::lemma_visited_all(*compiled, (p, a));
            }
        }
    }
}


fn validate_scope(compiled: &CompiledHealth, scope: &HealthControlScope) -> (r: Result<(), HealthControlError>)
    requires
        compiled.wf(),
    ensures
        r is Ok <==> spec_scope_valid(*compiled, scope@),
        r matches Err(e) ==> match e {
            HealthControlError::UnknownPool(p) => scope@.0 != 0 && p@ == scope@.1 && !compiled.spec_has_pool(scope@.1),
            HealthControlError::BackendNotInPool { pool, address } => scope@.0 == 2 && pool@ == scope@.1
                && address == scope@.2 && compiled.spec_has_pool(scope@.1),
            HealthControlError::NoBackendsInScope => false,
        },
{
    match scope {
        HealthControlScope::Global => Ok(()),
        HealthControlScope::Pool { pool } => {
            if compiled.pool(pool.as_str()).is_some() {
                Ok(())
            } else {
                Err(HealthControlError::UnknownPool(pool.clone()))
            }
        },
        HealthControlScope::Backend { pool, address } => {
            if compiled.pool(pool.as_str()).is_none() {
                return Err(HealthControlError::UnknownPool(pool.clone()));
            }
            if compiled.backend(pool.as_str(), *address).is_some() {
                Ok(())
            } else {
                Err(HealthControlError::BackendNotInPool { pool: pool.clone(), address: *address })
            }
        },
    }
}

fn backends_in_scope(compiled: &CompiledHealth, scope: &HealthControlScope) -> (r: Vec<(String, SockAddr)>)
    requires
        compiled.wf(),
        spec_scope_valid(*compiled, scope@),
    ensures
        r@.map_values(|e: (String, SockAddr)| (e.0@, e.1)) == spec_affected(*compiled, scope@),
{
    let mut out: Vec<(String, SockAddr)> = Vec::new();
    match scope {
        HealthControlScope::Global => {
            let mut i: usize = 0;
            while i < compiled.pools.len()
                invariant
                    0 <= i <= compiled.pools.len(),
                    out@.map_values(|e: (String, SockAddr)| (e.0@, e.1)) == spec_all_keys(compiled.pools@, i as int),
                decreases compiled.pools.len() - i,
            {
                pool_keys(&compiled.pools[i].0, &compiled.pools[i].1, &mut out);
                i += 1;
            }
        },
        HealthControlScope::Pool { pool } => {
            match compiled.pool(pool.as_str()) {
                Some(p) => {
                    pool_keys(pool, p, &mut out);
                    proof {
                        assert(out@.map_values(|e: (String, SockAddr)| (e.0@, e.1)) =~= spec_pool_keys(pool@, *p));
                    }
                },
                None => {},
            }
        },
        HealthControlScope::Backend { pool, address } => {
            out.push((pool.clone(), *address));
            proof {
                assert(out@.map_values(|e: (String, SockAddr)| (e.0@, e.1)) =~= seq![(pool@, *address)]);
            }
        },
    }
    out
}

/// The affected backends of a valid scope are distinct.
pub proof fn lemma_affected_no_dup(compiled: CompiledHealth, scope: (u8, Seq<char>, SockAddr))
    requires
        compiled.wf(),
        spec_scope_valid(compiled, scope),
    ensures
        spec_affected(compiled, scope).no_duplicates(),
{
    if scope.0 == 0 {
        lemma_all_keys_no_dup(compiled, compiled.pools.len() as int);
    } else if scope.0 == 1 {
        let p = compiled.spec_pool(scope.1);
        let ks = spec_pool_keys(scope.1, p);
        let i = compiled.spec_pool_index(scope.1);
        assert forall|x: int, y: int| 0 <= x < ks.len() && 0 <= y < ks.len() && x != y implies ks[x] != ks[y] by {
            if x < y {
                assert(compiled.pools[i].1.backends[x].address != compiled.pools[i].1.backends[y].address);
            } else {
                assert(compiled.pools[i].1.backends[y].address != compiled.pools[i].1.backends[x].address);
            }
        }
    }
}

impl HealthRegistry {
    /// Apply an operator control action at a scope. The scope must name a
    /// configured pool or backend, and must cover at least one backend. The
    /// action stores a mode at the scope (freeze, set up and set down store
    /// frozen: a manual set implies freeze; resume stores automatic); then
    /// every affected backend with a state gets the action (set up/down move
    /// `applied`, resume snaps `applied := observed` where the backend now
    /// resolves to automatic) and its frozen flag is synced with its resolved
    /// scope. Returns one outcome per such backend, in scope order.
    pub fn set_health_control(
        &mut self,
        compiled: &CompiledHealth,
        scope: HealthControlScope,
        action: HealthControlAction,
    ) -> (r: Result<Vec<HealthControlOutcome>, HealthControlError>)
        requires
            old(self).wf(),
            compiled.wf(),
        ensures
            final(self).wf(),
            final(self).size() == old(self).size(),
            !spec_scope_valid(*compiled, scope@) ==> (r matches Err(e) && !(e is NoBackendsInScope) && *final(self) == *old(self)),
            spec_scope_valid(*compiled, scope@) && spec_affected(*compiled, scope@).len() == 0 ==> (r matches Err(
                HealthControlError::NoBackendsInScope,
            ) && *final(self) == *old(self)),
            spec_scope_valid(*compiled, scope@) && spec_affected(*compiled, scope@).len() > 0 ==> {
                let aff = spec_affected(*compiled, scope@);
                let sc = final(self).spec_scopes();
                let present = aff.filter(|k: (Seq<char>, SockAddr)| old(self).entry(k.0, k.1) is Some);
                &&& sc.spec_set_level_post(old(self).spec_scopes(), scope, spec_action_mode(action))
                &&& forall|p: Seq<char>, a: SockAddr| #![trigger final(self).entry(p, a)]
                    aff.contains((p, a)) && old(self).entry(p, a) is Some ==> {
                        final(self).entry(p, a) matches Some(s2) && {
                            let s = old(self).entry(p, a).unwrap();
                            &&& s2@ == spec_control_apply(s@, action, sc.spec_resolve(p, (p, a)))
                            &&& s2.spec_latency_bits() == s.spec_latency_bits()
                            &&& s2.spec_weight_bits() == s.spec_weight_bits()
                        }
                    }
                &&& forall|p: Seq<char>, a: SockAddr| #![trigger final(self).entry(p, a)]
                    !(aff.contains((p, a)) && old(self).entry(p, a) is Some) ==> final(self).entry(p, a)
                        == old(self).entry(p, a)
                &&& r matches Ok(outs) && outs@.len() == present.len() && forall|i: int| #![trigger outs@[i]] 0 <= i < outs@.len() ==> {
                    let k = present[i];
                    &&& outs@[i].pool@ == k.0
                    &&& outs@[i].backend == k.1
                    &&& outs@[i].scope@ == spec_scope_for_backend(scope@, k.0, k.1)
                    &&& outs@[i].scope_state == sc.spec_resolve(k.0, k)
                    &&& final(self).entry(k.0, k.1) matches Some(s2) && outs@[i].applied == s2@.applied
                }
            },
    {
        let now_unix_ms: u64 = super::state::unix_time_millis();
        validate_scope(compiled, &scope)?;
        let affected = backends_in_scope(compiled, &scope);
        if affected.len() == 0 {
            proof {
                assert(affected@.map_values(|e: (String, SockAddr)| (e.0@, e.1)).len() == 0);
            }
            return Err(HealthControlError::NoBackendsInScope);
        }
        let mode = match action {
            HealthControlAction::Freeze => ScopeMode::Frozen,
            HealthControlAction::ResumeAutomatic => ScopeMode::Automatic,
            HealthControlAction::SetUp | HealthControlAction::SetDown => ScopeMode::Frozen,
        };
        self.set_scope_level(&scope, mode);
        let ghost start = *old(self);
        let ghost mid = *self;
        let ghost aff = spec_affected(*compiled, scope@);
        let ghost pred = |k: (Seq<char>, SockAddr)| start.entry(k.0, k.1) is Some;
        proof {
            lemma_affected_no_dup(*compiled, scope@);
        }
        let mut outcomes: Vec<HealthControlOutcome> = Vec::new();
        let mut idx: usize = 0;
        while idx < affected.len()
            invariant
                self.wf(),
                compiled.wf(),
                self.size() == start.size(),
                self.spec_scopes() == mid.spec_scopes(),
                affected@.map_values(|e: (String, SockAddr)| (e.0@, e.1)) == aff,
                aff.no_duplicates(),
                aff.len() == affected@.len(),
                pred == (|k: (Seq<char>, SockAddr)| start.entry(k.0, k.1) is Some),
                0 <= idx <= affected@.len(),
                forall|p: Seq<char>, a: SockAddr| #![trigger self.entry(p, a)]
                    aff.take(idx as int).contains((p, a)) && start.entry(p, a) is Some ==> {
                        self.entry(p, a) matches Some(s2) && {
                            let s = start.entry(p, a).unwrap();
                            &&& s2@ == spec_control_apply(s@, action, mid.spec_scopes().spec_resolve(p, (p, a)))
                            &&& s2.spec_latency_bits() == s.spec_latency_bits()
                            &&& s2.spec_weight_bits() == s.spec_weight_bits()
                        }
                    },
                forall|p: Seq<char>, a: SockAddr| #![trigger self.entry(p, a)]
                    !(aff.take(idx as int).contains((p, a)) && start.entry(p, a) is Some) ==> self.entry(p, a)
                        == start.entry(p, a),
                outcomes@.len() == aff.take(idx as int).filter(pred).len(),
                forall|i: int| #![trigger outcomes@[i]] 0 <= i < outcomes@.len() ==> {
                    let k = aff.take(idx as int).filter(pred)[i];
                    &&& outcomes@[i].pool@ == k.0
                    &&& outcomes@[i].backend == k.1
                    &&& outcomes@[i].scope@ == spec_scope_for_backend(scope@, k.0, k.1)
                    &&& outcomes@[i].scope_state == mid.spec_scopes().spec_resolve(k.0, k)
                    &&& self.entry(k.0, k.1) matches Some(s2) && outcomes@[i].applied == s2@.applied
                },
            decreases affected@.len() - idx,
        {
            let pool = &affected[idx].0;
            let address = affected[idx].1;
            let ghost k = (pool@, address);
            proof {
                assert(aff[idx as int] == k);
                assert(aff.take(idx + 1) =~= aff.take(idx as int).push(k));
                assert(aff.take(idx + 1).drop_last() =~= aff.take(idx as int));
                if aff.take(idx as int).contains(k) {
                    let x = choose|x: int| 0 <= x < idx && aff.take(idx as int)[x] == k;
                    assert(aff[x] == aff[idx as int]);
                }
                assert(!aff.take(idx as int).contains(k));
                assert(self.entry(pool@, address) == start.entry(pool@, address));
                aff.take(idx as int).lemma_filter_push(k, pred);
            }
            match self.get(pool.as_str(), address) {
                Some(state) => {
                    proof {
                        assert(start.entry(pool@, address) is Some);
                    }
                    let mut st = state;
                    match action {
                        HealthControlAction::Freeze => {},
                        HealthControlAction::SetUp => st.set_applied_only(Health::Up, now_unix_ms),
                        HealthControlAction::SetDown => st.set_applied_only(Health::Down, now_unix_ms),
                        HealthControlAction::ResumeAutomatic => {
                            if self.resolve_scope(pool.as_str(), address) == EffectiveScope::Automatic {
                                st.snap_applied_to_observed(now_unix_ms);
                            }
                        },
                    }
                    let frozen = self.is_effectively_frozen(pool.as_str(), address);
                    st.set_frozen_flag(frozen);
                    proof {
                        st.lemma_with_frozen(frozen);
                    }
                    let ghost before = *self;
                    let _ = self.put(pool.as_str(), address, st);
                    let scope_state = self.resolve_scope(pool.as_str(), address);
                    let applied = st.applied();
                    let out_scope = scope_for_backend(&scope, pool, address);
                    let ghost prev_outs = outcomes@;
                    outcomes.push(HealthControlOutcome {
                        scope: out_scope,
                        scope_state,
                        pool: pool.clone(),
                        backend: address,
                        applied,
                    });
                    proof {
                        assert(pred(k));
                        assert(aff.take(idx + 1).filter(pred) == aff.take(idx as int).filter(pred).push(k));
                        assert forall|i: int| #![trigger outcomes@[i]] 0 <= i < outcomes@.len() implies {
                            let kk = aff.take(idx + 1).filter(pred)[i];
                            &&& outcomes@[i].pool@ == kk.0
                            &&& outcomes@[i].backend == kk.1
                            &&& outcomes@[i].scope@ == spec_scope_for_backend(scope@, kk.0, kk.1)
                            &&& outcomes@[i].scope_state == mid.spec_scopes().spec_resolve(kk.0, kk)
                            &&& self.entry(kk.0, kk.1) matches Some(s2) && outcomes@[i].applied == s2@.applied
                        } by {
                            if i < prev_outs.len() {
                                let kk = aff.take(idx as int).filter(pred)[i];
                                assert(outcomes@[i] == prev_outs[i]);
                                assert(aff.take(idx as int).filter(pred).contains(kk));
                                aff.take(idx as int).lemma_filter_contains_rev(pred, kk);
                                assert(aff.take(idx as int).contains(kk));
                                let x = choose|x: int| 0 <= x < idx && aff.take(idx as int)[x] == kk;
                                assert(aff.take(idx + 1)[x] == kk);
                                assert(kk != k);
                                assert(self.entry(kk.0, kk.1) == before.entry(kk.0, kk.1));
                            } else {
                                assert(aff.take(idx + 1)[idx as int] == k);
                            }
                        }
                    }
                },
                None => {
                    proof {
                        assert(!pred(k));
                        assert(aff.take(idx + 1).filter(pred) == aff.take(idx as int).filter(pred));
                    }
                },
            }
            proof {
                assert forall|x: (Seq<char>, SockAddr)| aff.take(idx + 1).contains(x) <==> (aff.take(idx as int).contains(x)
                    || x == k) by {
                    if aff.take(idx + 1).contains(x) {
                        let y = choose|y: int| 0 <= y < aff.take(idx + 1).len() && #[trigger] aff.take(idx + 1)[y] == x;
                        if y < idx {
                            assert(aff.take(idx as int)[y] == x);
                        }
                    }
                    if aff.take(idx as int).contains(x) {
                        let y = choose|y: int| 0 <= y < aff.take(idx as int).len() && #[trigger] aff.take(idx as int)[y] == x;
                        assert(aff.take(idx + 1)[y] == x);
                    }
                    if x == k {
                        assert(aff.take(idx + 1)[idx as int] == x);
                    }
                }
            }
            idx += 1;
        }
        proof {
            assert(aff.take(affected@.len() as int) =~= aff);
        }
        Ok(outcomes)
    }
}

/// Which backends a health listing shows: those of the named pool and with
/// the given address, when set.
#[derive(Debug, Clone)]
pub struct BackendHealthFilter {
    pub pool: Option<String>,
    pub backend: Option<SockAddr>,
}

/// One row of a health listing.
#[derive(Debug, Clone)]
pub struct BackendHealthView {
    pub pool: String,
    pub backend: SockAddr,
    pub observed: Health,
    pub applied: Health,
    pub scope_state: EffectiveScope,
    pub eligible: bool,
    /// The latency EWMA in milliseconds, as `f64` bits; `None` before the
    /// first sample.
    pub latency_ewma_ms_bits: Option<u64>,
    pub last_transition_unix_ms: Option<u64>,
}

/// A listing row with its pool name as characters.
pub struct HealthRowView {
    pub pool: Seq<char>,
    pub backend: SockAddr,
    pub observed: Health,
    pub applied: Health,
    pub scope_state: EffectiveScope,
    pub eligible: bool,
    pub latency_ewma_ms_bits: Option<u64>,
    pub last_transition_unix_ms: Option<u64>,
}

impl View for BackendHealthView {
    type V = HealthRowView;

    open spec fn view(&self) -> HealthRowView {
        HealthRowView {
            pool: self.pool@,
            backend: self.backend,
            observed: self.observed,
            applied: self.applied,
            scope_state: self.scope_state,
            eligible: self.eligible,
            latency_ewma_ms_bits: self.latency_ewma_ms_bits,
            last_transition_unix_ms: self.last_transition_unix_ms,
        }
    }
}

/// The row of backend `(pool, address)` with health state `s`.
pub open spec fn spec_health_row(pool: Seq<char>, address: SockAddr, s: BackendHealthState, scopes: HealthControlScopes) -> HealthRowView {
    HealthRowView {
        pool,
        backend: address,
        observed: s@.observed,
        applied: s@.applied,
        scope_state: scopes.spec_resolve(pool, (pool, address)),
        eligible: s@.applied == Health::Up,
        latency_ewma_ms_bits: if s.spec_latency_bits() == EWMA_UNSET { None } else { Some(s.spec_latency_bits()) },
        last_transition_unix_ms: if s.spec_last_transition() == 0 { None } else { Some(s.spec_last_transition()) },
    }
}

/// Rows for the first `n` backends of pool `name`: each backend that passes
/// the address filter and has a health state, in configured order.
pub open spec fn spec_pool_rows(
    name: Seq<char>,
    p: CompiledPoolHealth,
    reg: HealthRegistry,
    want_addr: Option<SockAddr>,
    n: int,
) -> Seq<HealthRowView>
    decreases n,
{
    if n <= 0 {
        Seq::empty()
    } else {
        let prev = spec_pool_rows(name, p, reg, want_addr, n - 1);
        let a = p.backends[n - 1].address;
        if want_addr matches Some(w) && w != a {
            prev
        } else {
            match reg.entry(name, a) {
                None => prev,
                Some(s) => prev.push(spec_health_row(name, a, s, reg.spec_scopes())),
            }
        }
    }
}

/// Rows for the first `n` pools that pass the pool filter, pool after pool.
pub open spec fn spec_health_rows(
    h: CompiledHealth,
    reg: HealthRegistry,
    want_pool: Option<Seq<char>>,
    want_addr: Option<SockAddr>,
    n: int,
) -> Seq<HealthRowView>
    decreases n,
{
    if n <= 0 {
        Seq::empty()
    } else {
        let prev = spec_health_rows(h, reg, want_pool, want_addr, n - 1);
        let name = h.pools[n - 1].0@;
        if want_pool matches Some(w) && w != name {
            prev
        } else {
            prev + spec_pool_rows(name, h.pools[n - 1].1, reg, want_addr, h.pools[n - 1].1.backends.len() as int)
        }
    }
}

/// The pool name a filter asks for.
pub open spec fn spec_filter_pool(f: BackendHealthFilter) -> Option<Seq<char>> {
    match f.pool {
        Some(n) => Some(n@),
        None => None,
    }
}

pub open spec fn spec_row_views(rows: Seq<BackendHealthView>) -> Seq<HealthRowView> {
    rows.map_values(|v: BackendHealthView| v@)
}

impl HealthRegistry {
    /// List backend health rows, after syncing every configured backend's
    /// frozen flag with its resolved scope.
    pub fn backend_health_views(&mut self, compiled: &CompiledHealth, filter: &BackendHealthFilter) -> (r: Vec<BackendHealthView>)
        requires
            old(self).wf(),
            compiled.wf(),
        ensures
            final(self).wf(),
            final(self).spec_scopes() == old(self).spec_scopes(),
            final(self).size() == old(self).size(),
            forall|p: Seq<char>, a: SockAddr| #[trigger] final(self).entry(p, a) == if compiled.spec_has_backend(p, a)
                && old(self).entry(p, a) is Some {
                Some(
                    old(self).entry(p, a).unwrap().spec_with_frozen(
                        old(self).spec_scopes().spec_resolve(p, (p, a)) == EffectiveScope::Frozen,
                    ),
                )
            } else {
                old(self).entry(p, a)
            },
            spec_row_views(r@) == spec_health_rows(
                *compiled,
                *final(self),
                spec_filter_pool(*filter),
                filter.backend,
                compiled.pools.len() as int,
            ),
    {
        self.sync_frozen_flags(compiled);
        let ghost want_pool = spec_filter_pool(*filter);
        let mut rows: Vec<BackendHealthView> = Vec::new();
        let mut i: usize = 0;
        while i < compiled.pools.len()
            invariant
                self.wf(),
                0 <= i <= compiled.pools.len(),
                want_pool == spec_filter_pool(*filter),
                spec_row_views(rows@) == spec_health_rows(*compiled, *self, want_pool, filter.backend, i as int),
            decreases compiled.pools.len() - i,
        {
            let pool_name = &compiled.pools[i].0;
            let pool = &compiled.pools[i].1;
            let skip = match &filter.pool {
                Some(w) => !crate::text::str_eq(w.as_str(), pool_name.as_str()),
                None => false,
            };
            if !skip {
                let ghost base = rows@;
                let mut j: usize = 0;
                while j < pool.backends.len()
                    invariant
                        self.wf(),
                        0 <= i < compiled.pools.len(),
                        *pool_name == compiled.pools[i as int].0,
                        *pool == compiled.pools[i as int].1,
                        0 <= j <= pool.backends.len(),
                        spec_row_views(base) == spec_health_rows(*compiled, *self, want_pool, filter.backend, i as int),
                        spec_row_views(rows@) == spec_row_views(base) + spec_pool_rows(
                            pool_name@,
                            *pool,
                            *self,
                            filter.backend,
                            j as int,
                        ),
                    decreases pool.backends.len() - j,
                {
                    let address = pool.backends[j].address;
                    let keep = match filter.backend {
                        Some(w) => w == address,
                        None => true,
                    };
                    if keep {
                        match self.get(pool_name.as_str(), address) {
                            Some(state) => {
                                let observed = state.observed();
                                let applied = state.applied();
                                let row = BackendHealthView {
                                    pool: pool_name.clone(),
                                    backend: address,
                                    observed,
                                    applied,
                                    scope_state: self.resolve_scope(pool_name.as_str(), address),
                                    eligible: applied == Health::Up,
                                    latency_ewma_ms_bits: state.latency_ewma_ms_bits(),
                                    last_transition_unix_ms: state.last_transition_unix_ms(),
                                };
                                let ghost before = rows@;
                                rows.push(row);
                                proof {
                                    assert(spec_row_views(rows@) =~= spec_row_views(before).push(row@));
                                    assert(row@ == spec_health_row(pool_name@, address, state, self.spec_scopes()));
                                    assert(spec_row_views(base) + spec_pool_rows(pool_name@, *pool, *self, filter.backend, j as int + 1)
                                        =~= (spec_row_views(base) + spec_pool_rows(pool_name@, *pool, *self, filter.backend, j as int)).push(row@));
                                }
                            },
                            None => {},
                        }
                    }
                    j = j + 1;
                }
                proof {
                    assert(spec_health_rows(*compiled, *self, want_pool, filter.backend, i as int + 1)
                        == spec_health_rows(*compiled, *self, want_pool, filter.backend, i as int) + spec_pool_rows(
                            pool_name@,
                            *pool,
                            *self,
                            filter.backend,
                            pool.backends.len() as int,
                        ));
                }
            }
            i = i + 1;
        }
        rows
    }
}

/// What a listing row satisfies: it passes both filters, and it is
/// eligible exactly when its applied verdict is up.
pub open spec fn spec_row_ok(row: HealthRowView, want_pool: Option<Seq<char>>, want_addr: Option<SockAddr>) -> bool {
    &&& (want_pool matches Some(w) ==> row.pool == w)
    &&& (want_addr matches Some(a) ==> row.backend == a)
    &&& row.eligible == (row.applied == Health::Up)
}

proof fn lemma_pool_rows_ok(name: Seq<char>, p: CompiledPoolHealth, reg: HealthRegistry, want_pool: Option<Seq<char>>, want_addr: Option<SockAddr>, n: int)
    requires
        want_pool matches Some(w) ==> w == name,
    ensures
        forall|k: int| 0 <= k < spec_pool_rows(name, p, reg, want_addr, n).len()
            ==> spec_row_ok(#[trigger] spec_pool_rows(name, p, reg, want_addr, n)[k], want_pool, want_addr),
    decreases n,
{
    if n > 0 {
        lemma_pool_rows_ok(name, p, reg, want_pool, want_addr, n - 1);
        let prev = spec_pool_rows(name, p, reg, want_addr, n - 1);
        let a = p.backends[n - 1].address;
        if !(want_addr matches Some(w) && w != a) {
            if let Some(st) = reg.entry(name, a) {
                let row = spec_health_row(name, a, st, reg.spec_scopes());
                assert forall|k: int| 0 <= k < prev.push(row).len() implies spec_row_ok(#[trigger] prev.push(row)[k], want_pool, want_addr) by {
                    if k < prev.len() {
                        assert(prev.push(row)[k] == prev[k]);
                    }
                }
            }
        }
    }
}

/// A filtered health listing shows only backends of the asked-for pool and
/// address, and marks a row eligible exactly when its applied verdict is up.
pub proof fn lemma_listing_matches_filter(
    h: CompiledHealth,
    reg: HealthRegistry,
    want_pool: Option<Seq<char>>,
    want_addr: Option<SockAddr>,
    n: int,
)
    ensures
        forall|k: int| 0 <= k < spec_health_rows(h, reg, want_pool, want_addr, n).len()
            ==> spec_row_ok(#[trigger] spec_health_rows(h, reg, want_pool, want_addr, n)[k], want_pool, want_addr),
    decreases n,
{
    if n > 0 {
        lemma_listing_matches_filter(h, reg, want_pool, want_addr, n - 1);
        let name = h.pools[n - 1].0@;
        if !(want_pool matches Some(w) && w != name) {
            let pool = h.pools[n - 1].1;
            lemma_pool_rows_ok(name, pool, reg, want_pool, want_addr, pool.backends.len() as int);
            let prev = spec_health_rows(h, reg, want_pool, want_addr, n - 1);
            let more = spec_pool_rows(name, pool, reg, want_addr, pool.backends.len() as int);
            assert forall|k: int| 0 <= k < (prev + more).len() implies spec_row_ok(#[trigger] (prev + more)[k], want_pool, want_addr) by {
                if k < prev.len() {
                    assert((prev + more)[k] == prev[k]);
                } else {
                    assert((prev + more)[k] == more[k - prev.len()]);
                }
            }
            assert(spec_health_rows(h, reg, want_pool, want_addr, n) == prev + more);
        } else {
            assert(spec_health_rows(h, reg, want_pool, want_addr, n) == spec_health_rows(h, reg, want_pool, want_addr, n - 1));
        }
    }
}

} // verus!
