//! Compiled probe configuration for backend health: per pool, the probe
//! thresholds and policies, and per backend, its address and probe question.

use vstd::prelude::*;
use crate::net::{IpAddress, SockAddr};
use super::state::InitialHealthState;

verus! {

/// One backend's compiled probe settings.
#[derive(Debug, Clone)]
pub struct CompiledBackendHealth {
    pub address: SockAddr,
    pub name: Option<String>,
    pub label: String,
    pub probe_qname: String,
    pub probe_qtype: u16,
    pub probe_source: Option<IpAddress>,
}

/// What a probe asks: its question name, type and source address. A change of
/// any of these means an old verdict no longer describes the new probe.
pub open spec fn spec_probe_semantics(b: CompiledBackendHealth) -> (Seq<char>, u16, Option<IpAddress>) {
    (b.probe_qname@, b.probe_qtype, b.probe_source)
}

/// One pool's compiled health policy.
#[derive(Debug, Clone)]
pub struct CompiledPoolHealth {
    pub interval_ms: u64,
    pub timeout_ms: u64,
    pub rise: u32,
    pub fall: u32,
    /// `None` = any well-formed reply counts as alive.
    pub acceptable_rcodes: Option<Vec<u16>>,
    pub initial_state: InitialHealthState,
    pub latency_weighting: bool,
    /// EWMA smoothing factor, as `f64` bits.
    pub latency_ewma_alpha_bits: u64,
    /// Lowest latency weight factor, as `f64` bits.
    pub latency_floor_bits: u64,
    pub min_eligible: u32,
    pub passive_fast_trip: bool,
    pub passive_fall: u32,
    pub backends: Vec<CompiledBackendHealth>,
}

/// Compiled health for every pool that has probes configured, keyed by pool name.
#[derive(Debug, Clone)]
pub struct CompiledHealth {
    pub pools: Vec<(String, CompiledPoolHealth)>,
}

impl CompiledHealth {
    /// Pool names are unique, and so are backend addresses within a pool.
    pub open spec fn wf(&self) -> bool {
        &&& forall|i: int, j: int|
            0 <= i < j < self.pools.len() ==> #[trigger] self.pools[i].0@ != #[trigger] self.pools[j].0@
        &&& forall|i: int, a: int, b: int|
            0 <= i < self.pools.len() && 0 <= a < b < self.pools[i].1.backends.len()
                ==> #[trigger] self.pools[i].1.backends[a].address != #[trigger] self.pools[i].1.backends[b].address
    }

    pub open spec fn spec_has_pool(&self, pool: Seq<char>) -> bool {
        exists|i: int| 0 <= i < self.pools.len() && #[trigger] self.pools[i].0@ == pool
    }

    /// The position of the pool named `pool` (meaningful when it exists).
    pub open spec fn spec_pool_index(&self, pool: Seq<char>) -> int {
        choose|i: int| 0 <= i < self.pools.len() && #[trigger] self.pools[i].0@ == pool
    }

    pub open spec fn spec_pool(&self, pool: Seq<char>) -> CompiledPoolHealth {
        self.pools[self.spec_pool_index(pool)].1
    }

    /// Whether `addr` is a backend of the pool named `pool`.
    pub open spec fn spec_has_backend(&self, pool: Seq<char>, addr: SockAddr) -> bool {
        &&& self.spec_has_pool(pool)
        &&& exists|j: int|
            0 <= j < self.spec_pool(pool).backends.len() && #[trigger] self.spec_pool(pool).backends[j].address
                == addr
    }

    /// The position of backend `addr` within its pool (meaningful when it exists).
    pub open spec fn spec_backend_index(&self, pool: Seq<char>, addr: SockAddr) -> int {
        choose|j: int|
            0 <= j < self.spec_pool(pool).backends.len() && #[trigger] self.spec_pool(pool).backends[j].address
                == addr
    }

    pub open spec fn spec_backend(&self, pool: Seq<char>, addr: SockAddr) -> CompiledBackendHealth {
        self.spec_pool(pool).backends[self.spec_backend_index(pool, addr)]
    }

    /// With unique names, the pool at position `i` is the pool of its name.
    pub proof fn lemma_pool_at(&self, i: int)
        requires
            self.wf(),
            0 <= i < self.pools.len(),
        ensures
            self.spec_has_pool(self.pools[i].0@),
            self.spec_pool_index(self.pools[i].0@) == i,
    {
        let name = self.pools[i].0@;
        assert(self.pools[i].0@ == name);
        let k = self.spec_pool_index(name);
        if k != i {
            if k < i {
                assert(self.pools[k].0@ != self.pools[i].0@);
            } else {
                assert(self.pools[i].0@ != self.pools[k].0@);
            }
        }
    }

    /// With unique addresses, backend `j` of pool `i` is the backend of its address.
    pub proof fn lemma_backend_at(&self, i: int, j: int)
        requires
            self.wf(),
            0 <= i < self.pools.len(),
            0 <= j < self.pools[i].1.backends.len(),
        ensures
            self.spec_has_backend(self.pools[i].0@, self.pools[i].1.backends[j].address),
            self.spec_backend_index(self.pools[i].0@, self.pools[i].1.backends[j].address) == j,
            self.spec_backend(self.pools[i].0@, self.pools[i].1.backends[j].address)
                == self.pools[i].1.backends[j],
    {
        self.lemma_pool_at(i);
        let name = self.pools[i].0@;
        let addr = self.pools[i].1.backends[j].address;
        assert(self.spec_pool(name).backends[j].address == addr);
        let k = self.spec_backend_index(name, addr);
        if k != j {
            if k < j {
                assert(self.pools[i].1.backends[k].address != self.pools[i].1.backends[j].address);
            } else {
                assert(self.pools[i].1.backends[j].address != self.pools[i].1.backends[k].address);
            }
        }
    }

    /// The pool named `pool`, if configured.
    pub fn pool(&self, pool: &str) -> (r: Option<&CompiledPoolHealth>)
        requires
            self.wf(),
        ensures
            r is Some <==> self.spec_has_pool(pool@),
            r matches Some(p) ==> *p == self.spec_pool(pool@),
    {
        let want = pool.to_owned();
        let mut i: usize = 0;
        while i < self.pools.len()
            invariant
                self.wf(),
                want@ == pool@,
                0 <= i <= self.pools.len(),
                forall|k: int| 0 <= k < i ==> self.pools[k].0@ != pool@,
            decreases self.pools.len() - i,
        {
            if self.pools[i].0 == want {
                proof {
                    self.lemma_pool_at(i as int);
                }
                return Some(&self.pools[i].1);
            }
            i += 1;
        }
        None
    }

    /// The backend at `address` in the pool named `pool`, if configured.
    pub fn backend(&self, pool: &str, address: SockAddr) -> (r: Option<&CompiledBackendHealth>)
        requires
            self.wf(),
        ensures
            r is Some <==> self.spec_has_backend(pool@, address),
            r matches Some(b) ==> *b == self.spec_backend(pool@, address),
    {
        let p = match self.pool(pool) {
            Some(p) => p,
            None => return None,
        };
        let ghost pi = self.spec_pool_index(pool@);
        proof {
            self.lemma_pool_at(pi);
        }
        let mut j: usize = 0;
        while j < p.backends.len()
            invariant
                self.wf(),
                0 <= pi < self.pools.len(),
                self.pools[pi].0@ == pool@,
                *p == self.pools[pi].1,
                *p == self.spec_pool(pool@),
                0 <= j <= p.backends.len(),
                forall|k: int| 0 <= k < j ==> p.backends[k].address != address,
            decreases p.backends.len() - j,
        {
            if p.backends[j].address == address {
                proof {
                    self.lemma_backend_at(pi, j as int);
                }
                return Some(&p.backends[j]);
            }
            j += 1;
        }
        None
    }

    /// The address of the first backend of `pool` whose configured name is
    /// `name`.
    pub fn resolve_backend(&self, pool: &str, name: &str) -> (r: Option<SockAddr>)
        requires
            self.wf(),
        ensures
            r matches Some(a) ==> self.spec_has_pool(pool@) && exists|j: int|
                0 <= j < self.spec_pool(pool@).backends.len() && ((#[trigger] self.spec_pool(pool@).backends[j]).name matches Some(n)
                    && n@ == name@) && self.spec_pool(pool@).backends[j].address == a,
            r is None ==> !self.spec_has_pool(pool@) || forall|j: int|
                0 <= j < self.spec_pool(pool@).backends.len() ==> !((#[trigger] self.spec_pool(pool@).backends[j]).name matches Some(n)
                    && n@ == name@),
    {
        let p = match self.pool(pool) {
            Some(p) => p,
            None => return None,
        };
        let mut j: usize = 0;
        while j < p.backends.len()
            invariant
                *p == self.spec_pool(pool@),
                self.spec_has_pool(pool@),
                j <= p.backends.len(),
                forall|k: int| 0 <= k < j ==> !((#[trigger] p.backends[k]).name matches Some(n) && n@ == name@),
            decreases p.backends.len() - j,
        {
            let hit = match &p.backends[j].name {
                Some(n) => crate::text::str_eq(n.as_str(), name),
                None => false,
            };
            if hit {
                proof {
                    assert((p.backends[j as int]).name matches Some(n) && n@ == name@);
                }
                return Some(p.backends[j].address);
            }
            j += 1;
        }
        None
    }
}

} // verus!
