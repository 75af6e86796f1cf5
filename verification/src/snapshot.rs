//! Upstream source addresses of a runtime snapshot: the global forward
//! sources, per-pool overrides, the addresses scripts may pick, and the
//! addresses the egress sockets bind.

use vstd::prelude::*;
use crate::net::IpAddress;
use crate::string_map::{entry_for, find_entry, unique_keys};

verus! {

/// Compiled global forwarding sources.
#[derive(Debug, Clone)]
pub struct CompiledForward {
    pub sources_v4: Vec<IpAddress>,
    pub sources_v6: Vec<IpAddress>,
}

/// Compiled per-pool source overrides.
#[derive(Debug, Clone)]
pub struct CompiledPoolForward {
    pub sources_v4: Option<Vec<IpAddress>>,
    pub sources_v6: Option<Vec<IpAddress>>,
}

/// What the library reads of a runtime snapshot: its generation and its
/// compiled forwarding sources, the per-pool overrides keyed by pool name.
#[derive(Debug, Clone)]
pub struct RuntimeSnapshot {
    pub generation: u64,
    pub forward: CompiledForward,
    pub pool_forward: Vec<(String, CompiledPoolForward)>,
}

/// The override list of one address family.
pub open spec fn spec_family(pf: CompiledPoolForward, v6: bool) -> Option<Seq<IpAddress>> {
    match if v6 { pf.sources_v6 } else { pf.sources_v4 } {
        Some(v) => Some(v@),
        None => None,
    }
}

/// Whether `s` holds no address twice.
pub open spec fn spec_no_dups(s: Seq<IpAddress>) -> bool {
    forall|i: int, j: int| 0 <= i < j < s.len() ==> s[i] != s[j]
}

impl RuntimeSnapshot {
    /// Pool names are unique.
    pub open spec fn wf(&self) -> bool {
        unique_keys(self.pool_forward@)
    }

    pub open spec fn spec_global(&self, v6: bool) -> Seq<IpAddress> {
        if v6 { self.forward.sources_v6@ } else { self.forward.sources_v4@ }
    }

    /// The override of `pool` for one family, when the pool has one.
    pub open spec fn spec_override(&self, pool: Option<Seq<char>>, v6: bool) -> Option<Seq<IpAddress>> {
        match pool {
            None => None,
            Some(name) => match entry_for(self.pool_forward@, name) {
                None => None,
                Some(pf) => spec_family(pf, v6),
            },
        }
    }

    /// The sources a forward from `pool` uses: the pool's non-empty
    /// override, else the global sources.
    pub open spec fn spec_sources(&self, pool: Option<Seq<char>>, v6: bool) -> Seq<IpAddress> {
        match self.spec_override(pool, v6) {
            Some(o) if o.len() > 0 => o,
            _ => self.spec_global(v6),
        }
    }

    fn pool_override(&self, pool: Option<&str>) -> (r: Option<&CompiledPoolForward>)
        requires
            self.wf(),
        ensures
            match pool {
                None => r is None,
                Some(name) => match entry_for(self.pool_forward@, name@) {
                    None => r is None,
                    Some(pf) => r matches Some(x) && *x == pf,
                },
            },
    {
        match pool {
            None => None,
            Some(name) => match find_entry(&self.pool_forward, name) {
                Some(i) => Some(&self.pool_forward[i].1),
                None => None,
            },
        }
    }

    /// IPv4 sources for a forward from `pool`.
    pub fn sources_v4_for_pool(&self, pool: Option<&str>) -> (r: &Vec<IpAddress>)
        requires
            self.wf(),
        ensures
            r@ == self.spec_sources(
                match pool {
                    Some(p) => Some(p@),
                    None => None,
                },
                false,
            ),
    {
        match self.pool_override(pool) {
            Some(pf) => match &pf.sources_v4 {
                Some(v) => {
                    if v.len() > 0 {
                        return v;
                    }
                },
                None => {},
            },
            None => {},
        }
        &self.forward.sources_v4
    }

    /// IPv6 sources for a forward from `pool`.
    pub fn sources_v6_for_pool(&self, pool: Option<&str>) -> (r: &Vec<IpAddress>)
        requires
            self.wf(),
        ensures
            r@ == self.spec_sources(
                match pool {
                    Some(p) => Some(p@),
                    None => None,
                },
                true,
            ),
    {
        match self.pool_override(pool) {
            Some(pf) => match &pf.sources_v6 {
                Some(v) => {
                    if v.len() > 0 {
                        return v;
                    }
                },
                None => {},
            },
            None => {},
        }
        &self.forward.sources_v6
    }
}

fn push_unique(out: &mut Vec<IpAddress>, a: IpAddress)
    requires
        spec_no_dups(old(out)@),
    ensures
        spec_no_dups(final(out)@),
        forall|x: IpAddress| #[trigger] final(out)@.contains(x) <==> (old(out)@.contains(x) || x == a),
{
    let mut i: usize = 0;
    while i < out.len()
        invariant
            i <= out@.len(),
            spec_no_dups(out@),
            forall|j: int| 0 <= j < i ==> out@[j] != a,
        decreases out@.len() - i,
    {
        if out[i] == a {
            assert(out@.contains(a));
            assert forall|x: IpAddress| out@.contains(x) <==> (out@.contains(x) || x == a) by {}
            return;
        }
        i = i + 1;
    }
    let ghost before = out@;
    out.push(a);
    proof {
        assert forall|p: int, q: int| 0 <= p < q < out@.len() implies out@[p] != out@[q] by {
            if q < before.len() {
                assert(before[p] != before[q]);
            } else {
                assert(out@[q] == a);
                assert(out@[p] == before[p]);
            }
        }
        assert forall|x: IpAddress| out@.contains(x) <==> (before.contains(x) || x == a) by {
            if out@.contains(x) {
                let k = choose|k: int| 0 <= k < out@.len() && out@[k] == x;
                if k < before.len() {
                    assert(before[k] == x);
                }
            }
            if before.contains(x) {
                let k = choose|k: int| 0 <= k < before.len() && before[k] == x;
                assert(out@[k] == x);
            }
            if x == a {
                assert(out@[before.len() as int] == a);
            }
        }
    }
}

fn extend_unique(out: &mut Vec<IpAddress>, src: &Vec<IpAddress>)
    requires
        spec_no_dups(old(out)@),
    ensures
        spec_no_dups(final(out)@),
        forall|x: IpAddress| #[trigger] final(out)@.contains(x) <==> (old(out)@.contains(x) || src@.contains(x)),
{
    let ghost before = out@;
    let mut i: usize = 0;
    while i < src.len()
        invariant
            i <= src@.len(),
            spec_no_dups(out@),
            forall|x: IpAddress| #[trigger] out@.contains(x) <==> (before.contains(x) || exists|k: int| 0 <= k < i && src@[k] == x),
        decreases src@.len() - i,
    {
        let ghost mid = out@;
        push_unique(out, src[i]);
        proof {
            assert forall|x: IpAddress| out@.contains(x) <==> (before.contains(x) || exists|k: int| 0 <= k < i + 1 && src@[k] == x) by {
                assert(mid.contains(x) <==> (before.contains(x) || exists|k: int| 0 <= k < i && src@[k] == x));
                assert(out@.contains(x) <==> (mid.contains(x) || x == src@[i as int]));
                if x == src@[i as int] {
                    assert(exists|k: int| 0 <= k < i + 1 && src@[k] == x);
                }
            }
        }
        i = i + 1;
    }
    proof {
        assert forall|x: IpAddress| src@.contains(x) <==> exists|k: int| 0 <= k < i && src@[k] == x by {
            if src@.contains(x) {
                let k = choose|k: int| 0 <= k < src@.len() && src@[k] == x;
                assert(0 <= k < i && src@[k] == x);
            }
        }
    }
}

impl RuntimeSnapshot {
    /// Whether a script may pick `a` as a source for a forward from `pool`:
    /// it is a global source or one of the pool's override.
    pub open spec fn spec_allowed(&self, pool: Option<Seq<char>>, v6: bool, a: IpAddress) -> bool {
        self.spec_global(v6).contains(a) || (self.spec_override(pool, v6) matches Some(o) && o.contains(a))
    }

    /// Whether the egress sockets bind `a`: it is a global source or in some
    /// pool's override.
    pub open spec fn spec_egress(&self, v6: bool, a: IpAddress) -> bool {
        self.spec_global(v6).contains(a) || exists|i: int|
            0 <= i < self.pool_forward@.len() && (spec_family(#[trigger] self.pool_forward@[i].1, v6) matches Some(o)
                && o.contains(a))
    }

    fn allowed_sources(&self, pool: Option<&str>, v6: bool) -> (r: Vec<IpAddress>)
        requires
            self.wf(),
        ensures
            spec_no_dups(r@),
            forall|a: IpAddress| #[trigger] r@.contains(a) <==> self.spec_allowed(
                match pool {
                    Some(p) => Some(p@),
                    None => None,
                },
                v6,
                a,
            ),
    {
        let ghost pv = match pool {
            Some(p) => Some(p@),
            None => None::<Seq<char>>,
        };
        let glob = if v6 { &self.forward.sources_v6 } else { &self.forward.sources_v4 };
        assert(glob@ == self.spec_global(v6));
        let mut out: Vec<IpAddress> = Vec::new();
        extend_unique(&mut out, glob);
        assert forall|a: IpAddress| out@.contains(a) <==> self.spec_global(v6).contains(a) by {
            assert(!Seq::<IpAddress>::empty().contains(a));
        }
        match self.pool_override(pool) {
            Some(pf) => {
                let fam = if v6 { &pf.sources_v6 } else { &pf.sources_v4 };
                let ghost mid = out@;
                match fam {
                    Some(v) => {
                        assert(self.spec_override(pv, v6) == Some(v@));
                        extend_unique(&mut out, v);
                        assert forall|a: IpAddress| out@.contains(a) <==> self.spec_allowed(pv, v6, a) by {
                            assert(mid.contains(a) <==> self.spec_global(v6).contains(a));
                            assert(out@.contains(a) <==> (mid.contains(a) || v@.contains(a)));
                            assert(self.spec_allowed(pv, v6, a) == (self.spec_global(v6).contains(a) || v@.contains(a)));
                        }
                    },
                    None => {
                        assert(self.spec_override(pv, v6) is None);
                    },
                }
            },
            None => {
                assert(self.spec_override(pv, v6) is None);
            },
        }
        out
    }

    /// The IPv4 sources a script may pick for a forward from `pool`, each once.
    pub fn allowed_sources_v4_for_pool(&self, pool: Option<&str>) -> (r: Vec<IpAddress>)
        requires
            self.wf(),
        ensures
            spec_no_dups(r@),
            forall|a: IpAddress| #[trigger] r@.contains(a) <==> self.spec_allowed(
                match pool {
                    Some(p) => Some(p@),
                    None => None,
                },
                false,
                a,
            ),
    {
        self.allowed_sources(pool, false)
    }

    /// The IPv6 sources a script may pick for a forward from `pool`, each once.
    pub fn allowed_sources_v6_for_pool(&self, pool: Option<&str>) -> (r: Vec<IpAddress>)
        requires
            self.wf(),
        ensures
            spec_no_dups(r@),
            forall|a: IpAddress| #[trigger] r@.contains(a) <==> self.spec_allowed(
                match pool {
                    Some(p) => Some(p@),
                    None => None,
                },
                true,
                a,
            ),
    {
        self.allowed_sources(pool, true)
    }

    fn egress_addresses(&self, v6: bool) -> (r: Vec<IpAddress>)
        ensures
            spec_no_dups(r@),
            forall|a: IpAddress| #[trigger] r@.contains(a) <==> self.spec_egress(v6, a),
    {
        let glob = if v6 { &self.forward.sources_v6 } else { &self.forward.sources_v4 };
        assert(glob@ == self.spec_global(v6));
        let mut out: Vec<IpAddress> = Vec::new();
        extend_unique(&mut out, glob);
        assert forall|a: IpAddress| out@.contains(a) <==> self.spec_global(v6).contains(a) by {
            assert(!Seq::<IpAddress>::empty().contains(a));
        }
        let pf = &self.pool_forward;
        let mut i: usize = 0;
        while i < pf.len()
            invariant
                i <= pf@.len(),
                pf@ == self.pool_forward@,
                spec_no_dups(out@),
                forall|a: IpAddress| out@.contains(a) <==> (self.spec_global(v6).contains(a) || exists|k: int|
                    0 <= k < i && (spec_family(#[trigger] pf@[k].1, v6) matches Some(o) && o.contains(a))),
            decreases pf@.len() - i,
        {
            let fam = if v6 { &pf[i].1.sources_v6 } else { &pf[i].1.sources_v4 };
            let ghost mid = out@;
            match fam {
                Some(v) => extend_unique(&mut out, v),
                None => {},
            }
            proof {
                assert forall|a: IpAddress| out@.contains(a) <==> (self.spec_global(v6).contains(a) || exists|k: int|
                    0 <= k < i + 1 && (spec_family(#[trigger] pf@[k].1, v6) matches Some(o) && o.contains(a))) by {
                    assert(mid.contains(a) <==> (self.spec_global(v6).contains(a) || exists|k: int|
                        0 <= k < i && (spec_family(#[trigger] pf@[k].1, v6) matches Some(o) && o.contains(a))));
                    if exists|k: int| 0 <= k < i + 1 && (spec_family(#[trigger] pf@[k].1, v6) matches Some(o) && o.contains(a)) {
                        let k = choose|k: int| 0 <= k < i + 1 && (spec_family(#[trigger] pf@[k].1, v6) matches Some(o) && o.contains(a));
                        if k == i {
                        } else {
                            assert(exists|k2: int| 0 <= k2 < i && (spec_family(#[trigger] pf@[k2].1, v6) matches Some(o) && o.contains(a)));
                        }
                    }
                    if out@.contains(a) && !mid.contains(a) {
                        assert(spec_family(pf@[i as int].1, v6) matches Some(o) && o.contains(a));
                    }
                }
            }
            i = i + 1;
        }
        out
    }

    /// Every IPv4 address the egress sockets bind, each once.
    pub fn egress_bind_addresses_v4(&self) -> (r: Vec<IpAddress>)
        ensures
            spec_no_dups(r@),
            forall|a: IpAddress| #[trigger] r@.contains(a) <==> self.spec_egress(false, a),
    {
        self.egress_addresses(false)
    }

    /// Every IPv6 address the egress sockets bind, each once.
    pub fn egress_bind_addresses_v6(&self) -> (r: Vec<IpAddress>)
        ensures
            spec_no_dups(r@),
            forall|a: IpAddress| #[trigger] r@.contains(a) <==> self.spec_egress(true, a),
    {
        self.egress_addresses(true)
    }
}

/// The sources a forward uses are among those a script may pick, and every
/// address a script may pick is bound by an egress socket.
pub proof fn lemma_sources_allowed_and_bound(s: RuntimeSnapshot, pool: Option<Seq<char>>, v6: bool, a: IpAddress)
    requires
        s.wf(),
    ensures
        s.spec_sources(pool, v6).contains(a) ==> s.spec_allowed(pool, v6, a),
        s.spec_allowed(pool, v6, a) ==> s.spec_egress(v6, a),
{
    if s.spec_allowed(pool, v6, a) && !s.spec_global(v6).contains(a) {
        let name = pool.unwrap();
        let t = s.pool_forward@;
        let i = choose|i: int| 0 <= i < t.len() && #[trigger] t[i].0@ == name;
        crate::string_map::lemma_entry_at(t, i);
        assert(spec_family(t[i].1, v6) matches Some(o) && o.contains(a));
    }
}

} // verus!
