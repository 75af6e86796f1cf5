//! Scrape-time health metric rows: one row per health-checked backend that
//! has a health state, and the count of backends whose applied verdict is up.
//! Latency figures and effective weights are floating point and are added
//! to the rows outside the library.

use vstd::prelude::*;
use crate::health::state::Health;
use crate::text::owned;

verus! {

/// What the scrape reads of a backend's health state.
#[derive(Debug, Clone, Copy, PartialEq, Eq, Structural)]
pub struct ScrapeState {
    pub observed: Health,
    pub applied: Health,
    /// Probe verdicts apply (the backend's effective scope is automatic).
    pub automatic: bool,
    pub transitions_total: u64,
}

/// One configured backend of a health-checked pool, as the scrape reads it.
#[derive(Debug, Clone)]
pub struct ScrapeBackend {
    /// The backend's metric label (configured name, else address).
    pub label: String,
    /// The configured address parses as a socket address.
    pub address_parses: bool,
    /// The health table's state for the backend, when it has one.
    pub state: Option<ScrapeState>,
}

/// The integer part of a backend's health gauge row.
#[derive(Debug, Clone, PartialEq, Eq)]
pub struct ScrapeRow {
    pub backend: String,
    /// Gauge encoding: 0 unknown, 1 up, 2 down.
    pub observed: u8,
    pub applied: u8,
    pub probe_automatic: bool,
    pub transitions_total: u64,
}

/// The backends that get a row: address parses and a state exists.
pub open spec fn spec_scraped(b: ScrapeBackend) -> bool {
    b.address_parses && b.state is Some
}

/// The rows of the first `n` backends, in order.
pub open spec fn spec_rows(bs: Seq<ScrapeBackend>, n: nat) -> Seq<(Seq<char>, u8, u8, bool, u64)>
    decreases n,
{
    if n == 0 {
        Seq::empty()
    } else {
        let rest = spec_rows(bs, (n - 1) as nat);
        let b = bs[n - 1];
        if spec_scraped(b) {
            let s = b.state.unwrap();
            rest.push((b.label@, s.observed.spec_to_u8(), s.applied.spec_to_u8(), s.automatic, s.transitions_total))
        } else {
            rest
        }
    }
}

/// Backends among the first `n` with a row whose applied verdict is up.
pub open spec fn spec_active(bs: Seq<ScrapeBackend>, n: nat) -> nat
    decreases n,
{
    if n == 0 {
        0
    } else {
        spec_active(bs, (n - 1) as nat) + if spec_scraped(bs[n - 1]) && bs[n - 1].state.unwrap().applied == Health::Up {
            1nat
        } else {
            0nat
        }
    }
}

pub open spec fn spec_row_view(r: ScrapeRow) -> (Seq<char>, u8, u8, bool, u64) {
    (r.backend@, r.observed, r.applied, r.probe_automatic, r.transitions_total)
}

proof fn lemma_active_le_rows(bs: Seq<ScrapeBackend>, n: nat)
    requires
        n <= bs.len(),
    ensures
        spec_active(bs, n) <= spec_rows(bs, n).len(),
        spec_rows(bs, n).len() <= n,
    decreases n,
{
    if n > 0 {
        lemma_active_le_rows(bs, (n - 1) as nat);
    }
}

/// The health rows of one health-checked pool and its count of backends
/// applied up.
pub fn scrape_pool(backends: &Vec<ScrapeBackend>) -> (r: (Vec<ScrapeRow>, u32))
    ensures
        r.0@.map_values(|x: ScrapeRow| spec_row_view(x)) == spec_rows(backends@, backends@.len()),
        r.1 as nat == (if spec_active(backends@, backends@.len()) > u32::MAX { u32::MAX as nat } else {
            spec_active(backends@, backends@.len())
        }),
        r.1 as nat <= r.0@.len(),
{
    let mut rows: Vec<ScrapeRow> = Vec::new();
    let mut active: u32 = 0;
    let mut i: usize = 0;
    while i < backends.len()
        invariant
            i <= backends@.len(),
            rows@.map_values(|x: ScrapeRow| spec_row_view(x)) == spec_rows(backends@, i as nat),
            active as nat == (if spec_active(backends@, i as nat) > u32::MAX { u32::MAX as nat } else {
                spec_active(backends@, i as nat)
            }),
        decreases backends@.len() - i,
    {
        let b = &backends[i];
        let ghost before = rows@;
        if b.address_parses {
            match b.state {
                Some(s) => {
                    if s.applied == Health::Up && active < u32::MAX {
                        active = active + 1;
                    }
                    rows.push(ScrapeRow {
                        backend: owned(b.label.as_str()),
                        observed: s.observed.to_u8(),
                        applied: s.applied.to_u8(),
                        probe_automatic: s.automatic,
                        transitions_total: s.transitions_total,
                    });
                    proof {
                        assert(rows@.map_values(|x: ScrapeRow| spec_row_view(x)) =~= before.map_values(
                            |x: ScrapeRow| spec_row_view(x),
                        ).push(spec_row_view(rows@.last())));
                    }
                },
                None => {},
            }
        }
        i = i + 1;
    }
    proof {
        lemma_active_le_rows(backends@, backends@.len());
        assert(rows@.len() == rows@.map_values(|x: ScrapeRow| spec_row_view(x)).len());
    }
    (rows, active)
}

} // verus!
