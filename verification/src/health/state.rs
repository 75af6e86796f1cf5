//! Per-backend runtime health state.
//!
//! Each backend carries `observed` health (probe truth) and `applied` health
//! (what routing reads). When not frozen, `applied` tracks `observed`; while
//! frozen, `applied` holds and `observed` keeps updating; unfreeze snaps
//! `applied := observed`.

use vstd::prelude::*;
use crate::net::SockAddr;
use super::compiled::{CompiledHealth, CompiledPoolHealth, CompiledBackendHealth, spec_probe_semantics};
use super::control::{HealthControlScopes, HealthControlScope, ScopeMode};
use super::table::{keys_unique, has_key, lookup, find_key, assoc_insert, lemma_lookup_at};

verus! {

/// Liveness of a backend.
#[derive(Debug, Clone, Copy, PartialEq, Eq, Structural)]
pub enum Health {
    /// No definite probe verdict yet.
    Unknown,
    /// Probes (or a manual set) consider the backend alive.
    Up,
    /// Probes (or a manual set) consider the backend dead.
    Down,
}

impl Health {
    pub open spec fn spec_to_u8(self) -> u8 {
        match self {
            Health::Unknown => 0,
            Health::Up => 1,
            Health::Down => 2,
        }
    }

    pub open spec fn spec_from_u8(v: u8) -> Health {
        if v == 1 {
            Health::Up
        } else if v == 2 {
            Health::Down
        } else {
            Health::Unknown
        }
    }

    /// Gauge encoding: 0 = unknown, 1 = up, 2 = down.
    pub fn to_u8(self) -> (r: u8)
        ensures
            r == self.spec_to_u8(),
    {
        match self {
            Health::Unknown => 0,
            Health::Up => 1,
            Health::Down => 2,
        }
    }

    /// Inverse of [`Health::to_u8`]; any other value reads as unknown.
    pub fn from_u8(v: u8) -> (r: Health)
        ensures
            r == Health::spec_from_u8(v),
    {
        match v {
            1 => Health::Up,
            2 => Health::Down,
            _ => Health::Unknown,
        }
    }
}

/// Decoding the gauge encoding of a health value gives the value back.
pub proof fn lemma_health_u8_roundtrip(h: Health)
    ensures
        Health::spec_from_u8(h.spec_to_u8()) == h,
        h.spec_to_u8() <= 2,
{
}

/// A pool's initial-state policy for backends that no probe has judged yet.
#[derive(Debug, Clone, Copy, PartialEq, Eq, Structural)]
pub enum InitialHealthState {
    Optimistic,
    Require1Good,
    RequireFullRise,
}

/// Outcome of a passive (live-traffic) failure recorded against a backend.
#[derive(Debug, Clone, Copy, PartialEq, Eq, Structural)]
pub struct PassiveFailureResult {
    /// Resulting `applied` health after this failure.
    pub applied: Health,
    /// Passive failure count *after* this failure (1-based).
    pub consecutive_failures: u32,
    /// Configured threshold (`passive_fall`).
    pub passive_fall: u32,
    /// True when this failure crossed the threshold and moved `observed` to Down.
    pub transitioned: bool,
    /// True when the backend was already `observed == Down` before this failure.
    pub already_down: bool,
}

/// Identity of a backend within the running config. Includes the pool so the
/// same address in two pools is two independent health entries.
#[derive(Debug, Clone)]
pub struct BackendKey {
    pub pool: String,
    pub address: SockAddr,
}

impl View for BackendKey {
    type V = (Seq<char>, SockAddr);

    open spec fn view(&self) -> (Seq<char>, SockAddr) {
        (self.pool@, self.address)
    }
}

impl BackendKey {
    pub fn new(pool: String, address: SockAddr) -> (r: BackendKey)
        ensures
            r.pool@ == pool@,
            r.address == address,
    {
        BackendKey { pool, address }
    }

    /// Key equality: same pool name and same address.
    pub fn same_as(&self, other: &BackendKey) -> (r: bool)
        ensures
            r == (self@ == other@),
    {
        self.address == other.address && self.pool == other.pool
    }
}

/// The counters and flags of one backend's health state.
#[derive(Debug, Clone, Copy, PartialEq, Eq, Structural)]
pub struct HealthCounters {
    pub observed: Health,
    pub applied: Health,
    pub frozen: bool,
    pub consecutive_successes: u32,
    pub consecutive_failures: u32,
    pub passive_consecutive_failures: u32,
    /// Cumulative observed/applied transitions (wrapping).
    pub transitions_total: u64,
}

/// A run threshold of zero behaves as one.
pub open spec fn spec_threshold(t: u32) -> int {
    if t == 0 { 1 } else { t as int }
}

pub open spec fn spec_sat_inc(x: u32) -> u32 {
    if x == u32::MAX { x } else { (x + 1) as u32 }
}

/// Transition counter after an update that changed (or not) a health value.
pub open spec fn spec_bump(n: u64, changed: bool) -> u64 {
    if changed {
        if n == u64::MAX { 0 } else { (n + 1) as u64 }
    } else {
        n
    }
}

pub open spec fn spec_set_applied(s: HealthCounters, v: Health) -> HealthCounters {
    HealthCounters { applied: v, transitions_total: spec_bump(s.transitions_total, s.applied != v), ..s }
}

pub open spec fn spec_mark_observed(s: HealthCounters, v: Health) -> HealthCounters {
    HealthCounters { observed: v, transitions_total: spec_bump(s.transitions_total, s.observed != v), ..s }
}

/// Mark `observed` as `v`; when not frozen, `applied` follows.
pub open spec fn spec_verdict(s: HealthCounters, v: Health) -> HealthCounters {
    let s2 = spec_mark_observed(s, v);
    if !s2.frozen { spec_set_applied(s2, v) } else { s2 }
}

pub open spec fn spec_initial(initial: InitialHealthState) -> HealthCounters {
    HealthCounters {
        observed: Health::Unknown,
        applied: if initial == InitialHealthState::Optimistic { Health::Up } else { Health::Down },
        frozen: false,
        consecutive_successes: 0,
        consecutive_failures: 0,
        passive_consecutive_failures: 0,
        transitions_total: 0,
    }
}

pub open spec fn spec_record_success(s: HealthCounters, rise: u32) -> HealthCounters {
    let s1 = HealthCounters {
        consecutive_failures: 0,
        consecutive_successes: spec_sat_inc(s.consecutive_successes),
        ..s
    };
    if s1.consecutive_successes >= spec_threshold(rise) { spec_verdict(s1, Health::Up) } else { s1 }
}

pub open spec fn spec_record_failure(s: HealthCounters, fall: u32) -> HealthCounters {
    let s1 = HealthCounters {
        consecutive_successes: 0,
        consecutive_failures: spec_sat_inc(s.consecutive_failures),
        ..s
    };
    if s1.consecutive_failures >= spec_threshold(fall) { spec_verdict(s1, Health::Down) } else { s1 }
}

pub open spec fn spec_record_passive_failure(s: HealthCounters, passive_fall: u32) -> HealthCounters {
    let s1 = HealthCounters {
        passive_consecutive_failures: spec_sat_inc(s.passive_consecutive_failures),
        ..s
    };
    if s1.passive_consecutive_failures >= spec_threshold(passive_fall) {
        spec_verdict(s1, Health::Down)
    } else {
        s1
    }
}

pub open spec fn spec_passive_result(s: HealthCounters, passive_fall: u32) -> PassiveFailureResult {
    let f = spec_sat_inc(s.passive_consecutive_failures);
    PassiveFailureResult {
        applied: spec_record_passive_failure(s, passive_fall).applied,
        consecutive_failures: f,
        passive_fall,
        transitioned: f >= spec_threshold(passive_fall) && s.observed != Health::Down,
        already_down: s.observed == Health::Down,
    }
}

pub open spec fn spec_unfreeze(s: HealthCounters) -> HealthCounters {
    spec_set_applied(HealthCounters { frozen: false, ..s }, s.observed)
}

pub open spec fn spec_manual_set(s: HealthCounters, v: Health) -> HealthCounters {
    HealthCounters { frozen: true, ..spec_set_applied(s, v) }
}


/// While frozen, no probe or passive verdict moves `applied`.
pub proof fn lemma_frozen_holds_applied(s: HealthCounters, n: u32)
    requires
        s.frozen,
    ensures
        spec_record_success(s, n).applied == s.applied,
        spec_record_failure(s, n).applied == s.applied,
        spec_record_passive_failure(s, n).applied == s.applied,
        spec_record_success(s, n).frozen,
        spec_record_failure(s, n).frozen,
        spec_record_passive_failure(s, n).frozen,
{
}

/// When not frozen, a verdict that reaches its threshold moves `observed` and
/// `applied` together: up on `rise` successes, down on `fall` (probe) or
/// `passive_fall` (live traffic) failures.
pub proof fn lemma_unfrozen_applied_follows_verdict(s: HealthCounters, n: u32)
    requires
        !s.frozen,
    ensures
        spec_sat_inc(s.consecutive_successes) >= spec_threshold(n) ==> {
            &&& spec_record_success(s, n).observed == Health::Up
            &&& spec_record_success(s, n).applied == Health::Up
        },
        spec_sat_inc(s.consecutive_failures) >= spec_threshold(n) ==> {
            &&& spec_record_failure(s, n).observed == Health::Down
            &&& spec_record_failure(s, n).applied == Health::Down
        },
        spec_sat_inc(s.passive_consecutive_failures) >= spec_threshold(n) ==> {
            &&& spec_record_passive_failure(s, n).observed == Health::Down
            &&& spec_record_passive_failure(s, n).applied == Health::Down
        },
{
}

/// Below the threshold, a probe or passive result changes neither `observed`
/// nor `applied`.
pub proof fn lemma_below_threshold_no_verdict(s: HealthCounters, n: u32)
    ensures
        spec_sat_inc(s.consecutive_successes) < spec_threshold(n) ==> {
            &&& spec_record_success(s, n).observed == s.observed
            &&& spec_record_success(s, n).applied == s.applied
        },
        spec_sat_inc(s.consecutive_failures) < spec_threshold(n) ==> {
            &&& spec_record_failure(s, n).observed == s.observed
            &&& spec_record_failure(s, n).applied == s.applied
        },
        spec_sat_inc(s.passive_consecutive_failures) < spec_threshold(n) ==> {
            &&& spec_record_passive_failure(s, n).observed == s.observed
            &&& spec_record_passive_failure(s, n).applied == s.applied
        },
{
}

/// A success resets the failure run and a failure resets the success run.
pub proof fn lemma_runs_reset_each_other(s: HealthCounters, n: u32)
    ensures
        spec_record_success(s, n).consecutive_failures == 0,
        spec_record_success(s, n).consecutive_successes == spec_sat_inc(s.consecutive_successes),
        spec_record_failure(s, n).consecutive_successes == 0,
        spec_record_failure(s, n).consecutive_failures == spec_sat_inc(s.consecutive_failures),
{
}

/// Passive (live-traffic) failures can only move a backend down, never up.
pub proof fn lemma_passive_never_marks_up(s: HealthCounters, n: u32)
    ensures
        spec_record_passive_failure(s, n).observed == s.observed
            || spec_record_passive_failure(s, n).observed == Health::Down,
        spec_record_passive_failure(s, n).applied == s.applied
            || spec_record_passive_failure(s, n).applied == Health::Down,
{
}

/// A manual set implies freeze, and the set value then holds against probe
/// verdicts until resumed.
pub proof fn lemma_manual_set_implies_freeze(s: HealthCounters, v: Health, n: u32)
    ensures
        spec_manual_set(s, v).frozen,
        spec_manual_set(s, v).applied == v,
        spec_record_success(spec_manual_set(s, v), n).applied == v,
        spec_record_failure(spec_manual_set(s, v), n).applied == v,
{
}

/// Unfreezing snaps `applied` to `observed` and re-enables tracking.
pub proof fn lemma_unfreeze_snaps(s: HealthCounters)
    ensures
        !spec_unfreeze(s).frozen,
        spec_unfreeze(s).applied == s.observed,
        spec_unfreeze(s).observed == s.observed,
{
}

/// Reads the system wall clock in milliseconds since the Unix epoch.
/// The value depends on the moment of the call; nothing is claimed about it.
#[verifier::external_body]
pub(crate) fn unix_time_millis() -> u64 {
    match std::time::SystemTime::now().duration_since(std::time::UNIX_EPOCH) {
        Ok(d) => d.as_millis() as u64,
        Err(_) => 0,
    }
}

/// Per-backend health state. Probe and control updates go through `&mut self`.
#[derive(Debug, Clone, Copy)]
pub struct BackendHealthState {
    observed: Health,
    applied: Health,
    frozen: bool,
    last_transition_unix_ms: u64,
    consecutive_successes: u32,
    consecutive_failures: u32,
    passive_consecutive_failures: u32,
    /// Latency EWMA in milliseconds as `f64` bits; `u64::MAX` before the first sample.
    latency_ewma_ms_bits: u64,
    /// Damped latency effective-weight factor as `f64` bits.
    weight_factor_bits: u64,
    transitions_total: u64,
}

/// Marker for "no latency sample yet".
pub const EWMA_UNSET: u64 = 0xFFFF_FFFF_FFFF_FFFF;

/// Bits of the `f64` value `1.0`: latency weighting has not reduced the share.
pub const WEIGHT_FACTOR_NEUTRAL_BITS: u64 = 0x3FF0_0000_0000_0000;

impl View for BackendHealthState {
    type V = HealthCounters;

    closed spec fn view(&self) -> HealthCounters {
        HealthCounters {
            observed: self.observed,
            applied: self.applied,
            frozen: self.frozen,
            consecutive_successes: self.consecutive_successes,
            consecutive_failures: self.consecutive_failures,
            passive_consecutive_failures: self.passive_consecutive_failures,
            transitions_total: self.transitions_total,
        }
    }
}

impl BackendHealthState {
    /// Unix milliseconds of the last transition (zero before any).
    pub closed spec fn spec_last_transition(&self) -> u64 {
        self.last_transition_unix_ms
    }

    pub closed spec fn spec_latency_bits(&self) -> u64 {
        self.latency_ewma_ms_bits
    }

    pub closed spec fn spec_weight_bits(&self) -> u64 {
        self.weight_factor_bits
    }

    /// The state of a backend no probe has judged yet.
    pub closed spec fn spec_fresh(initial: InitialHealthState) -> BackendHealthState {
        BackendHealthState {
            observed: Health::Unknown,
            applied: if initial == InitialHealthState::Optimistic { Health::Up } else { Health::Down },
            frozen: false,
            last_transition_unix_ms: 0,
            consecutive_successes: 0,
            consecutive_failures: 0,
            passive_consecutive_failures: 0,
            latency_ewma_ms_bits: EWMA_UNSET,
            weight_factor_bits: WEIGHT_FACTOR_NEUTRAL_BITS,
            transitions_total: 0,
        }
    }

    pub proof fn lemma_fresh(initial: InitialHealthState)
        ensures
            Self::spec_fresh(initial)@ == spec_initial(initial),
            Self::spec_fresh(initial).spec_last_transition() == 0,
    {
    }

    /// State from the pool's initial-state policy: `observed` starts unknown,
    /// `applied` starts up only under the optimistic policy.
    pub fn from_initial_policy(initial: InitialHealthState) -> (r: BackendHealthState)
        ensures
            r == Self::spec_fresh(initial),
            r@ == spec_initial(initial),
            r.spec_last_transition() == 0,
            r.spec_latency_bits() == EWMA_UNSET,
            r.spec_weight_bits() == WEIGHT_FACTOR_NEUTRAL_BITS,
    {
        let applied = match initial {
            InitialHealthState::Optimistic => Health::Up,
            InitialHealthState::Require1Good | InitialHealthState::RequireFullRise => Health::Down,
        };
        BackendHealthState {
            observed: Health::Unknown,
            applied,
            frozen: false,
            last_transition_unix_ms: 0,
            consecutive_successes: 0,
            consecutive_failures: 0,
            passive_consecutive_failures: 0,
            latency_ewma_ms_bits: EWMA_UNSET,
            weight_factor_bits: WEIGHT_FACTOR_NEUTRAL_BITS,
            transitions_total: 0,
        }
    }

    pub fn observed(&self) -> (r: Health)
        ensures
            r == self@.observed,
    {
        self.observed
    }

    pub fn applied(&self) -> (r: Health)
        ensures
            r == self@.applied,
    {
        self.applied
    }

    pub fn is_frozen(&self) -> (r: bool)
        ensures
            r == self@.frozen,
    {
        self.frozen
    }

    /// This state with its frozen flag set to `frozen`.
    pub closed spec fn spec_with_frozen(self, frozen: bool) -> BackendHealthState {
        BackendHealthState { frozen, ..self }
    }

    pub proof fn lemma_with_frozen(self, frozen: bool)
        ensures
            self.spec_with_frozen(frozen)@ == (HealthCounters { frozen, ..self@ }),
            self.spec_with_frozen(frozen).spec_last_transition() == self.spec_last_transition(),
            self.spec_with_frozen(frozen).spec_latency_bits() == self.spec_latency_bits(),
            self.spec_with_frozen(frozen).spec_weight_bits() == self.spec_weight_bits(),
    {
    }

    /// Update the frozen flag from resolved scope (no snap of `applied`).
    pub fn set_frozen_flag(&mut self, frozen: bool)
        ensures
            *final(self) == old(self).spec_with_frozen(frozen),
            final(self)@ == (HealthCounters { frozen, ..old(self)@ }),
            final(self).spec_last_transition() == old(self).spec_last_transition(),
            final(self).spec_latency_bits() == old(self).spec_latency_bits(),
            final(self).spec_weight_bits() == old(self).spec_weight_bits(),
    {
        self.frozen = frozen;
    }

    /// Unix epoch milliseconds of the last transition, if any.
    pub fn last_transition_unix_ms(&self) -> (r: Option<u64>)
        ensures
            r == (if self.spec_last_transition() == 0 { None } else { Some(self.spec_last_transition()) }),
    {
        if self.last_transition_unix_ms == 0 {
            None
        } else {
            Some(self.last_transition_unix_ms)
        }
    }

    fn note_transition(&mut self, now_unix_ms: u64)
        ensures
            final(self)@ == (HealthCounters { transitions_total: spec_bump(old(self)@.transitions_total, true), ..old(self)@ }),
            final(self).spec_last_transition() == now_unix_ms,
            final(self).spec_latency_bits() == old(self).spec_latency_bits(),
            final(self).spec_weight_bits() == old(self).spec_weight_bits(),
    {
        self.last_transition_unix_ms = now_unix_ms;
        self.transitions_total = self.transitions_total.wrapping_add(1);
    }

    pub fn transitions_total(&self) -> (r: u64)
        ensures
            r == self@.transitions_total,
    {
        self.transitions_total
    }

    pub fn consecutive_successes(&self) -> (r: u32)
        ensures
            r == self@.consecutive_successes,
    {
        self.consecutive_successes
    }

    pub fn consecutive_failures(&self) -> (r: u32)
        ensures
            r == self@.consecutive_failures,
    {
        self.consecutive_failures
    }

    pub fn passive_consecutive_failures(&self) -> (r: u32)
        ensures
            r == self@.passive_consecutive_failures,
    {
        self.passive_consecutive_failures
    }

    /// The latency EWMA (`f64` bits), or `None` before the first sample.
    pub fn latency_ewma_ms_bits(&self) -> (r: Option<u64>)
        ensures
            r == (if self.spec_latency_bits() == EWMA_UNSET { None } else { Some(self.spec_latency_bits()) }),
    {
        if self.latency_ewma_ms_bits == EWMA_UNSET {
            None
        } else {
            Some(self.latency_ewma_ms_bits)
        }
    }

    /// Store a new latency EWMA (`f64` bits).
    pub fn set_latency_ewma_ms_bits(&mut self, bits: u64)
        ensures
            final(self)@ == old(self)@,
            final(self).spec_latency_bits() == bits,
            final(self).spec_weight_bits() == old(self).spec_weight_bits(),
            final(self).spec_last_transition() == old(self).spec_last_transition(),
    {
        self.latency_ewma_ms_bits = bits;
    }

    /// The damped latency effective-weight factor (`f64` bits).
    pub fn weight_factor_bits(&self) -> (r: u64)
        ensures
            r == self.spec_weight_bits(),
    {
        self.weight_factor_bits
    }

    /// Store a new effective-weight factor (`f64` bits).
    pub fn set_weight_factor_bits(&mut self, bits: u64)
        ensures
            final(self)@ == old(self)@,
            final(self).spec_weight_bits() == bits,
            final(self).spec_latency_bits() == old(self).spec_latency_bits(),
            final(self).spec_last_transition() == old(self).spec_last_transition(),
    {
        self.weight_factor_bits = bits;
    }

    fn set_applied(&mut self, value: Health, now_unix_ms: u64)
        ensures
            final(self)@.transitions_total == old(self)@.transitions_total ==> final(self).spec_last_transition()
                == old(self).spec_last_transition(),
            final(self)@.transitions_total != old(self)@.transitions_total ==> final(self).spec_last_transition()
                == now_unix_ms,
            final(self)@ == spec_set_applied(old(self)@, value),
            old(self)@.applied == value ==> final(self).spec_last_transition() == old(self).spec_last_transition(),
            final(self).spec_latency_bits() == old(self).spec_latency_bits(),
            final(self).spec_weight_bits() == old(self).spec_weight_bits(),
    {
        let prev = self.applied;
        self.applied = value;
        if prev != value {
            self.note_transition(now_unix_ms);
        }
    }

    fn mark_observed(&mut self, value: Health, now_unix_ms: u64)
        ensures
            final(self)@.transitions_total == old(self)@.transitions_total ==> final(self).spec_last_transition()
                == old(self).spec_last_transition(),
            final(self)@.transitions_total != old(self)@.transitions_total ==> final(self).spec_last_transition()
                == now_unix_ms,
            final(self)@ == spec_mark_observed(old(self)@, value),
            old(self)@.observed == value ==> final(self).spec_last_transition() == old(self).spec_last_transition(),
            final(self).spec_latency_bits() == old(self).spec_latency_bits(),
            final(self).spec_weight_bits() == old(self).spec_weight_bits(),
    {
        let prev = self.observed;
        self.observed = value;
        if prev != value {
            self.note_transition(now_unix_ms);
        }
    }

    fn verdict(&mut self, value: Health, now_unix_ms: u64)
        ensures
            final(self)@.transitions_total == old(self)@.transitions_total ==> final(self).spec_last_transition()
                == old(self).spec_last_transition(),
            final(self)@.transitions_total != old(self)@.transitions_total ==> final(self).spec_last_transition()
                == now_unix_ms,
            final(self)@ == spec_verdict(old(self)@, value),
            final(self).spec_latency_bits() == old(self).spec_latency_bits(),
            final(self).spec_weight_bits() == old(self).spec_weight_bits(),
    {
        self.mark_observed(value, now_unix_ms);
        if !self.frozen {
            self.set_applied(value, now_unix_ms);
        }
    }

    /// Set `applied` without changing the frozen flag (pool/global manual set).
    pub fn set_applied_only(&mut self, value: Health, now_unix_ms: u64)
        ensures
            final(self)@.transitions_total == old(self)@.transitions_total ==> final(self).spec_last_transition()
                == old(self).spec_last_transition(),
            final(self)@.transitions_total != old(self)@.transitions_total ==> final(self).spec_last_transition()
                == now_unix_ms,
            final(self)@ == spec_set_applied(old(self)@, value),
            final(self).spec_latency_bits() == old(self).spec_latency_bits(),
            final(self).spec_weight_bits() == old(self).spec_weight_bits(),
    {
        self.set_applied(value, now_unix_ms);
    }

    /// Resume automatic: snap `applied := observed`.
    pub fn snap_applied_to_observed(&mut self, now_unix_ms: u64)
        ensures
            final(self)@.transitions_total == old(self)@.transitions_total ==> final(self).spec_last_transition()
                == old(self).spec_last_transition(),
            final(self)@.transitions_total != old(self)@.transitions_total ==> final(self).spec_last_transition()
                == now_unix_ms,
            final(self)@ == spec_set_applied(old(self)@, old(self)@.observed),
            final(self).spec_latency_bits() == old(self).spec_latency_bits(),
            final(self).spec_weight_bits() == old(self).spec_weight_bits(),
    {
        let o = self.observed;
        self.set_applied(o, now_unix_ms);
    }

    /// Record a successful probe: the success run grows (failures reset) and,
    /// once `rise` consecutive successes are reached, `observed` becomes up
    /// (and `applied` too when not frozen). Returns the resulting `applied`.
    /// The probe's round-trip time is folded into the latency EWMA by the
    /// caller through [`BackendHealthState::set_latency_ewma_ms_bits`].
    pub fn record_success(&mut self, rise: u32, now_unix_ms: u64) -> (r: Health)
        ensures
            final(self)@.transitions_total == old(self)@.transitions_total ==> final(self).spec_last_transition()
                == old(self).spec_last_transition(),
            final(self)@.transitions_total != old(self)@.transitions_total ==> final(self).spec_last_transition()
                == now_unix_ms,
            final(self)@ == spec_record_success(old(self)@, rise),
            r == final(self)@.applied,
            final(self).spec_latency_bits() == old(self).spec_latency_bits(),
            final(self).spec_weight_bits() == old(self).spec_weight_bits(),
    {
        self.consecutive_failures = 0;
        self.consecutive_successes = self.consecutive_successes.saturating_add(1);
        let threshold: u32 = if rise == 0 { 1 } else { rise };
        if self.consecutive_successes >= threshold {
            self.verdict(Health::Up, now_unix_ms);
        }
        self.applied
    }

    /// Record a failed probe: the failure run grows (successes reset) and,
    /// once `fall` consecutive failures are reached, `observed` becomes down
    /// (and `applied` too when not frozen). Returns the resulting `applied`.
    pub fn record_failure(&mut self, fall: u32, now_unix_ms: u64) -> (r: Health)
        ensures
            final(self)@.transitions_total == old(self)@.transitions_total ==> final(self).spec_last_transition()
                == old(self).spec_last_transition(),
            final(self)@.transitions_total != old(self)@.transitions_total ==> final(self).spec_last_transition()
                == now_unix_ms,
            final(self)@ == spec_record_failure(old(self)@, fall),
            r == final(self)@.applied,
            final(self).spec_latency_bits() == old(self).spec_latency_bits(),
            final(self).spec_weight_bits() == old(self).spec_weight_bits(),
    {
        self.consecutive_successes = 0;
        self.consecutive_failures = self.consecutive_failures.saturating_add(1);
        let threshold: u32 = if fall == 0 { 1 } else { fall };
        if self.consecutive_failures >= threshold {
            self.verdict(Health::Down, now_unix_ms);
        }
        self.applied
    }

    /// Record a live forward failure. Passive failures may open the circuit at
    /// `passive_fall`; only probe rise may close it.
    pub fn record_passive_failure(&mut self, passive_fall: u32, now_unix_ms: u64) -> (r: PassiveFailureResult)
        ensures
            final(self)@.transitions_total == old(self)@.transitions_total ==> final(self).spec_last_transition()
                == old(self).spec_last_transition(),
            final(self)@.transitions_total != old(self)@.transitions_total ==> final(self).spec_last_transition()
                == now_unix_ms,
            final(self)@ == spec_record_passive_failure(old(self)@, passive_fall),
            r == spec_passive_result(old(self)@, passive_fall),
            final(self).spec_latency_bits() == old(self).spec_latency_bits(),
            final(self).spec_weight_bits() == old(self).spec_weight_bits(),
    {
        let was_already_down = self.observed == Health::Down;
        self.passive_consecutive_failures = self.passive_consecutive_failures.saturating_add(1);
        let failures = self.passive_consecutive_failures;
        let threshold: u32 = if passive_fall == 0 { 1 } else { passive_fall };
        let mut transitioned = false;
        if failures >= threshold {
            transitioned = !was_already_down;
            self.verdict(Health::Down, now_unix_ms);
        }
        PassiveFailureResult {
            applied: self.applied,
            consecutive_failures: failures,
            passive_fall,
            transitioned,
            already_down: was_already_down,
        }
    }

    /// Reset the passive failure run on a successful forward. Does not mark up.
    pub fn record_passive_success(&mut self)
        ensures
            final(self)@ == (HealthCounters { passive_consecutive_failures: 0, ..old(self)@ }),
            final(self).spec_last_transition() == old(self).spec_last_transition(),
            final(self).spec_latency_bits() == old(self).spec_latency_bits(),
            final(self).spec_weight_bits() == old(self).spec_weight_bits(),
    {
        self.passive_consecutive_failures = 0;
    }

    /// Freeze probe-driven transitions: `applied` holds while `observed` keeps updating.
    pub fn freeze(&mut self)
        ensures
            final(self)@ == (HealthCounters { frozen: true, ..old(self)@ }),
            final(self).spec_last_transition() == old(self).spec_last_transition(),
            final(self).spec_latency_bits() == old(self).spec_latency_bits(),
            final(self).spec_weight_bits() == old(self).spec_weight_bits(),
    {
        self.frozen = true;
    }

    /// Resume automatic operation and snap `applied := observed`; returns `observed`.
    pub fn unfreeze(&mut self, now_unix_ms: u64) -> (r: Health)
        ensures
            final(self)@.transitions_total == old(self)@.transitions_total ==> final(self).spec_last_transition()
                == old(self).spec_last_transition(),
            final(self)@.transitions_total != old(self)@.transitions_total ==> final(self).spec_last_transition()
                == now_unix_ms,
            final(self)@ == spec_unfreeze(old(self)@),
            r == old(self)@.observed,
            final(self).spec_latency_bits() == old(self).spec_latency_bits(),
            final(self).spec_weight_bits() == old(self).spec_weight_bits(),
    {
        self.frozen = false;
        let observed = self.observed;
        self.set_applied(observed, now_unix_ms);
        observed
    }

    /// Manually set `applied` up and freeze (a manual set implies freeze).
    pub fn set_up(&mut self, now_unix_ms: u64)
        ensures
            final(self)@.transitions_total == old(self)@.transitions_total ==> final(self).spec_last_transition()
                == old(self).spec_last_transition(),
            final(self)@.transitions_total != old(self)@.transitions_total ==> final(self).spec_last_transition()
                == now_unix_ms,
            final(self)@ == spec_manual_set(old(self)@, Health::Up),
            final(self).spec_latency_bits() == old(self).spec_latency_bits(),
            final(self).spec_weight_bits() == old(self).spec_weight_bits(),
    {
        self.set_applied(Health::Up, now_unix_ms);
        self.freeze();
    }

    /// Manually set `applied` down and freeze (drain).
    pub fn set_down(&mut self, now_unix_ms: u64)
        ensures
            final(self)@.transitions_total == old(self)@.transitions_total ==> final(self).spec_last_transition()
                == old(self).spec_last_transition(),
            final(self)@.transitions_total != old(self)@.transitions_total ==> final(self).spec_last_transition()
                == now_unix_ms,
            final(self)@ == spec_manual_set(old(self)@, Health::Down),
            final(self).spec_latency_bits() == old(self).spec_latency_bits(),
            final(self).spec_weight_bits() == old(self).spec_weight_bits(),
    {
        self.set_applied(Health::Down, now_unix_ms);
        self.freeze();
    }
}

impl BackendHealthState {
    /// The last-transition stamp is set exactly when a transition has been
    /// counted.
    pub open spec fn spec_stamp_tracks(&self) -> bool {
        (self.spec_last_transition() == 0) == (self@.transitions_total == 0)
    }
}

/// A state no probe has judged has no stamp and no transitions; each
/// transition method, given a clock reading after the epoch, keeps the
/// stamp set exactly when transitions have been counted (while the counter
/// does not wrap).
pub proof fn lemma_stamp_tracks_transitions(
    initial: InitialHealthState,
    before: BackendHealthState,
    after: BackendHealthState,
    now_unix_ms: u64,
)
    requires
        before.spec_stamp_tracks(),
        now_unix_ms > 0,
        after@.transitions_total >= before@.transitions_total,
        after@.transitions_total == before@.transitions_total ==> after.spec_last_transition()
            == before.spec_last_transition(),
        after@.transitions_total != before@.transitions_total ==> after.spec_last_transition() == now_unix_ms,
    ensures
        BackendHealthState::spec_fresh(initial).spec_stamp_tracks(),
        after.spec_stamp_tracks(),
{
}

/// Whether backend `(pool, addr)` is among the first `n` backends of `p`.
pub open spec fn spec_in_first(p: CompiledPoolHealth, n: int, addr: SockAddr) -> bool {
    exists|j: int| 0 <= j < n && j < p.backends.len() && #[trigger] p.backends[j].address == addr
}

/// Whether key `k` names a backend visited before position `(i, j)` of a walk
/// over the pools of `h` and, within each, over its backends.
pub open spec fn spec_visited(h: CompiledHealth, i: int, j: int, k: (Seq<char>, SockAddr)) -> bool {
    ||| exists|i2: int|
        0 <= i2 < i && i2 < h.pools.len() && #[trigger] h.pools[i2].0@ == k.0 && spec_in_first(
            h.pools[i2].1,
            h.pools[i2].1.backends.len() as int,
            k.1,
        )
    ||| (0 <= i < h.pools.len() && h.pools[i].0@ == k.0 && spec_in_first(h.pools[i].1, j, k.1))
}

pub proof fn lemma_visited_all(h: CompiledHealth, k: (Seq<char>, SockAddr))
    requires
        h.wf(),
    ensures
        spec_visited(h, h.pools.len() as int, 0, k) == h.spec_has_backend(k.0, k.1),
{
    if spec_visited(h, h.pools.len() as int, 0, k) {
        let i2 = choose|i2: int|
            0 <= i2 < h.pools.len() && i2 < h.pools.len() && #[trigger] h.pools[i2].0@ == k.0 && spec_in_first(
                h.pools[i2].1,
                h.pools[i2].1.backends.len() as int,
                k.1,
            );
        h.lemma_pool_at(i2);
        let j = choose|j: int|
            0 <= j < h.pools[i2].1.backends.len() && j < h.pools[i2].1.backends.len()
                && #[trigger] h.pools[i2].1.backends[j].address == k.1;
        assert(h.spec_pool(k.0).backends[j].address == k.1);
    }
    if h.spec_has_backend(k.0, k.1) {
        let i2 = h.spec_pool_index(k.0);
        let j = h.spec_backend_index(k.0, k.1);
        assert(h.pools[i2].1.backends[j].address == k.1);
        assert(spec_in_first(h.pools[i2].1, h.pools[i2].1.backends.len() as int, k.1));
        assert(h.pools[i2].0@ == k.0);
    }
}

/// The state of backend `k` after a reload from `prev` to `new`: a backend
/// that is still configured, was configured before, and probes with the same
/// semantics keeps its state; any other configured backend starts fresh from
/// its pool's initial-state policy; an unconfigured backend has no state.
pub open spec fn spec_reconciled(
    old_entry: Option<BackendHealthState>,
    prev: CompiledHealth,
    new: CompiledHealth,
    k: (Seq<char>, SockAddr),
) -> Option<BackendHealthState> {
    if new.spec_has_backend(k.0, k.1) {
        if old_entry is Some && prev.spec_has_backend(k.0, k.1) && spec_probe_semantics(
            prev.spec_backend(k.0, k.1),
        ) == spec_probe_semantics(new.spec_backend(k.0, k.1)) {
            old_entry
        } else {
            Some(BackendHealthState::spec_fresh(new.spec_pool(k.0).initial_state))
        }
    } else {
        None
    }
}

fn same_probe_semantics(a: &CompiledBackendHealth, b: &CompiledBackendHealth) -> (r: bool)
    ensures
        r == (spec_probe_semantics(*a) == spec_probe_semantics(*b)),
{
    let same_source = match (&a.probe_source, &b.probe_source) {
        (None, None) => true,
        (Some(x), Some(y)) => *x == *y,
        _ => false,
    };
    a.probe_qtype == b.probe_qtype && same_source && a.probe_qname == b.probe_qname
}

/// Backend identity to health state, plus the operator scope overrides.
#[derive(Debug, Clone)]
pub struct HealthRegistry {
    table: Vec<(BackendKey, BackendHealthState)>,
    scopes: HealthControlScopes,
}

impl HealthRegistry {
    pub closed spec fn wf(&self) -> bool {
        keys_unique(self.table@) && self.scopes.wf()
    }

    /// The health state of backend `(pool, addr)`, if it has one.
    pub closed spec fn entry(&self, pool: Seq<char>, addr: SockAddr) -> Option<BackendHealthState> {
        lookup(self.table@, (pool, addr))
    }

    /// The operator scope overrides.
    pub closed spec fn spec_scopes(&self) -> HealthControlScopes {
        self.scopes
    }

    pub fn scopes(&self) -> (r: &HealthControlScopes)
        requires
            self.wf(),
        ensures
            *r == self.spec_scopes(),
            r.wf(),
    {
        &self.scopes
    }

    /// Store `mode` at `scope` in the scope overrides (see
    /// [`HealthControlScopes::set_level`]); backend states are untouched.
    pub fn set_scope_level(&mut self, scope: &HealthControlScope, mode: ScopeMode)
        requires
            old(self).wf(),
        ensures
            final(self).wf(),
            final(self).size() == old(self).size(),
            forall|p: Seq<char>, a: SockAddr| #[trigger] final(self).entry(p, a) == old(self).entry(p, a),
            final(self).spec_scopes().spec_set_level_post(old(self).spec_scopes(), *scope, mode),
    {
        self.scopes.set_level(scope, mode);
    }

    /// Number of backends with a state.
    pub closed spec fn size(&self) -> nat {
        self.table@.len()
    }

    /// Empty registry (no health configured).
    pub fn empty() -> (r: HealthRegistry)
        ensures
            r.wf(),
            r.size() == 0,
            forall|p: Seq<char>, a: SockAddr| #[trigger] r.entry(p, a) is None,
            r.spec_scopes().spec_is_default(),
    {
        HealthRegistry { table: Vec::new(), scopes: HealthControlScopes::new() }
    }

    fn build_table(
        h: &CompiledHealth,
        prev: &CompiledHealth,
        old_table: &Vec<(BackendKey, BackendHealthState)>,
        reuse: bool,
    ) -> (r: Vec<(BackendKey, BackendHealthState)>)
        requires
            h.wf(),
            prev.wf(),
            keys_unique(old_table@),
        ensures
            keys_unique(r@),
            forall|p: Seq<char>, a: SockAddr| #[trigger] lookup(r@, (p, a)) == if reuse {
                spec_reconciled(lookup(old_table@, (p, a)), *prev, *h, (p, a))
            } else if h.spec_has_backend(p, a) {
                Some(BackendHealthState::spec_fresh(h.spec_pool(p).initial_state))
            } else {
                None
            },
    {
        let mut next: Vec<(BackendKey, BackendHealthState)> = Vec::new();
        let mut i: usize = 0;
        while i < h.pools.len()
            invariant
                h.wf(),
                prev.wf(),
                keys_unique(old_table@),
                keys_unique(next@),
                0 <= i <= h.pools.len(),
                forall|p: Seq<char>, a: SockAddr| #[trigger] lookup(next@, (p, a)) == if spec_visited(
                    *h,
                    i as int,
                    0,
                    (p, a),
                ) {
                    if reuse {
                        spec_reconciled(lookup(old_table@, (p, a)), *prev, *h, (p, a))
                    } else {
                        Some(BackendHealthState::spec_fresh(h.spec_pool(p).initial_state))
                    }
                } else {
                    None
                },
            decreases h.pools.len() - i,
        {
            let pool_name = &h.pools[i].0;
            let pool = &h.pools[i].1;
            proof {
                h.lemma_pool_at(i as int);
            }
            let mut j: usize = 0;
            while j < pool.backends.len()
                invariant
                    h.wf(),
                    prev.wf(),
                    keys_unique(old_table@),
                    keys_unique(next@),
                    0 <= i < h.pools.len(),
                    *pool_name == h.pools[i as int].0,
                    *pool == h.pools[i as int].1,
                    h.spec_pool_index(pool_name@) == i,
                    0 <= j <= pool.backends.len(),
                    forall|p: Seq<char>, a: SockAddr| #[trigger] lookup(next@, (p, a)) == if spec_visited(
                        *h,
                        i as int,
                        j as int,
                        (p, a),
                    ) {
                        if reuse {
                            spec_reconciled(lookup(old_table@, (p, a)), *prev, *h, (p, a))
                        } else {
                            Some(BackendHealthState::spec_fresh(h.spec_pool(p).initial_state))
                        }
                    } else {
                        None
                    },
                decreases pool.backends.len() - j,
            {
                let backend = &pool.backends[j];
                let address = backend.address;
                proof {
                    h.lemma_backend_at(i as int, j as int);
                }
                let fresh = BackendHealthState::from_initial_policy(pool.initial_state);
                let state = if reuse {
                    match find_key(old_table, pool_name, address) {
                        Some(ix) => {
                            match prev.backend(pool_name.as_str(), address) {
                                Some(pb) => {
                                    if same_probe_semantics(pb, backend) {
                                        old_table[ix].1
                                    } else {
                                        fresh
                                    }
                                },
                                None => fresh,
                            }
                        },
                        None => fresh,
                    }
                } else {
                    fresh
                };
                let ghost kv = (pool_name@, address);
                assoc_insert(&mut next, BackendKey::new(pool_name.clone(), address), state);
                proof {
                    assert forall|p: Seq<char>, a: SockAddr| #[trigger]
                        spec_visited(*h, i as int, j + 1, (p, a)) == (spec_visited(
                            *h,
                            i as int,
                            j as int,
                            (p, a),
                        ) || (p, a) == kv) by {
                        if (p, a) == kv {
                            assert(pool.backends[j as int].address == a);
                            assert(spec_in_first(*pool, j + 1, a));
                        }
                        if spec_in_first(*pool, j + 1, a) && !spec_in_first(*pool, j as int, a) {
                            let jj = choose|jj: int|
                                0 <= jj < j + 1 && jj < pool.backends.len() && #[trigger] pool.backends[jj].address == a;
                            assert(jj == j);
                        }
                        if spec_visited(*h, i as int, j + 1, (p, a)) && !spec_visited(*h, i as int, j as int, (p, a)) {
                            if !(exists|i2: int|
                                0 <= i2 < i && i2 < h.pools.len() && #[trigger] h.pools[i2].0@ == p && spec_in_first(
                                    h.pools[i2].1,
                                    h.pools[i2].1.backends.len() as int,
                                    a,
                                )) {
                                assert(h.pools[i as int].0@ == p);
                                assert(spec_in_first(h.pools[i as int].1, j + 1, a));
                            }
                        }
                    }
                }
                j += 1;
            }
            proof {
                assert forall|p: Seq<char>, a: SockAddr| #[trigger]
                    spec_visited(*h, i + 1, 0, (p, a)) == spec_visited(
                        *h,
                        i as int,
                        pool.backends.len() as int,
                        (p, a),
                    ) by {
                    if spec_visited(*h, i + 1, 0, (p, a)) {
                        if exists|i2: int|
                            0 <= i2 < i + 1 && i2 < h.pools.len() && #[trigger] h.pools[i2].0@ == p && spec_in_first(
                                h.pools[i2].1,
                                h.pools[i2].1.backends.len() as int,
                                a,
                            ) {
                            let i2 = choose|i2: int|
                                0 <= i2 < i + 1 && i2 < h.pools.len() && #[trigger] h.pools[i2].0@ == p && spec_in_first(
                                    h.pools[i2].1,
                                    h.pools[i2].1.backends.len() as int,
                                    a,
                                );
                            if i2 < i {
                            } else {
                                assert(i2 == i);
                            }
                        } else {
                            let jj = choose|jj: int| 0 <= jj < 0 && jj < h.pools[i + 1].1.backends.len() && #[trigger] h.pools[i + 1].1.backends[jj].address == a;
                        }
                    }
                    if spec_visited(*h, i as int, pool.backends.len() as int, (p, a)) {
                        if !(exists|i2: int|
                            0 <= i2 < i && i2 < h.pools.len() && #[trigger] h.pools[i2].0@ == p && spec_in_first(
                                h.pools[i2].1,
                                h.pools[i2].1.backends.len() as int,
                                a,
                            )) {
                            assert(h.pools[i as int].0@ == p);
                        }
                    }
                }
            }
            i += 1;
        }
        proof {
            assert forall|p: Seq<char>, a: SockAddr| #[trigger] spec_visited(*h, h.pools.len() as int, 0, (p, a))
                == h.spec_has_backend(p, a) by {
                lemma_visited_all(*h, (p, a));
            }
        }
        next
    }

    /// A registry seeding each configured backend with its pool's
    /// initial-state policy.
    pub fn from_compiled(health: &CompiledHealth) -> (r: HealthRegistry)
        requires
            health.wf(),
        ensures
            r.wf(),
            r.spec_scopes().spec_is_default(),
            forall|p: Seq<char>, a: SockAddr| #[trigger] r.entry(p, a) == if health.spec_has_backend(p, a) {
                Some(BackendHealthState::spec_fresh(health.spec_pool(p).initial_state))
            } else {
                None
            },
    {
        let empty: Vec<(BackendKey, BackendHealthState)> = Vec::new();
        let table = Self::build_table(health, health, &empty, false);
        HealthRegistry { table, scopes: HealthControlScopes::new() }
    }

    /// Reconcile the states against a new compiled health config on reload.
    /// Health is runtime state, so a reload must not blanket-reset it: an
    /// unchanged backend (same pool, address and probe semantics) keeps its
    /// state; a new, repointed or re-probed backend starts fresh; a backend
    /// no longer configured is dropped. Scope overrides are kept.
    pub fn reconcile(&mut self, prev: &CompiledHealth, new: &CompiledHealth)
        requires
            old(self).wf(),
            prev.wf(),
            new.wf(),
        ensures
            final(self).wf(),
            final(self).spec_scopes() == old(self).spec_scopes(),
            forall|p: Seq<char>, a: SockAddr| #[trigger] final(self).entry(p, a) == spec_reconciled(
                old(self).entry(p, a),
                *prev,
                *new,
                (p, a),
            ),
    {
        let next = Self::build_table(new, prev, &self.table, true);
        self.table = next;
    }

    /// One backend's state (a copy).
    pub fn get(&self, pool: &str, address: SockAddr) -> (r: Option<BackendHealthState>)
        requires
            self.wf(),
        ensures
            r == self.entry(pool@, address),
    {
        let name = pool.to_owned();
        match find_key(&self.table, &name, address) {
            Some(i) => Some(self.table[i].1),
            None => None,
        }
    }

    /// Replace the state of a backend that has one; returns whether it had one.
    pub fn put(&mut self, pool: &str, address: SockAddr, state: BackendHealthState) -> (r: bool)
        requires
            old(self).wf(),
        ensures
            final(self).wf(),
            final(self).spec_scopes() == old(self).spec_scopes(),
            final(self).size() == old(self).size(),
            r == (old(self).entry(pool@, address) is Some),
            forall|p: Seq<char>, a: SockAddr| #[trigger] final(self).entry(p, a) == if r && (p, a) == (
            pool@,
            address,
            ) {
                Some(state)
            } else {
                old(self).entry(p, a)
            },
    {
        let name = pool.to_owned();
        match find_key(&self.table, &name, address) {
            Some(i) => {
                let key = BackendKey::new(self.table[i].0.pool.clone(), self.table[i].0.address);
                let ghost o = self.table@;
                self.table.set(i, (key, state));
                proof {
                    let t = self.table@;
                    assert forall|a: int, b: int| 0 <= a < b < t.len() implies #[trigger] t[a].0@
                        != #[trigger] t[b].0@ by {
                        assert(o[a].0@ != o[b].0@);
                    }
                    assert forall|p: Seq<char>, a: SockAddr| #[trigger] lookup(t, (p, a)) == if (p, a) == (
                    pool@,
                    address,
                    ) {
                        Some(state)
                    } else {
                        lookup(o, (p, a))
                    } by {
                        if (p, a) == (pool@, address) {
                            lemma_lookup_at(t, i as int);
                        } else if has_key(o, (p, a)) {
                            let j = choose|j: int| 0 <= j < o.len() && #[trigger] o[j].0@ == (p, a);
                            lemma_lookup_at(o, j);
                            lemma_lookup_at(t, j);
                        } else if has_key(t, (p, a)) {
                            let j = choose|j: int| 0 <= j < t.len() && #[trigger] t[j].0@ == (p, a);
                            assert(o[j].0@ == (p, a));
                        }
                    }
                }
                true
            },
            None => false,
        }
    }

    pub fn is_empty(&self) -> (r: bool)
        ensures
            r == (self.size() == 0),
    {
        self.table.len() == 0
    }

    pub fn len(&self) -> (r: usize)
        ensures
            r == self.size(),
    {
        self.table.len()
    }

    /// Fold a live forward outcome into passive health. Returns the failure
    /// result when a failure was recorded; `None` for successes and when
    /// passive tripping is disabled for the pool or the backend has no state.
    pub fn record_passive_forward_outcome(
        &mut self,
        compiled: &CompiledHealth,
        pool: &str,
        backend: SockAddr,
        is_failure: bool,
    ) -> (r: Option<PassiveFailureResult>)
        requires
            old(self).wf(),
            compiled.wf(),
        ensures
            final(self).wf(),
            final(self).spec_scopes() == old(self).spec_scopes(),
            ({
                let applies = compiled.spec_has_pool(pool@) && compiled.spec_pool(pool@).passive_fast_trip
                    && old(self).entry(pool@, backend) is Some;
                let pf = compiled.spec_pool(pool@).passive_fall;
                let s = old(self).entry(pool@, backend).unwrap();
                &&& (r is Some <==> applies && is_failure)
                &&& (r matches Some(res) ==> res == spec_passive_result(s@, pf))
                &&& forall|p: Seq<char>, a: SockAddr| (p, a) != (pool@, backend) ==> #[trigger] final(self).entry(p, a)
                    == old(self).entry(p, a)
                &&& !applies ==> final(self).entry(pool@, backend) == old(self).entry(pool@, backend)
                &&& applies ==> (final(self).entry(pool@, backend) matches Some(s2) && s2@ == (if is_failure {
                    spec_record_passive_failure(s@, pf)
                } else {
                    HealthCounters { passive_consecutive_failures: 0, ..s@ }
                }) && s2.spec_latency_bits() == s.spec_latency_bits() && s2.spec_weight_bits()
                    == s.spec_weight_bits())
            }),
    {
        let pool_cfg = match compiled.pool(pool) {
            Some(p) => p,
            None => return None,
        };
        if !pool_cfg.passive_fast_trip {
            return None;
        }
        let mut state = match self.get(pool, backend) {
            Some(s) => s,
            None => return None,
        };
        if is_failure {
            let res = state.record_passive_failure(pool_cfg.passive_fall, unix_time_millis());
            let _ = self.put(pool, backend, state);
            Some(res)
        } else {
            state.record_passive_success();
            let _ = self.put(pool, backend, state);
            None
        }
    }
}

} // verus!
