//! Injectable time source and the time values the cache and health logic use.

use vstd::prelude::*;

verus! {

/// Nanoseconds in one second.
pub const NANOS_PER_SEC: u64 = 1_000_000_000;

/// A point in time, in nanoseconds since the Unix epoch.
#[derive(Debug, Clone, Copy, PartialEq, Eq, Structural, PartialOrd, Ord, Hash)]
pub struct Instant {
    pub nanos: u64,
}

/// Whole seconds from `earlier` to `later`, zero when `later` is not after `earlier`.
pub open spec fn spec_secs_between(earlier: Instant, later: Instant) -> int {
    if later.nanos <= earlier.nanos {
        0
    } else {
        (later.nanos - earlier.nanos) / (NANOS_PER_SEC as int)
    }
}

/// `t` moved `secs` seconds forward, saturating at the end of the representable range.
pub open spec fn spec_plus_secs(t: Instant, secs: u64) -> Instant {
    let n = t.nanos + secs * NANOS_PER_SEC;
    Instant { nanos: if n > u64::MAX { u64::MAX } else { n as u64 } }
}

/// `t` moved `secs` seconds back, saturating at the epoch.
pub open spec fn spec_minus_secs(t: Instant, secs: u64) -> Instant {
    let n = t.nanos - secs * NANOS_PER_SEC;
    Instant { nanos: if n < 0 { 0 } else { n as u64 } }
}

/// Reads the system wall clock in nanoseconds since the Unix epoch.
/// The value depends on the moment of the call; nothing is claimed about it.
#[verifier::external_body]
fn system_time_nanos() -> u64 {
    match std::time::SystemTime::now().duration_since(std::time::UNIX_EPOCH) {
        Ok(d) => d.as_nanos() as u64,
        Err(_) => 0,
    }
}

impl Instant {
    /// The current time from the system wall clock. It is not monotonic:
    /// when the system clock is stepped, ages and freshness measured
    /// against earlier readings step with it.
    pub fn now() -> Instant {
        Instant { nanos: system_time_nanos() }
    }

    pub fn from_nanos(nanos: u64) -> (r: Instant)
        ensures
            r.nanos == nanos,
    {
        Instant { nanos }
    }

    pub fn from_secs(secs: u64) -> (r: Instant)
        ensures
            r == spec_plus_secs(Instant { nanos: 0 }, secs),
    {
        Instant { nanos: 0 }.plus_secs(secs)
    }

    /// `self + secs` seconds (saturating).
    pub fn plus_secs(self, secs: u64) -> (r: Instant)
        ensures
            r == spec_plus_secs(self, secs),
    {
        let step: u64 = if secs <= u64::MAX / NANOS_PER_SEC {
            secs * NANOS_PER_SEC
        } else {
            u64::MAX
        };
        proof {
            if secs > u64::MAX / NANOS_PER_SEC {
                assert(secs * NANOS_PER_SEC > u64::MAX) by (nonlinear_arith)
                    requires
                        secs > u64::MAX / NANOS_PER_SEC,
                ;
            }
        }
        Instant { nanos: self.nanos.saturating_add(step) }
    }

    /// `self - secs` seconds (saturating at the epoch).
    pub fn minus_secs(self, secs: u64) -> (r: Instant)
        ensures
            r == spec_minus_secs(self, secs),
    {
        let step: u64 = if secs <= u64::MAX / NANOS_PER_SEC {
            secs * NANOS_PER_SEC
        } else {
            u64::MAX
        };
        proof {
            if secs > u64::MAX / NANOS_PER_SEC {
                assert(secs * NANOS_PER_SEC > u64::MAX) by (nonlinear_arith)
                    requires
                        secs > u64::MAX / NANOS_PER_SEC,
                ;
            }
        }
        Instant { nanos: self.nanos.saturating_sub(step) }
    }

    /// `self - secs` seconds, or `None` before the epoch.
    pub fn checked_minus_secs(self, secs: u64) -> (r: Option<Instant>)
        ensures
            r == (if self.nanos - secs * NANOS_PER_SEC >= 0 {
                Some(Instant { nanos: (self.nanos - secs * NANOS_PER_SEC) as u64 })
            } else {
                None
            }),
    {
        if secs > self.nanos / NANOS_PER_SEC {
            proof {
                assert(secs * NANOS_PER_SEC > self.nanos) by (nonlinear_arith)
                    requires
                        secs > self.nanos / NANOS_PER_SEC,
                ;
            }
            return None;
        }
        proof {
            assert(secs * NANOS_PER_SEC <= self.nanos) by (nonlinear_arith)
                requires
                    secs <= self.nanos / NANOS_PER_SEC,
            ;
        }
        Some(Instant { nanos: self.nanos - secs * NANOS_PER_SEC })
    }

    /// Whole seconds elapsed from `earlier` to `self` (zero if `earlier` is later).
    pub fn saturating_secs_since(self, earlier: Instant) -> (r: u64)
        ensures
            r == spec_secs_between(earlier, self),
    {
        if self.nanos <= earlier.nanos {
            0
        } else {
            (self.nanos - earlier.nanos) / NANOS_PER_SEC
        }
    }
}

/// A source of the current time. Implementations may be fakes in tests.
pub trait Clock {
    fn now(&self) -> Instant;
}

/// The system clock.
pub struct SystemClock;

impl Clock for SystemClock {
    fn now(&self) -> Instant {
        Instant::now()
    }
}

} // verus!
