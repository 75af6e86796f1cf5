//! Cache entry metadata and classification.

use vstd::prelude::*;
use crate::clock::{Instant, NANOS_PER_SEC, spec_plus_secs};

verus! {

/// Stored answer classification (single heterogeneous pool).
#[derive(Debug, Clone, Copy, PartialEq, Eq, Structural)]
pub enum EntryKind {
    Positive,
    NxDomain,
    NoData,
    ServFail,
}

/// Classification of a response by its rcode and answer count.
pub open spec fn spec_kind_from_rcode(rcode: u16, answer_count: u16) -> EntryKind {
    if rcode == 0 {
        if answer_count == 0 { EntryKind::NoData } else { EntryKind::Positive }
    } else if rcode == 3 {
        EntryKind::NxDomain
    } else if rcode == 2 {
        EntryKind::ServFail
    } else {
        EntryKind::Positive
    }
}

impl EntryKind {
    /// NOERROR with no answers is NODATA, NOERROR otherwise positive, NXDOMAIN and
    /// SERVFAIL map to their kinds, and any other rcode is stored as positive.
    pub fn from_rcode(rcode: u16, answer_count: u16) -> (r: EntryKind)
        ensures
            r == spec_kind_from_rcode(rcode, answer_count),
    {
        match rcode {
            0 if answer_count == 0 => EntryKind::NoData,
            0 => EntryKind::Positive,
            3 => EntryKind::NxDomain,
            2 => EntryKind::ServFail,
            _ => EntryKind::Positive,
        }
    }
}

/// One cached answer: its kind, the stored response wire and its lifetime.
#[derive(Debug)]
pub struct CacheEntry {
    pub kind: EntryKind,
    pub wire: Vec<u8>,
    /// When this entry was stored (used to age RR TTLs on serve).
    pub filled_at: Instant,
    pub expires_at: Instant,
}

impl View for CacheEntry {
    type V = (EntryKind, Seq<u8>, Instant, Instant);

    open spec fn view(&self) -> (EntryKind, Seq<u8>, Instant, Instant) {
        (self.kind, self.wire@, self.filled_at, self.expires_at)
    }
}

impl Clone for CacheEntry {
    fn clone(&self) -> (r: Self)
        ensures
            r@ == self@,
    {
        let wire = self.wire.clone();
        proof {
            assert(wire@ =~= self.wire@);
        }
        CacheEntry { kind: self.kind, wire, filled_at: self.filled_at, expires_at: self.expires_at }
    }
}

/// Whole seconds of lifetime left at `now` (capped at `u32::MAX`).
pub open spec fn spec_ttl_remaining(expires_at: Instant, now: Instant) -> int {
    if now.nanos >= expires_at.nanos {
        0
    } else {
        let s = (expires_at.nanos - now.nanos) / (NANOS_PER_SEC as int);
        if s > u32::MAX { u32::MAX as int } else { s }
    }
}

impl CacheEntry {
    pub open spec fn spec_is_fresh(&self, now: Instant) -> bool {
        now.nanos < self.expires_at.nanos
    }

    /// An entry is fresh strictly before its expiry instant.
    pub fn is_fresh(&self, now: Instant) -> (r: bool)
        ensures
            r == self.spec_is_fresh(now),
    {
        now.nanos < self.expires_at.nanos
    }

    pub fn ttl_remaining_secs(&self, now: Instant) -> (r: u32)
        ensures
            r == spec_ttl_remaining(self.expires_at, now),
    {
        if now.nanos >= self.expires_at.nanos {
            return 0;
        }
        let secs = (self.expires_at.nanos - now.nanos) / NANOS_PER_SEC;
        if secs > u32::MAX as u64 {
            u32::MAX
        } else {
            secs as u32
        }
    }
}

/// The expiry instant of an entry stored at `now` with `ttl_secs` seconds to live.
pub fn expires_at_from_ttl(now: Instant, ttl_secs: u32) -> (r: Instant)
    ensures
        r == spec_plus_secs(now, ttl_secs as u64),
{
    now.plus_secs(ttl_secs as u64)
}

} // verus!
