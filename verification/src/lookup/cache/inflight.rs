//! Single-flight coalescing per (cache instance, key): the first
//! transaction to register leads and goes upstream; the others follow and
//! wait for its result. Waiting itself is the caller's business.

use vstd::prelude::*;

verus! {

/// Result of registering for in-flight coalescing.
#[derive(Debug, Clone, Copy, PartialEq, Eq, Structural)]
pub enum InFlightRole {
    /// This transaction proceeds upstream.
    Leader,
    /// Another transaction is in flight; wait for its result.
    Follower,
}

/// The state of one flight.
#[derive(Debug)]
pub struct InFlightGate {
    leader_active: bool,
    result: Option<Vec<u8>>,
    waiters: Vec<u64>,
}

impl InFlightGate {
    pub closed spec fn spec_leader_active(&self) -> bool {
        self.leader_active
    }

    pub closed spec fn spec_result(&self) -> Option<Seq<u8>> {
        match self.result {
            Some(w) => Some(w@),
            None => None,
        }
    }

    pub closed spec fn spec_waiters(&self) -> Seq<u64> {
        self.waiters@
    }

    /// No flight yet.
    pub fn new() -> (r: InFlightGate)
        ensures
            !r.spec_leader_active(),
            r.spec_result() is None,
            r.spec_waiters() == Seq::<u64>::empty(),
    {
        InFlightGate { leader_active: false, result: None, waiters: Vec::new() }
    }

    /// Register `txn_id`: with a leader in flight it follows (and is
    /// remembered as a waiter when it waits asynchronously); otherwise a new
    /// flight starts with it as leader, dropping the previous result.
    pub fn register(&mut self, txn_id: u64, async_wait: bool) -> (r: InFlightRole)
        ensures
            old(self).spec_leader_active() ==> {
                &&& r == InFlightRole::Follower
                &&& final(self).spec_leader_active()
                &&& final(self).spec_result() == old(self).spec_result()
                &&& final(self).spec_waiters() == if async_wait {
                    old(self).spec_waiters().push(txn_id)
                } else {
                    old(self).spec_waiters()
                }
            },
            !old(self).spec_leader_active() ==> {
                &&& r == InFlightRole::Leader
                &&& final(self).spec_leader_active()
                &&& final(self).spec_result() is None
                &&& final(self).spec_waiters() == Seq::<u64>::empty()
            },
    {
        if self.leader_active {
            if async_wait {
                self.waiters.push(txn_id);
            }
            return InFlightRole::Follower;
        }
        self.result = None;
        self.waiters = Vec::new();
        self.leader_active = true;
        InFlightRole::Leader
    }

    /// The leader finished with `wire`: the flight ends, its result is kept,
    /// and the asynchronous waiters are handed back (and forgotten).
    pub fn complete(&mut self, wire: Option<Vec<u8>>) -> (r: Vec<u64>)
        ensures
            r@ == old(self).spec_waiters(),
            !final(self).spec_leader_active(),
            final(self).spec_result() == match wire {
                Some(w) => Some(w@),
                None => None::<Seq<u8>>,
            },
            final(self).spec_waiters() == Seq::<u64>::empty(),
    {
        self.result = wire;
        self.leader_active = false;
        let mut waiters = Vec::new();
        std::mem::swap(&mut waiters, &mut self.waiters);
        waiters
    }

    /// Whether a leader's flight is still running.
    pub fn leader_active(&self) -> (r: bool)
        ensures
            r == self.spec_leader_active(),
    {
        self.leader_active
    }

    pub fn has_result(&self) -> (r: bool)
        ensures
            r == self.spec_result() is Some,
    {
        self.result.is_some()
    }

    /// A copy of the flight's result.
    pub fn result(&self) -> (r: Option<Vec<u8>>)
        ensures
            match r {
                Some(w) => self.spec_result() == Some(w@),
                None => self.spec_result() is None,
            },
    {
        match &self.result {
            Some(w) => {
                let c = w.clone();
                proof {
                    assert(c@ =~= w@);
                }
                Some(c)
            },
            None => None,
        }
    }

    /// Forget the flight entirely.
    pub fn reset(&mut self)
        ensures
            !final(self).spec_leader_active(),
            final(self).spec_result() is None,
            final(self).spec_waiters() == Seq::<u64>::empty(),
    {
        self.leader_active = false;
        self.result = None;
        self.waiters = Vec::new();
    }
}

} // verus!
