//! The lookup stage's forward provider: its resume points and its
//! decision on where a forward attempt goes.

use vstd::prelude::*;
use crate::phase::Phase;
use crate::pipeline::StageOutcome;
use crate::transaction::Transaction;

verus! {

/// The SERVFAIL response code a forward chain answers with once its
/// attempts are used up.
pub const FORWARD_EXHAUSTED_RCODE: u16 = 2;

/// Where the forward chain goes: with `max_attempts` attempts already made
/// it answers SERVFAIL without routing again (Send); otherwise the route
/// stage's `outcome` decides. A chosen backend continues to Forward,
/// ResponseRules and Drop pass through, and any other outcome (a route
/// failure) converges to the answer at Send, where the reply is built from
/// the transaction's rcode.
pub open spec fn spec_forward_chain_next(attempt_count: u32, max_attempts: u32, outcome: StageOutcome) -> StageOutcome {
    if attempt_count >= max_attempts {
        StageOutcome::Continue(Phase::Send)
    } else {
        match outcome {
            StageOutcome::Continue(Phase::Forward) => StageOutcome::Continue(Phase::Forward),
            StageOutcome::Continue(Phase::ResponseRules) => StageOutcome::Continue(Phase::ResponseRules),
            StageOutcome::Drop => StageOutcome::Drop,
            _ => StageOutcome::Continue(Phase::Send),
        }
    }
}

/// One decision of the forward chain (see `spec_forward_chain_next`). Used
/// up attempts set rcode SERVFAIL; nothing else of the transaction changes.
/// `outcome` is what Route gave when it ran; it is not consulted once the
/// attempts are used up.
pub fn forward_chain_step(txn: &mut Transaction, max_attempts: u32, outcome: StageOutcome) -> (r: StageOutcome)
    ensures
        r == spec_forward_chain_next(old(txn).attempt_count, max_attempts, outcome),
        old(txn).attempt_count >= max_attempts ==> *final(txn) == (Transaction {
            rcode: Some(FORWARD_EXHAUSTED_RCODE),
            ..*old(txn)
        }),
        old(txn).attempt_count < max_attempts ==> *final(txn) == *old(txn),
{
    if txn.attempt_count >= max_attempts {
        txn.set_rcode(FORWARD_EXHAUSTED_RCODE);
        return StageOutcome::Continue(Phase::Send);
    }
    match outcome {
        StageOutcome::Continue(Phase::Forward) => StageOutcome::Continue(Phase::Forward),
        StageOutcome::Continue(Phase::ResponseRules) => StageOutcome::Continue(Phase::ResponseRules),
        StageOutcome::Drop => StageOutcome::Drop,
        _ => StageOutcome::Continue(Phase::Send),
    }
}

/// Resume point inside the forward provider after async upstream I/O.
#[derive(Debug, Clone, Copy, PartialEq, Eq, Structural)]
pub enum LookupForwardStep {
    Wait,
}

} // verus!
