//! The phase state machine that drives pipeline stages.
//!
//! The caller runs the stages; this module decides which phase runs next,
//! when limits force the answer, and how a run ends.

use vstd::prelude::*;
use crate::phase::Phase;
use crate::pipeline::StageOutcome;
use crate::transaction::Transaction;

verus! {

/// How a run ended.
#[derive(Debug, PartialEq, Eq)]
pub enum RunOutcome {
    Response(Vec<u8>),
    Dropped,
}

/// The DNS SERVFAIL response code.
pub const RCODE_SERVFAIL: u16 = 2;

/// Attempt and duration limits of one transaction.
#[derive(Debug, Clone, Copy, PartialEq, Eq, Structural)]
pub struct OrchestratorLimits {
    pub max_attempts: u32,
    pub max_txn_duration_ms: u64,
}

impl OrchestratorLimits {
    /// The configured limits, defaulting to 3 attempts and 5000 ms.
    pub fn from_config(max_attempts: Option<u32>, max_txn_duration_ms: Option<u64>) -> (r: OrchestratorLimits)
        ensures
            r.max_attempts == match max_attempts { Some(v) => v, None => 3 },
            r.max_txn_duration_ms == match max_txn_duration_ms { Some(v) => v, None => 5000 },
    {
        OrchestratorLimits {
            max_attempts: match max_attempts {
                Some(v) => v,
                None => 3,
            },
            max_txn_duration_ms: match max_txn_duration_ms {
                Some(v) => v,
                None => 5000,
            },
        }
    }
}

/// What the run does next.
#[derive(Debug, Clone, Copy, PartialEq, Eq, Structural)]
pub enum RunStep {
    /// Run the stage registered for this phase.
    RunStage(Phase),
    /// The Send phase has no stage: the run is over.
    Finish,
}

/// Metric label of a phase.
pub fn phase_name(phase: Phase) -> (r: &'static str)
    ensures
        phase == Phase::Receive ==> r@ == "receive"@,
        phase == Phase::Parse ==> r@ == "parse"@,
        phase == Phase::RequestRules ==> r@ == "request_rules"@,
        phase == Phase::Lookup ==> r@ == "lookup"@,
        phase == Phase::Route ==> r@ == "route"@,
        phase == Phase::Forward ==> r@ == "forward"@,
        phase == Phase::WaitResponse ==> r@ == "wait_response"@,
        phase == Phase::ResponseRules ==> r@ == "response_rules"@,
        phase == Phase::Send ==> r@ == "send"@,
{
    match phase {
        Phase::Receive => "receive",
        Phase::Parse => "parse",
        Phase::RequestRules => "request_rules",
        Phase::Lookup => "lookup",
        Phase::Route => "route",
        Phase::Forward => "forward",
        Phase::WaitResponse => "wait_response",
        Phase::ResponseRules => "response_rules",
        Phase::Send => "send",
    }
}

/// The phase after `phase` when it has no stage.
pub open spec fn spec_next_phase(phase: Phase) -> Phase {
    match phase {
        Phase::Receive => Phase::Parse,
        Phase::Parse => Phase::RequestRules,
        Phase::RequestRules => Phase::Route,
        Phase::Lookup => Phase::ResponseRules,
        Phase::Route => Phase::Forward,
        Phase::Forward => Phase::WaitResponse,
        Phase::WaitResponse => Phase::ResponseRules,
        Phase::ResponseRules => Phase::Send,
        Phase::Send => Phase::Send,
    }
}

/// Steps left to Send along `spec_next_phase`.
pub open spec fn spec_phase_rank(phase: Phase) -> nat {
    match phase {
        Phase::Receive => 7,
        Phase::Parse => 6,
        Phase::RequestRules => 5,
        Phase::Route => 4,
        Phase::Forward => 3,
        Phase::WaitResponse => 2,
        Phase::Lookup => 2,
        Phase::ResponseRules => 1,
        Phase::Send => 0,
    }
}

pub fn next_phase(phase: Phase) -> (r: Phase)
    ensures
        r == spec_next_phase(phase),
{
    match phase {
        Phase::Receive => Phase::Parse,
        Phase::Parse => Phase::RequestRules,
        Phase::RequestRules => Phase::Route,
        Phase::Lookup => Phase::ResponseRules,
        Phase::Route => Phase::Forward,
        Phase::Forward => Phase::WaitResponse,
        Phase::WaitResponse => Phase::ResponseRules,
        Phase::ResponseRules => Phase::Send,
        Phase::Send => Phase::Send,
    }
}

fn has_stage(registered: &Vec<Phase>, phase: Phase) -> (r: bool)
    ensures
        r == registered@.contains(phase),
{
    let mut i: usize = 0;
    while i < registered.len()
        invariant
            i <= registered@.len(),
            forall|j: int| 0 <= j < i ==> registered@[j] != phase,
        decreases registered@.len() - i,
    {
        if registered[i] == phase {
            proof {
                assert(registered@[i as int] == phase);
            }
            return true;
        }
        i += 1;
    }
    false
}

/// The phase a transaction is at once the limits are applied: past its
/// time budget it goes to Send; at Route with all attempts used it goes to
/// Send.
pub open spec fn spec_limited_phase(phase: Phase, attempt_count: u32, elapsed_ns: u64, limits: OrchestratorLimits) -> Phase {
    if elapsed_ns > limits.max_txn_duration_ms * 1_000_000 {
        Phase::Send
    } else if phase == Phase::Route && attempt_count >= limits.max_attempts {
        Phase::Send
    } else {
        phase
    }
}

/// Whether applying the limits forces a SERVFAIL answer.
pub open spec fn spec_limit_hit(phase: Phase, attempt_count: u32, elapsed_ns: u64, limits: OrchestratorLimits) -> bool {
    elapsed_ns > limits.max_txn_duration_ms * 1_000_000 || (phase == Phase::Route && attempt_count >= limits.max_attempts)
}

/// The next step from `phase`: limits apply, and phases without a stage are
/// skipped along `spec_next_phase` (limits apply again at each).
pub open spec fn spec_step(phase: Phase, attempt_count: u32, elapsed_ns: u64, limits: OrchestratorLimits, registered: Seq<Phase>) -> (Phase, RunStep)
    decreases spec_phase_rank(spec_limited_phase(phase, attempt_count, elapsed_ns, limits)),
{
    let p = spec_limited_phase(phase, attempt_count, elapsed_ns, limits);
    if registered.contains(p) {
        (p, RunStep::RunStage(p))
    } else if p == Phase::Send {
        (p, RunStep::Finish)
    } else {
        spec_step(spec_next_phase(p), attempt_count, elapsed_ns, limits, registered)
    }
}

/// The pipeline's phases in order.
pub open spec fn spec_pipeline() -> Seq<Phase> {
    seq![
        Phase::Parse,
        Phase::RequestRules,
        Phase::Route,
        Phase::Forward,
        Phase::WaitResponse,
        Phase::ResponseRules,
        Phase::Send,
    ]
}

/// Skipping never passes over a registered phase: within the limits, the
/// step from the `i`-th pipeline phase lands on a later (or the same)
/// pipeline phase with no registered phase in between; it runs that
/// phase's stage when it has one and otherwise finishes at Send.
pub proof fn lemma_step_is_first_registered(
    i: int,
    attempt_count: u32,
    elapsed_ns: u64,
    limits: OrchestratorLimits,
    registered: Seq<Phase>,
)
    requires
        0 <= i < 7,
        elapsed_ns <= limits.max_txn_duration_ms * 1_000_000,
        attempt_count < limits.max_attempts,
    ensures
        exists|j: int| #![trigger spec_pipeline()[j]]
            i <= j < 7 && spec_step(spec_pipeline()[i], attempt_count, elapsed_ns, limits, registered).0 == spec_pipeline()[j]
            && (forall|k: int| i <= k < j ==> !registered.contains(#[trigger] spec_pipeline()[k]))
            && (registered.contains(spec_pipeline()[j])
                ==> spec_step(spec_pipeline()[i], attempt_count, elapsed_ns, limits, registered).1
                    == RunStep::RunStage(spec_pipeline()[j]))
            && (!registered.contains(spec_pipeline()[j]) ==> j == 6
                && spec_step(spec_pipeline()[i], attempt_count, elapsed_ns, limits, registered).1 == RunStep::Finish),
    decreases 7 - i,
{
    let p = spec_pipeline()[i];
    assert(spec_limited_phase(p, attempt_count, elapsed_ns, limits) == p);
    if registered.contains(p) {
        assert(spec_pipeline()[i] == p);
    } else if p == Phase::Send {
        assert(i == 6);
        assert(spec_pipeline()[6] == p);
    } else {
        assert(i < 6);
        assert(spec_next_phase(p) == spec_pipeline()[i + 1]);
        lemma_step_is_first_registered(i + 1, attempt_count, elapsed_ns, limits, registered);
        let j = choose|j: int| #![trigger spec_pipeline()[j]]
            i + 1 <= j < 7 && spec_step(spec_pipeline()[i + 1], attempt_count, elapsed_ns, limits, registered).0 == spec_pipeline()[j]
            && (forall|k: int| i + 1 <= k < j ==> !registered.contains(#[trigger] spec_pipeline()[k]))
            && (registered.contains(spec_pipeline()[j])
                ==> spec_step(spec_pipeline()[i + 1], attempt_count, elapsed_ns, limits, registered).1
                    == RunStep::RunStage(spec_pipeline()[j]))
            && (!registered.contains(spec_pipeline()[j]) ==> j == 6
                && spec_step(spec_pipeline()[i + 1], attempt_count, elapsed_ns, limits, registered).1 == RunStep::Finish);
        assert(spec_pipeline()[j] == spec_pipeline()[j]);
        assert forall|k: int| i <= k < j implies !registered.contains(#[trigger] spec_pipeline()[k]) by {
            if k == i {
                assert(spec_pipeline()[k] == p);
            }
        }
    }
}

/// Whether a SERVFAIL is forced on the way to the next step.
pub open spec fn spec_step_forces_servfail(phase: Phase, attempt_count: u32, elapsed_ns: u64, limits: OrchestratorLimits, registered: Seq<Phase>) -> bool
    decreases spec_phase_rank(spec_limited_phase(phase, attempt_count, elapsed_ns, limits)),
{
    let p = spec_limited_phase(phase, attempt_count, elapsed_ns, limits);
    if spec_limit_hit(phase, attempt_count, elapsed_ns, limits) {
        true
    } else if registered.contains(p) || p == Phase::Send {
        false
    } else {
        spec_step_forces_servfail(spec_next_phase(p), attempt_count, elapsed_ns, limits, registered)
    }
}

/// Decide what the run does next, `elapsed_ns` nanoseconds after the
/// transaction
/// started (over its duration budget exactly when more than the budget's
/// milliseconds have passed), given the phases that have a stage. The transaction's phase
/// moves to the phase of the step, and a limit that forces the answer sets
/// rcode SERVFAIL.
pub fn next_step(txn: &mut Transaction, elapsed_ns: u64, limits: OrchestratorLimits, registered: &Vec<Phase>) -> (r: RunStep)
    ensures
        (final(txn).current_phase, r) == spec_step(
            old(txn).current_phase,
            old(txn).attempt_count,
            elapsed_ns,
            limits,
            registered@,
        ),
        spec_step_forces_servfail(old(txn).current_phase, old(txn).attempt_count, elapsed_ns, limits, registered@)
            ==> final(txn).rcode == Some(RCODE_SERVFAIL),
        !spec_step_forces_servfail(old(txn).current_phase, old(txn).attempt_count, elapsed_ns, limits, registered@)
            ==> final(txn).rcode == old(txn).rcode,
        final(txn).attempt_count == old(txn).attempt_count,
        final(txn).response_wire == old(txn).response_wire,
{
    loop
        invariant
            txn.attempt_count == old(txn).attempt_count,
            txn.response_wire == old(txn).response_wire,
            spec_step(old(txn).current_phase, old(txn).attempt_count, elapsed_ns, limits, registered@)
                == spec_step(txn.current_phase, txn.attempt_count, elapsed_ns, limits, registered@),
            spec_step_forces_servfail(old(txn).current_phase, old(txn).attempt_count, elapsed_ns, limits, registered@)
                == (txn.rcode != old(txn).rcode && txn.rcode == Some(RCODE_SERVFAIL)
                    || spec_step_forces_servfail(txn.current_phase, txn.attempt_count, elapsed_ns, limits, registered@)),
            txn.rcode != old(txn).rcode ==> txn.rcode == Some(RCODE_SERVFAIL),
        decreases spec_phase_rank(txn.current_phase) + 1,
    {
        if (elapsed_ns as u128) > (limits.max_txn_duration_ms as u128) * 1_000_000u128 {
            txn.set_rcode(RCODE_SERVFAIL);
            txn.current_phase = Phase::Send;
        }
        if txn.current_phase == Phase::Route && txn.attempt_count >= limits.max_attempts {
            txn.set_rcode(RCODE_SERVFAIL);
            txn.current_phase = Phase::Send;
        }
        if has_stage(registered, txn.current_phase) {
            return RunStep::RunStage(txn.current_phase);
        }
        if txn.current_phase == Phase::Send {
            return RunStep::Finish;
        }
        txn.current_phase = next_phase(txn.current_phase);
    }
}

/// Start a run on snapshot generation `generation`: the transaction is
/// stamped with the generation and enters the Parse phase.
pub fn begin_run(txn: &mut Transaction, generation: u64)
    ensures
        *final(txn) == (Transaction { snapshot_generation: generation, current_phase: Phase::Parse, ..*old(txn) }),
{
    txn.snapshot_generation = generation;
    txn.current_phase = Phase::Parse;
}

/// Apply a stage's outcome: a drop ends the run; a continue moves to the
/// given phase, and the run ends when the stage that ran was Send.
pub fn apply_stage_outcome(txn: &mut Transaction, phase: Phase, outcome: StageOutcome) -> (r: Option<RunOutcome>)
    ensures
        outcome is Drop ==> r == Some(RunOutcome::Dropped) && final(txn).current_phase == old(txn).current_phase,
        outcome matches StageOutcome::Continue(next) ==> final(txn).current_phase == next && (r is None <==> phase
            != Phase::Send),
        outcome matches StageOutcome::Continue(next) && phase == Phase::Send ==> (r matches Some(o) && (match o {
            RunOutcome::Response(w) => old(txn).response_wire matches Some(x) && w@ == x@,
            RunOutcome::Dropped => old(txn).response_wire is None,
        })),
        final(txn).response_wire == old(txn).response_wire,
        final(txn).attempt_count == old(txn).attempt_count,
{
    match outcome {
        StageOutcome::Drop => Some(RunOutcome::Dropped),
        StageOutcome::Continue(next) => {
            txn.current_phase = next;
            if phase == Phase::Send {
                Some(finish_outcome(txn))
            } else {
                None
            }
        },
    }
}

/// How a finished run ends: with the response wire when there is one.
pub fn finish_outcome(txn: &Transaction) -> (r: RunOutcome)
    ensures
        match r {
            RunOutcome::Response(w) => txn.response_wire matches Some(x) && w@ == x@,
            RunOutcome::Dropped => txn.response_wire is None,
        },
{
    match &txn.response_wire {
        Some(w) => {
            let c = w.clone();
            proof {
                assert(c@ =~= w@);
            }
            RunOutcome::Response(c)
        },
        None => RunOutcome::Dropped,
    }
}

} // verus!
