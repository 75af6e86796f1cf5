use conduit_core::net::SockAddr;
use conduit_core::orchestrator::{
    apply_stage_outcome, finish_outcome, next_phase, next_step, phase_name, OrchestratorLimits,
    RunOutcome, RunStep, RCODE_SERVFAIL,
};
use conduit_core::phase::Phase;
use conduit_core::pipeline::StageOutcome;
use conduit_core::transaction::{ClientProtocol, Transaction};

fn txn() -> Transaction {
    Transaction::new(1, SockAddr::v4(127, 0, 0, 1, 53), ClientProtocol::Udp)
}

fn all_stages() -> Vec<Phase> {
    vec![Phase::Parse, Phase::RequestRules, Phase::Route, Phase::Forward, Phase::WaitResponse, Phase::ResponseRules, Phase::Send]
}

#[test]
fn limits_default_to_three_attempts_and_five_seconds() {
    let l = OrchestratorLimits::from_config(None, None);
    assert_eq!((l.max_attempts, l.max_txn_duration_ms), (3, 5000));
    let l = OrchestratorLimits::from_config(Some(1), Some(10));
    assert_eq!((l.max_attempts, l.max_txn_duration_ms), (1, 10));
}

#[test]
fn phases_without_a_stage_are_skipped() {
    let mut t = txn();
    t.current_phase = Phase::Parse;
    let limits = OrchestratorLimits::from_config(None, None);
    let registered = vec![Phase::Route];
    assert_eq!(next_step(&mut t, 0, limits, &registered), RunStep::RunStage(Phase::Route));
    assert_eq!(t.current_phase, Phase::Route);
    t.current_phase = Phase::Forward;
    assert_eq!(next_step(&mut t, 0, limits, &registered), RunStep::Finish);
    assert_eq!(t.current_phase, Phase::Send);
    assert_eq!(t.rcode(), None);
}

#[test]
fn upstream_timeout_path_returns_servfail() {
    let mut t = txn();
    t.current_phase = Phase::Forward;
    let limits = OrchestratorLimits::from_config(None, Some(100));
    assert_eq!(next_step(&mut t, 101_000_000, limits, &all_stages()), RunStep::RunStage(Phase::Send));
    assert_eq!(t.rcode(), Some(RCODE_SERVFAIL));
}

#[test]
fn attempts_exhausted_at_route_answers_servfail() {
    let mut t = txn();
    t.current_phase = Phase::Route;
    t.attempt_count = 3;
    let limits = OrchestratorLimits::from_config(None, None);
    assert_eq!(next_step(&mut t, 0, limits, &all_stages()), RunStep::RunStage(Phase::Send));
    assert_eq!(t.rcode(), Some(RCODE_SERVFAIL));
    let mut fresh = txn();
    fresh.current_phase = Phase::Route;
    fresh.attempt_count = 2;
    assert_eq!(next_step(&mut fresh, 0, limits, &all_stages()), RunStep::RunStage(Phase::Route));
    assert_eq!(fresh.rcode(), None);
}

#[test]
fn stage_outcomes_end_or_continue_the_run() {
    let mut t = txn();
    assert_eq!(apply_stage_outcome(&mut t, Phase::Parse, StageOutcome::Drop), Some(RunOutcome::Dropped));
    assert_eq!(apply_stage_outcome(&mut t, Phase::Parse, StageOutcome::Continue(Phase::RequestRules)), None);
    assert_eq!(t.current_phase, Phase::RequestRules);
    t.response_wire = Some(vec![1, 2, 3]);
    assert_eq!(
        apply_stage_outcome(&mut t, Phase::Send, StageOutcome::Continue(Phase::Send)),
        Some(RunOutcome::Response(vec![1, 2, 3]))
    );
    t.response_wire = None;
    assert_eq!(finish_outcome(&t), RunOutcome::Dropped);
}

#[test]
fn phase_names_and_order() {
    assert_eq!(phase_name(Phase::WaitResponse), "wait_response");
    assert_eq!(phase_name(Phase::Lookup), "lookup");
    assert_eq!(next_phase(Phase::Receive), Phase::Parse);
    assert_eq!(next_phase(Phase::ResponseRules), Phase::Send);
    assert_eq!(next_phase(Phase::Send), Phase::Send);
}

#[test]
fn duration_budget_is_exceeded_only_past_the_last_nanosecond() {
    let limits = OrchestratorLimits::from_config(None, Some(100));
    let mut at = txn();
    at.current_phase = Phase::Forward;
    assert_eq!(next_step(&mut at, 100_000_000, limits, &all_stages()), RunStep::RunStage(Phase::Forward));
    assert_eq!(at.rcode(), None);
    let mut past = txn();
    past.current_phase = Phase::Forward;
    assert_eq!(next_step(&mut past, 100_000_001, limits, &all_stages()), RunStep::RunStage(Phase::Send));
    assert_eq!(past.rcode(), Some(RCODE_SERVFAIL));
}
