use conduit_core::net::SockAddr;
use conduit_core::phase::Phase;
use conduit_core::pipeline::StageOutcome;
use conduit_core::rules::{ActionSpec, ActionValue, CompiledRules, RuleSpec};
use conduit_core::stages::request_rules::RequestRulesStage;
use conduit_core::stages::response_rules::ResponseRulesStage;
use conduit_core::transaction::{ClientProtocol, Transaction};

fn act(kind: &str, value: &str) -> ActionSpec {
    ActionSpec { kind: kind.into(), value: value.into(), parsed: ActionValue::Text }
}

fn rules(hook: &str, actions: Vec<ActionSpec>) -> CompiledRules {
    let specs = vec![RuleSpec { name: "r".into(), hook: hook.into(), actions }];
    CompiledRules::compile(Some(&specs), &vec![vec![]])
}

fn txn() -> Transaction {
    Transaction::new(1, SockAddr::v4(127, 0, 0, 1, 53), ClientProtocol::Udp)
}

#[test]
fn request_rules_continue_to_lookup() {
    let r = rules("request", vec![act("set_pool", "secondary")]);
    let mut t = txn();
    assert_eq!(RequestRulesStage.handle(&r, &mut t, &vec![true]), StageOutcome::Continue(Phase::Lookup));
    assert_eq!(t.selected_pool.as_deref(), Some("secondary"));
}

#[test]
fn request_rules_drop() {
    let r = rules("request", vec![act("drop", "")]);
    let mut t = txn();
    assert_eq!(RequestRulesStage.handle(&r, &mut t, &vec![true]), StageOutcome::Drop);
}

#[test]
fn request_rules_without_match_leave_transaction() {
    let r = rules("request", vec![act("drop", "")]);
    let mut t = txn();
    assert_eq!(RequestRulesStage.handle(&r, &mut t, &vec![false]), StageOutcome::Continue(Phase::Lookup));
    assert!(!t.dropped);
}

#[test]
fn response_rules_retry_goes_back_to_route() {
    let r = rules("response", vec![act("retry", "")]);
    let mut t = txn();
    t.selected_pool = Some("primary".into());
    assert_eq!(ResponseRulesStage.handle(&r, &mut t, &vec![true]), StageOutcome::Continue(Phase::Route));
}

#[test]
fn response_rules_continue_to_send_or_drop() {
    let r = rules("response", vec![act("set_pool", "x")]);
    let mut t = txn();
    assert_eq!(ResponseRulesStage.handle(&r, &mut t, &vec![true]), StageOutcome::Continue(Phase::Send));
    let r = rules("response", vec![act("drop", "")]);
    let mut t = txn();
    assert_eq!(ResponseRulesStage.handle(&r, &mut t, &vec![true]), StageOutcome::Drop);
}
