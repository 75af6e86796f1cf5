use conduit_core::net::SockAddr;
use conduit_core::rules::{
    ActionSpec, ActionValue, AfterScript, CompiledRules, RuleEvalResult, RuleHook, RuleOutcome,
    RuleProgress, RuleSpec, ScriptRunOutcome,
};
use conduit_core::transaction::{ClientProtocol, Transaction};

fn act(kind: &str, value: &str) -> ActionSpec {
    ActionSpec { kind: kind.into(), value: value.into(), parsed: ActionValue::Text }
}

/// The address bits of a dotted IPv4 literal.
fn ip4(text: &str) -> u32 {
    text.split('.').fold(0u32, |acc, part| (acc << 8) | part.parse::<u32>().unwrap())
}

fn v4(kind: &str, value: &str) -> ActionSpec {
    ActionSpec { kind: kind.into(), value: value.into(), parsed: ActionValue::Ipv4(ip4(value)) }
}

fn compile_hook_rule(hook: &str, actions: Vec<ActionSpec>) -> CompiledRules {
    let rules = vec![RuleSpec { name: "test".into(), hook: hook.into(), actions }];
    CompiledRules::compile(Some(&rules), &vec![vec![]])
}

fn compile_request_rule(actions: Vec<ActionSpec>) -> CompiledRules {
    compile_hook_rule("request", actions)
}

fn compile_response_rule(actions: Vec<ActionSpec>) -> CompiledRules {
    compile_hook_rule("response", actions)
}

fn txn() -> Transaction {
    Transaction::new(1, SockAddr::v4(127, 0, 0, 1, 53), ClientProtocol::Udp)
}

fn eval_request(rules: &CompiledRules, txn: &mut Transaction) -> RuleEvalResult {
    rules.eval(RuleHook::Request, txn, &vec![true; rules.rules.len()])
}

fn eval_response(rules: &CompiledRules, txn: &mut Transaction) -> RuleEvalResult {
    rules.eval(RuleHook::Response, txn, &vec![true; rules.rules.len()])
}

#[test]
fn set_source_v4_action_sets_override() {
    let rules = compile_request_rule(vec![v4("set_source_v4", "10.0.0.5")]);
    let mut txn = txn();
    eval_request(&rules, &mut txn);
    assert_eq!(txn.source_override_v4, Some(ip4("10.0.0.5")));
}

#[test]
fn retry_action_requests_route_without_pool() {
    let rules = compile_response_rule(vec![act("retry", "")]);
    let mut txn = txn();
    txn.selected_pool = Some("primary".into());
    txn.set_rcode(2);
    let result = eval_response(&rules, &mut txn);
    assert_eq!(result.outcome, RuleOutcome::Retry);
    assert!(txn.retry_pool.is_none());
}

#[test]
fn set_pool_before_set_source_applies_in_order() {
    let rules = compile_request_rule(vec![act("set_pool", "internal"), v4("set_source_v4", "192.0.2.1")]);
    let mut txn = txn();
    eval_request(&rules, &mut txn);
    assert_eq!(txn.selected_pool.as_deref(), Some("internal"));
    assert_eq!(txn.source_override_v4, Some(ip4("192.0.2.1")));
}

#[test]
fn set_retry_pool_stashes_without_retry() {
    for hook in ["request", "response"] {
        let rules = compile_hook_rule(hook, vec![act("set_retry_pool", "secondary")]);
        let mut txn = txn();
        let result = if hook == "request" { eval_request(&rules, &mut txn) } else { eval_response(&rules, &mut txn) };
        assert_eq!(result.outcome, RuleOutcome::Continue, "hook={hook}");
        assert_eq!(txn.retry_pool.as_deref(), Some("secondary"));
    }
}

#[test]
fn set_retry_pool_then_retry_on_response() {
    let rules = compile_response_rule(vec![act("set_retry_pool", "secondary"), act("retry", "")]);
    let mut txn = txn();
    let result = eval_response(&rules, &mut txn);
    assert_eq!(result.outcome, RuleOutcome::Retry);
    assert_eq!(txn.retry_pool.as_deref(), Some("secondary"));
}

#[test]
fn retry_now_short_circuits_remaining_actions() {
    let rules = compile_response_rule(vec![act("retry_now", ""), act("set_tag", "skipped=true")]);
    let mut txn = txn();
    let result = eval_response(&rules, &mut txn);
    assert_eq!(result.outcome, RuleOutcome::Retry);
    assert!(!txn.tags.has("skipped"));
}

#[test]
fn soft_drop_wins_over_retry_now() {
    let rules = compile_response_rule(vec![act("drop", ""), act("retry_now", "")]);
    let mut txn = txn();
    let result = eval_response(&rules, &mut txn);
    assert_eq!(result.outcome, RuleOutcome::Drop);
}

#[test]
fn soft_drop_continues_then_resolves_at_end() {
    let rules = compile_request_rule(vec![act("drop", ""), act("set_tag", "audited=true")]);
    let mut txn = txn();
    let result = eval_request(&rules, &mut txn);
    assert_eq!(result.outcome, RuleOutcome::Drop);
    assert!(txn.tags.has("audited"));
}

#[test]
fn clear_drop_cancels_soft_drop() {
    let rules = compile_request_rule(vec![act("drop", ""), act("clear_drop", "")]);
    let mut txn = txn();
    let result = eval_request(&rules, &mut txn);
    assert_eq!(result.outcome, RuleOutcome::Continue);
    assert!(!txn.soft_drop);
}

#[test]
fn clear_retry_cancels_soft_retry() {
    let rules = compile_response_rule(vec![act("retry", ""), act("clear_retry", "")]);
    let mut txn = txn();
    let result = eval_response(&rules, &mut txn);
    assert_eq!(result.outcome, RuleOutcome::Continue);
}

#[test]
fn clear_retry_pool_clears_stash_not_retry_intent() {
    let rules = compile_response_rule(vec![
        act("set_retry_pool", "secondary"),
        act("retry", ""),
        act("clear_retry_pool", ""),
    ]);
    let mut txn = txn();
    let result = eval_response(&rules, &mut txn);
    assert_eq!(result.outcome, RuleOutcome::Retry);
    assert!(txn.retry_pool.is_none());
}

#[test]
fn clear_pool_then_set_pool_wins() {
    let rules = compile_request_rule(vec![act("clear_pool", ""), act("set_pool", "b")]);
    let mut txn = txn();
    txn.selected_pool = Some("a".into());
    eval_request(&rules, &mut txn);
    assert_eq!(txn.selected_pool.as_deref(), Some("b"));
}

#[test]
fn clear_pool_clears_selected_pool() {
    let rules = compile_request_rule(vec![act("clear_pool", "")]);
    let mut txn = txn();
    txn.selected_pool = Some("a".into());
    eval_request(&rules, &mut txn);
    assert!(txn.selected_pool.is_none());
}

#[test]
fn set_retry_source_v4_stashes_without_consuming() {
    let rules = compile_request_rule(vec![v4("set_retry_source_v4", "10.0.0.9")]);
    let mut txn = txn();
    eval_request(&rules, &mut txn);
    let want = ip4("10.0.0.9");
    assert_eq!(txn.retry_source_override_v4, Some(want));
    txn.attempt_count = 1;
    assert_eq!(txn.take_effective_source_override_v4(), None);
    assert_eq!(txn.retry_source_override_v4, Some(want));
}

#[test]
fn clear_retry_source_v4_clears_stash() {
    let rules = compile_request_rule(vec![v4("set_retry_source_v4", "10.0.0.9"), act("clear_retry_source_v4", "")]);
    let mut txn = txn();
    eval_request(&rules, &mut txn);
    assert!(txn.retry_source_override_v4.is_none());
}

#[test]
fn drop_now_short_circuits_remaining_actions() {
    let rules = compile_request_rule(vec![act("drop_now", ""), act("set_tag", "after=true")]);
    let mut txn = txn();
    let result = eval_request(&rules, &mut txn);
    assert_eq!(result.outcome, RuleOutcome::Drop);
    assert!(!txn.tags.has("after"));
}

#[test]
fn drop_wins_over_retry_at_end() {
    let rules = compile_response_rule(vec![act("retry", ""), act("drop", "")]);
    let mut txn = txn();
    let result = eval_response(&rules, &mut txn);
    assert_eq!(result.outcome, RuleOutcome::Drop);
}

#[test]
fn clear_tag_after_set_tag_removes_tag() {
    let rules = compile_request_rule(vec![act("set_tag", "vip"), act("clear_tag", "vip")]);
    let mut txn = txn();
    eval_request(&rules, &mut txn);
    assert!(!txn.tags.has("vip"));
}

#[test]
fn set_tag_without_equals_sets_true() {
    let rules = compile_request_rule(vec![act("set_tag", "vip"), act("set_tag", "tier=gold=1")]);
    let mut txn = txn();
    eval_request(&rules, &mut txn);
    let (_, strings) = txn.tags.export_all_tags();
    assert!(strings.contains(&("vip".to_string(), "true".to_string())));
    assert!(strings.contains(&("tier".to_string(), "gold=1".to_string())));
}

#[test]
fn set_rcode_action_sets_rcode() {
    let rules = compile_request_rule(vec![ActionSpec { kind: "set_rcode".into(), value: "REFUSED".into(), parsed: ActionValue::Rcode(5) }]);
    let mut txn = txn();
    eval_request(&rules, &mut txn);
    assert_eq!(txn.rcode(), Some(5));
}

#[test]
fn first_matching_rule_of_the_hook_runs() {
    let rules = vec![
        RuleSpec { name: "resp".into(), hook: "response".into(), actions: vec![act("set_pool", "r")] },
        RuleSpec { name: "skip".into(), hook: "request".into(), actions: vec![act("set_pool", "s")] },
        RuleSpec { name: "hit".into(), hook: "request".into(), actions: vec![act("set_pool", "h")] },
        RuleSpec { name: "late".into(), hook: "request".into(), actions: vec![act("set_pool", "l")] },
    ];
    let compiled = CompiledRules::compile(Some(&rules), &vec![vec![], vec![], vec![], vec![]]);
    let mut txn = txn();
    let result = compiled.eval(RuleHook::Request, &mut txn, &vec![true, false, true, true]);
    assert_eq!(result.matched_rule_name.as_deref(), Some("hit"));
    assert_eq!(txn.selected_pool.as_deref(), Some("h"));

    let mut other = self::txn();
    let none = compiled.eval(RuleHook::Request, &mut other, &vec![true, false, false, false]);
    assert_eq!(none, RuleEvalResult { outcome: RuleOutcome::Continue, matched_rule_name: None });
    assert!(other.selected_pool.is_none());
    assert!(CompiledRules::compile(None, &vec![]).rules.is_empty());
}

#[test]
fn script_actions_pause_and_resume() {
    let rules = vec![RuleSpec {
        name: "scripted".into(),
        hook: "response".into(),
        actions: vec![act("set_pool", "a"), act("rhai", ""), act("set_tag", "after")],
    }];
    let compiled = CompiledRules::compile(Some(&rules), &vec![vec![7]]);
    let rule = &compiled.rules[0];
    let mut txn = txn();
    let progress = rule.run_from(&mut txn, 0, false);
    assert_eq!(progress, RuleProgress::RunScript { script_id: 7, next_action: 2, retry: false });
    assert_eq!(txn.selected_pool.as_deref(), Some("a"));

    match rule.after_script(&txn, 2, false, ScriptRunOutcome::Retry, false) {
        AfterScript::Resume { next_action, retry } => {
            assert_eq!((next_action, retry), (2, true));
            assert_eq!(rule.run_from(&mut txn, next_action, retry), RuleProgress::Finished(RuleOutcome::Retry));
            assert!(txn.tags.has("after"));
        }
        other => panic!("unexpected {other:?}"),
    }
    assert_eq!(rule.after_script(&txn, 2, false, ScriptRunOutcome::DropNow, false), AfterScript::Finish(RuleOutcome::Drop));
    assert_eq!(rule.after_script(&txn, 2, true, ScriptRunOutcome::Success, true), AfterScript::Resume { next_action: 2, retry: false });
    assert_eq!(rule.after_script(&txn, 2, true, ScriptRunOutcome::Error, false), AfterScript::Finish(RuleOutcome::Retry));
}
