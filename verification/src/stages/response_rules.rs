//! ResponseRules hook: the first matching response rule's actions, then
//! Send, back to Route on a retry, or drop.

use vstd::prelude::*;
use crate::phase::Phase;
use crate::pipeline::StageOutcome;
use crate::rules::{builtin_only, rule_view, spec_first_rule, spec_run_from, CompiledRules, RuleHook, RuleOutcome};
use crate::stages::request_rules::spec_eval_outcome;
use crate::transaction::Transaction;

verus! {

/// Where the pipeline goes after response rules.
pub open spec fn spec_response_next(o: RuleOutcome) -> StageOutcome {
    match o {
        RuleOutcome::Retry => StageOutcome::Continue(Phase::Route),
        RuleOutcome::Drop => StageOutcome::Drop,
        RuleOutcome::Continue => StageOutcome::Continue(Phase::Send),
    }
}

/// The ResponseRules stage.
pub struct ResponseRulesStage;

impl ResponseRulesStage {
    /// Evaluate the response rules (`matched[i]`: rule `i`'s selectors match
    /// the transaction): a retry goes back to Route, a drop drops, anything
    /// else continues to Send.
    pub fn handle(&self, rules: &CompiledRules, txn: &mut Transaction, matched: &Vec<bool>) -> (r: StageOutcome)
        requires
            matched@.len() == rules.rules@.len(),
            spec_first_rule(rules.rules@, RuleHook::Response, matched@) matches Some(i) ==> builtin_only(
                rules.rules@[i].actions@,
            ),
        ensures
            r == spec_response_next(spec_eval_outcome(*rules, RuleHook::Response, matched@, *old(txn))),
            spec_first_rule(rules.rules@, RuleHook::Response, matched@) is None ==> *final(txn) == *old(txn),
            spec_first_rule(rules.rules@, RuleHook::Response, matched@) matches Some(i) ==> rule_view(*final(txn))
                == spec_run_from(rules.rules@[i].actions@, 0, rule_view(*old(txn)), false).0,
    {
        let result = rules.eval(RuleHook::Response, txn, matched);
        match result.outcome {
            RuleOutcome::Retry => StageOutcome::Continue(Phase::Route),
            RuleOutcome::Drop => StageOutcome::Drop,
            RuleOutcome::Continue => StageOutcome::Continue(Phase::Send),
        }
    }
}

} // verus!
