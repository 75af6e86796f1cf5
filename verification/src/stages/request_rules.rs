//! RequestRules hook: the first matching request rule's actions, then on
//! to Lookup unless the rule dropped the query.

use vstd::prelude::*;
use crate::phase::Phase;
use crate::pipeline::StageOutcome;
use crate::rules::{
    builtin_only, rule_view, spec_first_rule, spec_run_from, CompiledRules, RuleHook, RuleOutcome, RuleProgress,
};
use crate::transaction::Transaction;

verus! {

/// The outcome a rule evaluation ends with: that of the first matching
/// rule run from its first action, `Continue` when no rule matches.
pub open spec fn spec_eval_outcome(rules: CompiledRules, hook: RuleHook, matched: Seq<bool>, txn: Transaction) -> RuleOutcome {
    match spec_first_rule(rules.rules@, hook, matched) {
        None => RuleOutcome::Continue,
        Some(i) => match spec_run_from(rules.rules@[i].actions@, 0, rule_view(txn), false).1 {
            RuleProgress::Finished(o) => o,
            _ => RuleOutcome::Continue,
        },
    }
}

/// Where the pipeline goes after request rules.
pub open spec fn spec_request_next(o: RuleOutcome) -> StageOutcome {
    match o {
        RuleOutcome::Drop => StageOutcome::Drop,
        _ => StageOutcome::Continue(Phase::Lookup),
    }
}

/// The RequestRules stage.
pub struct RequestRulesStage;

impl RequestRulesStage {
    /// Evaluate the request rules (`matched[i]`: rule `i`'s selectors match
    /// the transaction) and continue to Lookup, or drop.
    pub fn handle(&self, rules: &CompiledRules, txn: &mut Transaction, matched: &Vec<bool>) -> (r: StageOutcome)
        requires
            matched@.len() == rules.rules@.len(),
            spec_first_rule(rules.rules@, RuleHook::Request, matched@) matches Some(i) ==> builtin_only(
                rules.rules@[i].actions@,
            ),
        ensures
            r == spec_request_next(spec_eval_outcome(*rules, RuleHook::Request, matched@, *old(txn))),
            spec_first_rule(rules.rules@, RuleHook::Request, matched@) is None ==> *final(txn) == *old(txn),
            spec_first_rule(rules.rules@, RuleHook::Request, matched@) matches Some(i) ==> rule_view(*final(txn))
                == spec_run_from(rules.rules@[i].actions@, 0, rule_view(*old(txn)), false).0,
    {
        let result = rules.eval(RuleHook::Request, txn, matched);
        match result.outcome {
            RuleOutcome::Drop => StageOutcome::Drop,
            RuleOutcome::Continue | RuleOutcome::Retry => StageOutcome::Continue(Phase::Lookup),
        }
    }
}

} // verus!
