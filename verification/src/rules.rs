//! Selector/action rules compiled at snapshot build and run against a
//! transaction at the request and response hooks.
//!
//! Selector matching and Rhai scripts are evaluated by the caller: `eval`
//! takes whether each rule's selectors match, and a rule that reaches a
//! script action pauses with `RuleProgress::RunScript` until the caller
//! reports the script's outcome through `after_script`.

use vstd::prelude::*;
use crate::text::{owned, split_once_char, spec_first_index, str_eq};
use crate::transaction::{TagSet, Transaction};

verus! {

#[derive(Debug, Clone, Copy, PartialEq, Eq, Structural)]
pub enum MatchMode {
    FirstMatch,
}

#[derive(Debug, Clone, Copy, PartialEq, Eq, Structural)]
pub enum RuleHook {
    Request,
    Response,
}

/// One compiled rule action.
#[derive(Debug, Clone)]
pub enum CompiledAction {
    SetPool(String),
    SetTag { key: String, value: String },
    /// Pool for the retry Route if a retry occurs; the first Route ignores it.
    SetRetryPool(String),
    /// Soft retry: the remaining actions of the rule still run.
    Retry,
    /// Hard retry: stop the rule's remaining actions (a soft drop still wins).
    RetryNow,
    /// Soft drop: the remaining actions of the rule still run.
    Drop,
    /// Hard drop: stop the rule's remaining actions.
    DropNow,
    /// Clear the soft-drop intent set earlier.
    ClearDrop,
    /// Clear the soft-retry intent set earlier on this rule.
    ClearRetry,
    /// Clear `retry_pool` on the transaction.
    ClearRetryPool,
    /// Clear `selected_pool` so Route uses the default pool.
    ClearPool,
    /// Remove a tag (flag and string) from the transaction.
    ClearTag(String),
    SetRcode(u16),
    SetSourceV4(u32),
    SetSourceV6(u128),
    /// One-shot IPv4 egress for the next retry forward.
    SetRetrySourceV4(u32),
    /// One-shot IPv6 egress for the next retry forward.
    SetRetrySourceV6(u128),
    ClearRetrySourceV4,
    ClearRetrySourceV6,
    Rhai { script_id: usize },
}

/// A compiled rule. Its selectors are matched by the caller of `eval`.
#[derive(Debug, Clone)]
pub struct CompiledRule {
    pub name: String,
    pub hook: RuleHook,
    pub actions: Vec<CompiledAction>,
}

#[derive(Debug, Clone)]
pub struct CompiledRules {
    pub match_mode: MatchMode,
    pub rules: Vec<CompiledRule>,
}

#[derive(Debug, Clone, Copy, PartialEq, Eq, Structural)]
pub enum RuleOutcome {
    Continue,
    Drop,
    Retry,
}

#[derive(Debug, PartialEq, Eq)]
pub struct RuleEvalResult {
    pub outcome: RuleOutcome,
    pub matched_rule_name: Option<String>,
}

/// How a script action ended, as the script host reports it.
#[derive(Debug, Clone, Copy, PartialEq, Eq, Structural)]
pub enum ScriptRunOutcome {
    Success,
    Drop,
    DropNow,
    Retry,
    RetryNow,
    Error,
}

/// Where a rule's execution stands.
#[derive(Debug, Clone, Copy, PartialEq, Eq, Structural)]
pub enum RuleProgress {
    /// The rule is done with this outcome.
    Finished(RuleOutcome),
    /// The rule waits for script `script_id`; it resumes at `next_action`
    /// with the soft-retry intent `retry`.
    RunScript { script_id: usize, next_action: usize, retry: bool },
}

/// What a rule does after a script action.
#[derive(Debug, Clone, Copy, PartialEq, Eq, Structural)]
pub enum AfterScript {
    Finish(RuleOutcome),
    Resume { next_action: usize, retry: bool },
}

/// The transaction state rule actions read and write.
pub struct RuleView {
    pub selected_pool: Option<Seq<char>>,
    pub retry_pool: Option<Seq<char>>,
    pub tags: (Map<Seq<char>, bool>, Map<Seq<char>, Seq<char>>),
    pub soft_drop: bool,
    pub dropped: bool,
    pub rcode: Option<u16>,
    pub source_v4: Option<u32>,
    pub source_v6: Option<u128>,
    pub retry_source_v4: Option<u32>,
    pub retry_source_v6: Option<u128>,
}

pub open spec fn opt_view(s: Option<String>) -> Option<Seq<char>> {
    match s {
        Some(v) => Some(v@),
        None => None,
    }
}

pub open spec fn rule_view(t: Transaction) -> RuleView {
    RuleView {
        selected_pool: opt_view(t.selected_pool),
        retry_pool: opt_view(t.retry_pool),
        tags: t.tags@,
        soft_drop: t.soft_drop,
        dropped: t.dropped,
        rcode: t.rcode,
        source_v4: t.source_override_v4,
        source_v6: t.source_override_v6,
        retry_source_v4: t.retry_source_override_v4,
        retry_source_v6: t.retry_source_override_v6,
    }
}

/// A soft drop wins; else a soft retry; else continue.
pub open spec fn spec_final_outcome(soft_drop: bool, retry: bool) -> RuleOutcome {
    if soft_drop {
        RuleOutcome::Drop
    } else if retry {
        RuleOutcome::Retry
    } else {
        RuleOutcome::Continue
    }
}

/// Outcome of a hard retry: a soft drop still wins.
pub open spec fn spec_retry_outcome(soft_drop: bool) -> RuleOutcome {
    if soft_drop {
        RuleOutcome::Drop
    } else {
        RuleOutcome::Retry
    }
}

/// One built-in action: the new state, the new soft-retry intent, and the
/// outcome when the action stops the rule.
pub open spec fn spec_apply(a: CompiledAction, v: RuleView, retry: bool) -> (RuleView, bool, Option<RuleOutcome>) {
    match a {
        CompiledAction::SetPool(p) => (RuleView { selected_pool: Some(p@), ..v }, retry, None),
        CompiledAction::SetTag { key, value } => (
            RuleView { tags: (v.tags.0, v.tags.1.insert(key@, value@)), ..v },
            retry,
            None,
        ),
        CompiledAction::SetRetryPool(p) => (RuleView { retry_pool: Some(p@), ..v }, retry, None),
        CompiledAction::Retry => (v, true, None),
        CompiledAction::RetryNow => (v, retry, Some(spec_retry_outcome(v.soft_drop))),
        CompiledAction::Drop => (RuleView { soft_drop: true, ..v }, retry, None),
        CompiledAction::DropNow => (v, retry, Some(RuleOutcome::Drop)),
        CompiledAction::ClearDrop => (RuleView { soft_drop: false, dropped: false, ..v }, retry, None),
        CompiledAction::ClearRetry => (v, false, None),
        CompiledAction::ClearRetryPool => (RuleView { retry_pool: None, ..v }, retry, None),
        CompiledAction::ClearPool => (RuleView { selected_pool: None, ..v }, retry, None),
        CompiledAction::ClearTag(k) => (
            RuleView { tags: (v.tags.0.remove(k@), v.tags.1.remove(k@)), ..v },
            retry,
            None,
        ),
        CompiledAction::SetRcode(rc) => (RuleView { rcode: Some(rc), ..v }, retry, None),
        CompiledAction::SetSourceV4(a) => (RuleView { source_v4: Some(a), ..v }, retry, None),
        CompiledAction::SetSourceV6(a) => (RuleView { source_v6: Some(a), ..v }, retry, None),
        CompiledAction::SetRetrySourceV4(a) => (RuleView { retry_source_v4: Some(a), ..v }, retry, None),
        CompiledAction::SetRetrySourceV6(a) => (RuleView { retry_source_v6: Some(a), ..v }, retry, None),
        CompiledAction::ClearRetrySourceV4 => (RuleView { retry_source_v4: None, ..v }, retry, None),
        CompiledAction::ClearRetrySourceV6 => (RuleView { retry_source_v6: None, ..v }, retry, None),
        CompiledAction::Rhai { .. } => (v, retry, None),
    }
}

/// Each `set_*` action writes its own field and nothing else: the source
/// overrides for the first forward and for a retry, and the selected and
/// retry pools, are set only by their own actions, none of which stops the
/// rule or touches the retry intent.
pub proof fn lemma_set_actions_write_own_field(v: RuleView, retry: bool, a4: u32, a6: u128, p: String)
    ensures
        ({
            let (w, r, o) = spec_apply(CompiledAction::SetSourceV6(a6), v, retry);
            &&& w.source_v6 == Some(a6) && w.retry_source_v6 == v.retry_source_v6
            &&& w.source_v4 == v.source_v4 && w.retry_source_v4 == v.retry_source_v4
            &&& w.selected_pool == v.selected_pool && w.retry_pool == v.retry_pool
            &&& r == retry && o is None
        }),
        ({
            let (w, r, o) = spec_apply(CompiledAction::SetRetrySourceV6(a6), v, retry);
            &&& w.retry_source_v6 == Some(a6) && w.source_v6 == v.source_v6
            &&& w.source_v4 == v.source_v4 && w.retry_source_v4 == v.retry_source_v4
            &&& r == retry && o is None
        }),
        ({
            let (w, r, o) = spec_apply(CompiledAction::SetSourceV4(a4), v, retry);
            &&& w.source_v4 == Some(a4) && w.retry_source_v4 == v.retry_source_v4
            &&& w.source_v6 == v.source_v6 && w.retry_source_v6 == v.retry_source_v6
            &&& r == retry && o is None
        }),
        ({
            let (w, r, o) = spec_apply(CompiledAction::SetRetrySourceV4(a4), v, retry);
            &&& w.retry_source_v4 == Some(a4) && w.source_v4 == v.source_v4
            &&& w.source_v6 == v.source_v6 && w.retry_source_v6 == v.retry_source_v6
            &&& r == retry && o is None
        }),
        ({
            let (w, r, o) = spec_apply(CompiledAction::SetPool(p), v, retry);
            &&& w.selected_pool == Some(p@) && w.retry_pool == v.retry_pool
            &&& r == retry && o is None
        }),
        ({
            let (w, r, o) = spec_apply(CompiledAction::SetRetryPool(p), v, retry);
            &&& w.retry_pool == Some(p@) && w.selected_pool == v.selected_pool
            &&& r == retry && o is None
        }),
{
}

/// Run the actions from position `i`: built-ins apply in order until one
/// stops the rule, the first script action pauses it, and after the last
/// action the final outcome applies.
pub open spec fn spec_run_from(actions: Seq<CompiledAction>, i: int, v: RuleView, retry: bool) -> (RuleView, RuleProgress)
    decreases actions.len() - i,
{
    if i < 0 || i >= actions.len() {
        (v, RuleProgress::Finished(spec_final_outcome(v.soft_drop, retry)))
    } else {
        match actions[i] {
            CompiledAction::Rhai { script_id } => (
                v,
                RuleProgress::RunScript { script_id, next_action: (i + 1) as usize, retry },
            ),
            a => {
                let (v2, r2, stop) = spec_apply(a, v, retry);
                match stop {
                    Some(o) => (v2, RuleProgress::Finished(o)),
                    None => spec_run_from(actions, i + 1, v2, r2),
                }
            },
        }
    }
}

/// Whether the actions hold no script action.
pub open spec fn builtin_only(actions: Seq<CompiledAction>) -> bool {
    forall|i: int| 0 <= i < actions.len() ==> !(#[trigger] actions[i] is Rhai)
}

pub proof fn lemma_builtin_only_finishes(actions: Seq<CompiledAction>, i: int, v: RuleView, retry: bool)
    requires
        builtin_only(actions),
        0 <= i,
    ensures
        spec_run_from(actions, i, v, retry).1 is Finished,
    decreases actions.len() - i,
{
    if i < actions.len() {
        assert(!(actions[i] is Rhai));
        let (v2, r2, stop) = spec_apply(actions[i], v, retry);
        if stop is None {
            lemma_builtin_only_finishes(actions, i + 1, v2, r2);
        }
    }
}

/// The rule's steps after a script action reports `outcome`: a hard drop
/// stops with `Drop`; a soft retry (response hook) sets the intent; a hard
/// retry (response hook) stops with the retry outcome; an error stops with
/// the final outcome; `Success` may clear the soft-retry intent.
pub open spec fn spec_after_script(
    hook: RuleHook,
    soft_drop: bool,
    next_action: usize,
    retry: bool,
    outcome: ScriptRunOutcome,
    clear_soft_retry: bool,
) -> AfterScript {
    match outcome {
        ScriptRunOutcome::DropNow => AfterScript::Finish(RuleOutcome::Drop),
        ScriptRunOutcome::Drop => AfterScript::Resume { next_action, retry },
        ScriptRunOutcome::Retry => AfterScript::Resume {
            next_action,
            retry: if hook == RuleHook::Response {
                true
            } else {
                retry
            },
        },
        ScriptRunOutcome::RetryNow => if hook == RuleHook::Response {
            AfterScript::Finish(spec_retry_outcome(soft_drop))
        } else {
            AfterScript::Resume { next_action, retry }
        },
        ScriptRunOutcome::Error => AfterScript::Finish(spec_final_outcome(soft_drop, retry)),
        ScriptRunOutcome::Success => AfterScript::Resume {
            next_action,
            retry: if clear_soft_retry {
                false
            } else {
                retry
            },
        },
    }
}

/// The index of the first rule of `hook` whose selectors match.
pub open spec fn spec_first_rule(rules: Seq<CompiledRule>, hook: RuleHook, matched: Seq<bool>) -> Option<int> {
    if exists|i: int| 0 <= i < rules.len() && rules[i].hook == hook && matched[i] {
        Some(
            choose|i: int|
                0 <= i < rules.len() && rules[i].hook == hook && matched[i] && forall|j: int|
                    0 <= j < i ==> !(rules[j].hook == hook && matched[j]),
        )
    } else {
        None
    }
}

impl CompiledRule {
    /// Apply one built-in action to the transaction.
    fn apply_builtin(&self, action: &CompiledAction, txn: &mut Transaction, retry: &mut bool) -> (r: Option<RuleOutcome>)
        requires
            !(action is Rhai),
        ensures
            (rule_view(*final(txn)), *final(retry), r) == spec_apply(*action, rule_view(*old(txn)), *old(retry)),
            final(txn).id == old(txn).id,
            final(txn).attempt_count == old(txn).attempt_count,
    {
        match action {
            CompiledAction::SetPool(p) => {
                txn.selected_pool = Some(p.clone());
            },
            CompiledAction::SetTag { key, value } => {
                txn.tags.set_string(key.as_str(), value.as_str());
            },
            CompiledAction::SetRetryPool(p) => {
                txn.retry_pool = Some(p.clone());
            },
            CompiledAction::Retry => {
                *retry = true;
            },
            CompiledAction::RetryNow => {
                return Some(self.retry_outcome(txn));
            },
            CompiledAction::Drop => {
                txn.set_soft_drop();
            },
            CompiledAction::DropNow => {
                return Some(RuleOutcome::Drop);
            },
            CompiledAction::ClearDrop => {
                txn.clear_soft_drop();
            },
            CompiledAction::ClearRetry => {
                *retry = false;
            },
            CompiledAction::ClearRetryPool => {
                txn.clear_retry_pool();
            },
            CompiledAction::ClearPool => {
                txn.clear_pool();
            },
            CompiledAction::ClearTag(key) => {
                txn.tags.clear(key.as_str());
            },
            CompiledAction::SetRcode(rc) => {
                txn.set_rcode(*rc);
            },
            CompiledAction::SetSourceV4(a) => {
                txn.set_source_override_v4(*a);
            },
            CompiledAction::SetSourceV6(a) => {
                txn.set_source_override_v6(*a);
            },
            CompiledAction::SetRetrySourceV4(a) => {
                txn.set_retry_source_override_v4(*a);
            },
            CompiledAction::SetRetrySourceV6(a) => {
                txn.set_retry_source_override_v6(*a);
            },
            CompiledAction::ClearRetrySourceV4 => {
                txn.clear_retry_source_override_v4();
            },
            CompiledAction::ClearRetrySourceV6 => {
                txn.clear_retry_source_override_v6();
            },
            CompiledAction::Rhai { .. } => {},
        }
        None
    }

    fn final_outcome(&self, txn: &Transaction, retry: bool) -> (r: RuleOutcome)
        ensures
            r == spec_final_outcome(txn.soft_drop, retry),
    {
        if txn.soft_drop {
            RuleOutcome::Drop
        } else if retry {
            RuleOutcome::Retry
        } else {
            RuleOutcome::Continue
        }
    }

    fn retry_outcome(&self, txn: &Transaction) -> (r: RuleOutcome)
        ensures
            r == spec_retry_outcome(txn.soft_drop),
    {
        if txn.soft_drop {
            RuleOutcome::Drop
        } else {
            RuleOutcome::Retry
        }
    }

    /// Run the rule's actions from `start` with soft-retry intent `retry`,
    /// up to the end, a stopping action, or the next script action.
    pub fn run_from(&self, txn: &mut Transaction, start: usize, retry: bool) -> (r: RuleProgress)
        ensures
            (rule_view(*final(txn)), r) == spec_run_from(self.actions@, start as int, rule_view(*old(txn)), retry),
            final(txn).id == old(txn).id,
            final(txn).attempt_count == old(txn).attempt_count,
    {
        let mut i = start;
        let mut soft_retry = retry;
        while i < self.actions.len()
            invariant
                start <= i,
                spec_run_from(self.actions@, start as int, rule_view(*old(txn)), retry)
                    == spec_run_from(self.actions@, i as int, rule_view(*txn), soft_retry),
                txn.id == old(txn).id,
                txn.attempt_count == old(txn).attempt_count,
            decreases self.actions@.len() - i,
        {
            match &self.actions[i] {
                CompiledAction::Rhai { script_id } => {
                    return RuleProgress::RunScript { script_id: *script_id, next_action: i + 1, retry: soft_retry };
                },
                action => {
                    if let Some(stop) = self.apply_builtin(action, txn, &mut soft_retry) {
                        return RuleProgress::Finished(stop);
                    }
                },
            }
            i += 1;
        }
        RuleProgress::Finished(self.final_outcome(txn, soft_retry))
    }

    /// Run all of a rule's actions in order; the rule holds no script action.
    pub fn execute_ordered(&self, txn: &mut Transaction) -> (r: RuleOutcome)
        requires
            builtin_only(self.actions@),
        ensures
            (rule_view(*final(txn)), RuleProgress::Finished(r)) == spec_run_from(
                self.actions@,
                0,
                rule_view(*old(txn)),
                false,
            ),
            final(txn).id == old(txn).id,
    {
        proof {
            lemma_builtin_only_finishes(self.actions@, 0, rule_view(*txn), false);
        }
        match self.run_from(txn, 0, false) {
            RuleProgress::Finished(o) => o,
            RuleProgress::RunScript { .. } => RuleOutcome::Continue,
        }
    }

    /// Continue after script action reported `outcome`; `next_action` and
    /// `retry` are those of the `RunScript` pause.
    pub fn after_script(
        &self,
        txn: &Transaction,
        next_action: usize,
        retry: bool,
        outcome: ScriptRunOutcome,
        clear_soft_retry: bool,
    ) -> (r: AfterScript)
        ensures
            r == spec_after_script(self.hook, txn.soft_drop, next_action, retry, outcome, clear_soft_retry),
    {
        match outcome {
            ScriptRunOutcome::DropNow => AfterScript::Finish(RuleOutcome::Drop),
            ScriptRunOutcome::Drop => AfterScript::Resume { next_action, retry },
            ScriptRunOutcome::Retry => {
                let r = if self.hook == RuleHook::Response {
                    true
                } else {
                    retry
                };
                AfterScript::Resume { next_action, retry: r }
            },
            ScriptRunOutcome::RetryNow => {
                if self.hook == RuleHook::Response {
                    AfterScript::Finish(self.retry_outcome(txn))
                } else {
                    AfterScript::Resume { next_action, retry }
                }
            },
            ScriptRunOutcome::Error => AfterScript::Finish(self.final_outcome(txn, retry)),
            ScriptRunOutcome::Success => {
                let r = if clear_soft_retry {
                    false
                } else {
                    retry
                };
                AfterScript::Resume { next_action, retry: r }
            },
        }
    }
}

impl CompiledRules {
    /// The first rule of `hook` whose selectors match (`matched[i]` tells
    /// whether rule `i` matches the transaction).
    pub fn select(&self, hook: RuleHook, matched: &Vec<bool>) -> (r: Option<usize>)
        requires
            matched@.len() == self.rules@.len(),
        ensures
            r matches Some(i) ==> i < self.rules@.len() && spec_first_rule(self.rules@, hook, matched@)
                == Some(i as int),
            r is None ==> spec_first_rule(self.rules@, hook, matched@) is None,
    {
        let mut i: usize = 0;
        while i < self.rules.len()
            invariant
                matched@.len() == self.rules@.len(),
                i <= self.rules@.len(),
                forall|j: int| 0 <= j < i ==> !(self.rules@[j].hook == hook && matched@[j]),
            decreases self.rules@.len() - i,
        {
            if self.rules[i].hook == hook && matched[i] {
                proof {
                    let c = choose|c: int|
                        0 <= c < self.rules@.len() && self.rules@[c].hook == hook && matched@[c] && forall|j: int|
                            0 <= j < c ==> !(self.rules@[j].hook == hook && matched@[j]);
                    assert(c == i) by {
                        if c < i {
                        } else if c > i {
                            assert(!(self.rules@[i as int].hook == hook && matched@[i as int]));
                        }
                    }
                }
                return Some(i);
            }
            i += 1;
        }
        None
    }

    /// Evaluate the rules of `hook`: the first matching rule runs and its
    /// outcome is returned with its name; with no match the transaction is
    /// untouched and the outcome is `Continue`. The selected rule holds no
    /// script action.
    pub fn eval(&self, hook: RuleHook, txn: &mut Transaction, matched: &Vec<bool>) -> (r: RuleEvalResult)
        requires
            matched@.len() == self.rules@.len(),
            spec_first_rule(self.rules@, hook, matched@) matches Some(i) ==> builtin_only(
                self.rules@[i].actions@,
            ),
        ensures
            spec_first_rule(self.rules@, hook, matched@) is None ==> r.outcome == RuleOutcome::Continue
                && r.matched_rule_name is None && *final(txn) == *old(txn),
            spec_first_rule(self.rules@, hook, matched@) matches Some(i) ==> {
                &&& r.matched_rule_name matches Some(n) && n@ == self.rules@[i].name@
                &&& (rule_view(*final(txn)), RuleProgress::Finished(r.outcome)) == spec_run_from(
                    self.rules@[i].actions@,
                    0,
                    rule_view(*old(txn)),
                    false,
                )
            },
    {
        match self.select(hook, matched) {
            Some(i) => {
                let rule = &self.rules[i];
                let outcome = rule.execute_ordered(txn);
                RuleEvalResult { outcome, matched_rule_name: Some(rule.name.clone()) }
            },
            None => RuleEvalResult { outcome: RuleOutcome::Continue, matched_rule_name: None },
        }
    }
}

/// A parsed action value, for the actions that take an rcode or an address.
#[derive(Debug, Clone, Copy, PartialEq, Eq, Structural)]
pub enum ActionValue {
    Text,
    Rcode(u16),
    Ipv4(u32),
    Ipv6(u128),
}

/// An action as configured: its type name, its value, and the value's
/// parsed form where the action takes an rcode or an address.
#[derive(Debug, Clone)]
pub struct ActionSpec {
    pub kind: String,
    pub value: String,
    pub parsed: ActionValue,
}

/// A rule as configured (its selectors are compiled by the caller).
#[derive(Debug, Clone)]
pub struct RuleSpec {
    pub name: String,
    pub hook: String,
    pub actions: Vec<ActionSpec>,
}

/// `set_tag` values are `key=value` split at the first `=`; without `=`
/// the whole value is the key and the tag value is `"true"`.
pub open spec fn spec_split_tag(v: Seq<char>) -> (Seq<char>, Seq<char>) {
    match spec_first_index(v, '=') {
        Some(i) => (v.subrange(0, i), v.subrange(i + 1, v.len() as int)),
        None => (v, "true"@),
    }
}

/// Whether a built-in action of type `kind` with parsed value `parsed`
/// compiles (validation has rejected anything else).
pub open spec fn spec_action_compilable(kind: Seq<char>, parsed: ActionValue) -> bool {
    if kind == "set_rcode"@ {
        parsed is Rcode
    } else if kind == "set_source_v4"@ || kind == "set_retry_source_v4"@ {
        parsed is Ipv4
    } else if kind == "set_source_v6"@ || kind == "set_retry_source_v6"@ {
        parsed is Ipv6
    } else {
        ||| kind == "set_pool"@
        ||| kind == "set_retry_pool"@
        ||| kind == "retry"@
        ||| kind == "retry_now"@
        ||| kind == "drop"@
        ||| kind == "drop_now"@
        ||| kind == "clear_drop"@
        ||| kind == "clear_retry"@
        ||| kind == "clear_retry_pool"@
        ||| kind == "clear_pool"@
        ||| kind == "clear_tag"@
        ||| kind == "set_tag"@
        ||| kind == "clear_retry_source_v4"@
        ||| kind == "clear_retry_source_v6"@
    }
}

/// `a` is the compiled form of the action `(kind, value, parsed)`.
pub open spec fn spec_compiled_action(a: CompiledAction, kind: Seq<char>, value: Seq<char>, parsed: ActionValue) -> bool {
    if kind == "set_pool"@ {
        a matches CompiledAction::SetPool(p) && p@ == value
    } else if kind == "set_retry_pool"@ {
        a matches CompiledAction::SetRetryPool(p) && p@ == value
    } else if kind == "retry"@ {
        a is Retry
    } else if kind == "retry_now"@ {
        a is RetryNow
    } else if kind == "drop"@ {
        a is Drop
    } else if kind == "drop_now"@ {
        a is DropNow
    } else if kind == "clear_drop"@ {
        a is ClearDrop
    } else if kind == "clear_retry"@ {
        a is ClearRetry
    } else if kind == "clear_retry_pool"@ {
        a is ClearRetryPool
    } else if kind == "clear_pool"@ {
        a is ClearPool
    } else if kind == "clear_tag"@ {
        a matches CompiledAction::ClearTag(k) && k@ == value
    } else if kind == "set_rcode"@ {
        parsed matches ActionValue::Rcode(rc) && a == CompiledAction::SetRcode(rc)
    } else if kind == "set_tag"@ {
        a matches CompiledAction::SetTag { key, value: v } && (key@, v@) == spec_split_tag(value)
    } else if kind == "set_source_v4"@ {
        parsed matches ActionValue::Ipv4(x) && a == CompiledAction::SetSourceV4(x)
    } else if kind == "set_source_v6"@ {
        parsed matches ActionValue::Ipv6(x) && a == CompiledAction::SetSourceV6(x)
    } else if kind == "set_retry_source_v4"@ {
        parsed matches ActionValue::Ipv4(x) && a == CompiledAction::SetRetrySourceV4(x)
    } else if kind == "set_retry_source_v6"@ {
        parsed matches ActionValue::Ipv6(x) && a == CompiledAction::SetRetrySourceV6(x)
    } else if kind == "clear_retry_source_v4"@ {
        a is ClearRetrySourceV4
    } else if kind == "clear_retry_source_v6"@ {
        a is ClearRetrySourceV6
    } else {
        false
    }
}

fn split_tag(value: &str) -> (r: (String, String))
    ensures
        (r.0@, r.1@) == spec_split_tag(value@),
{
    match split_once_char(value, '=') {
        Some((k, v)) => {
            proof {
                let i = choose|i: int|
                    0 <= i < value@.len() && value@[i] == '=' && (forall|j: int| 0 <= j < i ==> value@[j] != '=')
                        && k@ == value@.subrange(0, i) && v@ == value@.subrange(i + 1, value@.len() as int);
                assert(value@[i] == '=');
                let c = spec_first_index(value@, '=')->0;
                assert(c == i) by {
                    if c < i {
                        assert(value@[c] != '=');
                    } else if c > i {
                        assert(value@[i] != '=');
                    }
                }
            }
            (owned(k), owned(v))
        },
        None => (owned(value), owned("true")),
    }
}

impl CompiledAction {
    /// Compile a configured built-in action.
    pub fn compile(act: &ActionSpec) -> (r: CompiledAction)
        requires
            spec_action_compilable(act.kind@, act.parsed),
        ensures
            spec_compiled_action(r, act.kind@, act.value@, act.parsed),
            !(r is Rhai),
    {
        let kind = act.kind.as_str();
        let value = act.value.as_str();
        if str_eq(kind, "set_pool") {
            CompiledAction::SetPool(owned(value))
        } else if str_eq(kind, "set_retry_pool") {
            CompiledAction::SetRetryPool(owned(value))
        } else if str_eq(kind, "retry") {
            CompiledAction::Retry
        } else if str_eq(kind, "retry_now") {
            CompiledAction::RetryNow
        } else if str_eq(kind, "drop") {
            CompiledAction::Drop
        } else if str_eq(kind, "drop_now") {
            CompiledAction::DropNow
        } else if str_eq(kind, "clear_drop") {
            CompiledAction::ClearDrop
        } else if str_eq(kind, "clear_retry") {
            CompiledAction::ClearRetry
        } else if str_eq(kind, "clear_retry_pool") {
            CompiledAction::ClearRetryPool
        } else if str_eq(kind, "clear_pool") {
            CompiledAction::ClearPool
        } else if str_eq(kind, "clear_tag") {
            CompiledAction::ClearTag(owned(value))
        } else if str_eq(kind, "set_rcode") {
            match act.parsed {
                ActionValue::Rcode(rc) => CompiledAction::SetRcode(rc),
                _ => CompiledAction::SetRcode(0),
            }
        } else if str_eq(kind, "set_tag") {
            let (key, value) = split_tag(value);
            CompiledAction::SetTag { key, value }
        } else if str_eq(kind, "set_source_v4") {
            match act.parsed {
                ActionValue::Ipv4(x) => CompiledAction::SetSourceV4(x),
                _ => CompiledAction::SetSourceV4(0),
            }
        } else if str_eq(kind, "set_source_v6") {
            proof {
                reveal_strlit("set_source_v6");
                reveal_strlit("set_retry_source_v4");
                assert("set_source_v6"@[4] != "set_retry_source_v4"@[4]);
            }
            match act.parsed {
                ActionValue::Ipv6(x) => CompiledAction::SetSourceV6(x),
                _ => CompiledAction::SetSourceV6(0),
            }
        } else if str_eq(kind, "set_retry_source_v4") {
            match act.parsed {
                ActionValue::Ipv4(x) => CompiledAction::SetRetrySourceV4(x),
                _ => CompiledAction::SetRetrySourceV4(0),
            }
        } else if str_eq(kind, "set_retry_source_v6") {
            match act.parsed {
                ActionValue::Ipv6(x) => CompiledAction::SetRetrySourceV6(x),
                _ => CompiledAction::SetRetrySourceV6(0),
            }
        } else if str_eq(kind, "clear_retry_source_v4") {
            CompiledAction::ClearRetrySourceV4
        } else {
            CompiledAction::ClearRetrySourceV6
        }
    }
}

/// Number of script actions among the first `i` actions.
pub open spec fn spec_rhai_before(actions: Seq<ActionSpec>, i: int) -> nat
    decreases i,
{
    if i <= 0 {
        0
    } else {
        spec_rhai_before(actions, i - 1) + if actions[i - 1].kind@ == "rhai"@ {
            1nat
        } else {
            0nat
        }
    }
}

/// A configured rule compiles when each built-in action compiles and a
/// script id is supplied for each script action.
pub open spec fn spec_rule_compilable(rule: RuleSpec, script_ids: Seq<usize>) -> bool {
    &&& forall|i: int|
        0 <= i < rule.actions@.len() && #[trigger] rule.actions@[i].kind@ != "rhai"@ ==> spec_action_compilable(
            rule.actions@[i].kind@,
            rule.actions@[i].parsed,
        )
    &&& spec_rhai_before(rule.actions@, rule.actions@.len() as int) <= script_ids.len()
}

/// `r` is the compiled form of `rule`, with `script_ids` for its script
/// actions in order.
pub open spec fn spec_compiled_rule(r: CompiledRule, rule: RuleSpec, script_ids: Seq<usize>) -> bool {
    &&& r.name@ == rule.name@
    &&& r.hook == if rule.hook@ == "response"@ {
        RuleHook::Response
    } else {
        RuleHook::Request
    }
    &&& r.actions@.len() == rule.actions@.len()
    &&& forall|i: int|
        0 <= i < rule.actions@.len() ==> if (#[trigger] rule.actions@[i]).kind@ == "rhai"@ {
            r.actions@[i] == CompiledAction::Rhai {
                script_id: script_ids[spec_rhai_before(rule.actions@, i) as int],
            }
        } else {
            spec_compiled_action(r.actions@[i], rule.actions@[i].kind@, rule.actions@[i].value@, rule.actions@[i].parsed)
        }
}

impl CompiledRule {
    /// Compile a configured rule; `script_ids` are the compiled scripts of
    /// its script actions, in order.
    pub fn compile(rule: &RuleSpec, script_ids: &Vec<usize>) -> (r: CompiledRule)
        requires
            spec_rule_compilable(*rule, script_ids@),
        ensures
            spec_compiled_rule(r, *rule, script_ids@),
    {
        let hook = if str_eq(rule.hook.as_str(), "response") {
            RuleHook::Response
        } else {
            RuleHook::Request
        };
        let mut actions: Vec<CompiledAction> = Vec::new();
        let mut rhai_idx: usize = 0;
        let mut i: usize = 0;
        let n_ids = script_ids.len();
        while i < rule.actions.len()
            invariant
                n_ids == script_ids@.len(),
                spec_rule_compilable(*rule, script_ids@),
                i <= rule.actions@.len(),
                actions@.len() == i,
                rhai_idx == spec_rhai_before(rule.actions@, i as int),
                forall|j: int|
                    0 <= j < i ==> if (#[trigger] rule.actions@[j]).kind@ == "rhai"@ {
                        actions@[j] == CompiledAction::Rhai {
                            script_id: script_ids@[spec_rhai_before(rule.actions@, j) as int],
                        }
                    } else {
                        spec_compiled_action(
                            actions@[j],
                            rule.actions@[j].kind@,
                            rule.actions@[j].value@,
                            rule.actions@[j].parsed,
                        )
                    },
            decreases rule.actions@.len() - i,
        {
            let act = &rule.actions[i];
            proof {
                lemma_rhai_before_monotone(rule.actions@, i as int + 1, rule.actions@.len() as int);
            }
            if str_eq(act.kind.as_str(), "rhai") {
                proof {
                    assert(spec_rhai_before(rule.actions@, i as int + 1) == rhai_idx + 1);
                }
                let script_id = script_ids[rhai_idx];
                actions.push(CompiledAction::Rhai { script_id });
                rhai_idx += 1;
            } else {
                actions.push(CompiledAction::compile(act));
            }
            i += 1;
        }
        CompiledRule { name: rule.name.clone(), hook, actions }
    }
}

pub proof fn lemma_rhai_before_monotone(actions: Seq<ActionSpec>, i: int, j: int)
    requires
        i <= j,
    ensures
        spec_rhai_before(actions, i) <= spec_rhai_before(actions, j),
    decreases j - i,
{
    if i < j {
        lemma_rhai_before_monotone(actions, i, j - 1);
    }
}

impl CompiledRules {
    /// Compile the configured rules (none when there is no rules section);
    /// `script_ids[i]` are the compiled scripts of rule `i`.
    pub fn compile(cfg: Option<&Vec<RuleSpec>>, script_ids: &Vec<Vec<usize>>) -> (r: CompiledRules)
        requires
            cfg matches Some(rules) ==> rules@.len() == script_ids@.len() && forall|i: int|
                0 <= i < rules@.len() ==> spec_rule_compilable(#[trigger] rules@[i], script_ids@[i]@),
        ensures
            r.match_mode == MatchMode::FirstMatch,
            cfg is None ==> r.rules@.len() == 0,
            cfg matches Some(rules) ==> r.rules@.len() == rules@.len() && forall|i: int|
                0 <= i < rules@.len() ==> spec_compiled_rule(r.rules@[i], #[trigger] rules@[i], script_ids@[i]@),
    {
        match cfg {
            None => CompiledRules { match_mode: MatchMode::FirstMatch, rules: Vec::new() },
            Some(specs) => {
                let mut rules: Vec<CompiledRule> = Vec::new();
                let mut i: usize = 0;
                while i < specs.len()
                    invariant
                        specs@.len() == script_ids@.len(),
                        forall|k: int|
                            0 <= k < specs@.len() ==> spec_rule_compilable(#[trigger] specs@[k], script_ids@[k]@),
                        i <= specs@.len(),
                        rules@.len() == i,
                        forall|k: int|
                            0 <= k < i ==> spec_compiled_rule(rules@[k], #[trigger] specs@[k], script_ids@[k]@),
                    decreases specs@.len() - i,
                {
                    rules.push(CompiledRule::compile(&specs[i], &script_ids[i]));
                    i += 1;
                }
                CompiledRules { match_mode: MatchMode::FirstMatch, rules }
            },
        }
    }
}

} // verus!
