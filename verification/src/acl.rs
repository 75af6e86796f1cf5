//! Client IP ACL evaluation: global/per-listener policy compile and
//! first-match evaluation against the CIDR views that hold the client address.
//!
//! A policy's rules name CIDR views. Which views contain a given client
//! address is decided by the data-source store; evaluation takes the names of
//! those views as `matching_views`.

use vstd::prelude::*;
use crate::text::{str_eq, owned};

verus! {

broadcast use vstd::std_specs::vec::group_vec_axioms;

#[derive(Debug, Clone, Copy, PartialEq, Eq, Structural)]
pub enum AclDefaultAction {
    Allow,
    Deny,
}

#[derive(Debug, Clone)]
pub enum AclAction {
    Drop,
    Refuse,
    Tag(String),
    Accept,
}

#[derive(Debug, Clone)]
pub struct CompiledAclRule {
    pub view: String,
    pub action: AclAction,
}

/// Compiled first-match ACL policy for a listener's effective `acls:` block.
#[derive(Debug, Clone)]
pub struct CompiledAclPolicy {
    pub default_action: AclDefaultAction,
    pub rules: Vec<CompiledAclRule>,
}

/// The result of evaluating an ACL policy for one client address.
#[derive(Debug, Clone, PartialEq, Eq)]
pub enum AclDecision {
    /// No terminal ACL outcome; the query proceeds.
    Admit,
    /// Silent drop: no DNS response.
    Drop,
    /// Send REFUSED.
    Refuse,
    /// Admit and set the named tag on the transaction.
    Tag(String),
}

/// One configured ACL rule: the CIDR view it matches, its action
/// (`drop`, `refuse`, `accept` or `tag`) and, for `tag`, the tag name.
#[derive(Debug, Clone)]
pub struct AclRule {
    pub match_view: String,
    pub action: String,
    pub tag: Option<String>,
}

/// A configured `acls:` block.
#[derive(Debug, Clone)]
pub struct AclsConfig {
    pub default_action: String,
    pub rules: Vec<AclRule>,
}

/// Decision as `(kind, tag)`: 0 admit, 1 drop, 2 refuse, 3 tag.
impl View for AclDecision {
    type V = (u8, Seq<char>);

    open spec fn view(&self) -> (u8, Seq<char>) {
        match self {
            AclDecision::Admit => (0, Seq::empty()),
            AclDecision::Drop => (1, Seq::empty()),
            AclDecision::Refuse => (2, Seq::empty()),
            AclDecision::Tag(t) => (3, t@),
        }
    }
}

/// Action as `(kind, tag)`: 0 drop, 1 refuse, 2 tag, 3 accept.
impl View for AclAction {
    type V = (u8, Seq<char>);

    open spec fn view(&self) -> (u8, Seq<char>) {
        match self {
            AclAction::Drop => (0, Seq::empty()),
            AclAction::Refuse => (1, Seq::empty()),
            AclAction::Tag(t) => (2, t@),
            AclAction::Accept => (3, Seq::empty()),
        }
    }
}

/// A configured rule is compilable: a known action, and a tag for `tag`.
pub open spec fn spec_rule_valid(r: AclRule) -> bool {
    ||| r.action@ == "drop"@
    ||| r.action@ == "refuse"@
    ||| r.action@ == "accept"@
    ||| (r.action@ == "tag"@ && r.tag is Some)
}

pub open spec fn spec_config_valid(cfg: AclsConfig) -> bool {
    forall|i: int| 0 <= i < cfg.rules.len() ==> spec_rule_valid(#[trigger] cfg.rules[i])
}

pub open spec fn spec_compile_action(r: AclRule) -> (u8, Seq<char>) {
    if r.action@ == "drop"@ {
        (0, Seq::empty())
    } else if r.action@ == "refuse"@ {
        (1, Seq::empty())
    } else if r.action@ == "accept"@ {
        (3, Seq::empty())
    } else {
        (2, r.tag.unwrap()@)
    }
}

/// The compiled form of a configured block: `deny` is the only default that
/// denies; rules keep their order, view and action.
pub open spec fn spec_compiled_from(p: CompiledAclPolicy, cfg: AclsConfig) -> bool {
    &&& p.default_action == (if cfg.default_action@ == "deny"@ {
        AclDefaultAction::Deny
    } else {
        AclDefaultAction::Allow
    })
    &&& p.rules.len() == cfg.rules.len()
    &&& forall|i: int| #![trigger p.rules[i]] 0 <= i < p.rules.len() ==> {
        &&& p.rules[i].view@ == cfg.rules[i].match_view@
        &&& p.rules[i].action@ == spec_compile_action(cfg.rules[i])
    }
}

/// Whether rule `r` matches a client whose address lies in `views`.
pub open spec fn spec_rule_matches(r: CompiledAclRule, views: Seq<Seq<char>>) -> bool {
    views.contains(r.view@)
}

/// Index of the first rule at or after `from` that matches.
pub open spec fn spec_first_match(rules: Seq<CompiledAclRule>, views: Seq<Seq<char>>, from: int) -> Option<int>
    decreases rules.len() - from,
{
    if from < 0 || from >= rules.len() {
        None
    } else if spec_rule_matches(rules[from], views) {
        Some(from)
    } else {
        spec_first_match(rules, views, from + 1)
    }
}

/// Tier 1 decision: the first matching rule's action, else the default
/// (`deny` drops silently).
pub open spec fn spec_evaluate_full(p: CompiledAclPolicy, views: Seq<Seq<char>>) -> (u8, Seq<char>) {
    match spec_first_match(p.rules@, views, 0) {
        Some(i) => {
            let a = p.rules[i].action@;
            if a.0 == 0 {
                (1, Seq::empty())
            } else if a.0 == 1 {
                (2, Seq::empty())
            } else if a.0 == 2 {
                (3, a.1)
            } else {
                (0, Seq::empty())
            }
        },
        None => if p.default_action == AclDefaultAction::Deny {
            (1, Seq::empty())
        } else {
            (0, Seq::empty())
        },
    }
}

/// Tier 0 decision: drop only on a first match whose action is `drop`.
pub open spec fn spec_evaluate_preadmission(p: CompiledAclPolicy, views: Seq<Seq<char>>) -> (u8, Seq<char>) {
    match spec_first_match(p.rules@, views, 0) {
        Some(i) => if p.rules[i].action@.0 == 0 {
            (1, Seq::empty())
        } else {
            (0, Seq::empty())
        },
        None => (0, Seq::empty()),
    }
}

pub open spec fn spec_views(v: Seq<String>) -> Seq<Seq<char>> {
    v.map_values(|s: String| s@)
}

fn contains_view(views: &Vec<String>, name: &String) -> (r: bool)
    ensures
        r == spec_views(views@).contains(name@),
{
    let mut i: usize = 0;
    while i < views.len()
        invariant
            0 <= i <= views@.len(),
            forall|k: int| 0 <= k < i ==> views@[k]@ != name@,
        decreases views@.len() - i,
    {
        if views[i] == *name {
            proof {
                assert(spec_views(views@)[i as int] == name@);
            }
            return true;
        }
        i += 1;
    }
    proof {
        if spec_views(views@).contains(name@) {
            let k = choose|k: int| 0 <= k < spec_views(views@).len() && spec_views(views@)[k] == name@;
            assert(views@[k]@ == name@);
        }
    }
    false
}

/// Position of the first rule that matches, if any.
fn first_match(policy: &CompiledAclPolicy, matching_views: &Vec<String>) -> (r: Option<usize>)
    ensures
        r matches Some(i) ==> spec_first_match(policy.rules@, spec_views(matching_views@), 0) == Some(i as int)
            && i < policy.rules@.len(),
        r is None ==> spec_first_match(policy.rules@, spec_views(matching_views@), 0) is None,
{
    let ghost views = spec_views(matching_views@);
    let mut i: usize = 0;
    while i < policy.rules.len()
        invariant
            0 <= i <= policy.rules@.len(),
            views == spec_views(matching_views@),
            spec_first_match(policy.rules@, views, 0) == spec_first_match(policy.rules@, views, i as int),
        decreases policy.rules@.len() - i,
    {
        if contains_view(matching_views, &policy.rules[i].view) {
            return Some(i);
        }
        i += 1;
    }
    None
}

impl CompiledAclPolicy {
    /// No `acls:` anywhere for this listener: admit all clients.
    pub fn admit_all() -> (r: CompiledAclPolicy)
        ensures
            r.default_action == AclDefaultAction::Allow,
            r.rules@.len() == 0,
    {
        CompiledAclPolicy { default_action: AclDefaultAction::Allow, rules: Vec::new() }
    }

    /// Compile a configured block. Actions must already be validated: an
    /// unknown action, or `tag` without a tag name, is a configuration bug.
    pub fn compile(cfg: &AclsConfig) -> (r: CompiledAclPolicy)
        requires
            spec_config_valid(*cfg),
        ensures
            spec_compiled_from(r, *cfg),
    {
        let default_action = if str_eq(cfg.default_action.as_str(), "deny") {
            AclDefaultAction::Deny
        } else {
            AclDefaultAction::Allow
        };
        let mut rules: Vec<CompiledAclRule> = Vec::new();
        let mut i: usize = 0;
        while i < cfg.rules.len()
            invariant
                spec_config_valid(*cfg),
                0 <= i <= cfg.rules@.len(),
                rules@.len() == i,
                forall|k: int| #![trigger rules@[k]] 0 <= k < i ==> {
                    &&& rules@[k].view@ == cfg.rules@[k].match_view@
                    &&& rules@[k].action@ == spec_compile_action(cfg.rules@[k])
                },
            decreases cfg.rules@.len() - i,
        {
            let rule = &cfg.rules[i];
            assert(spec_rule_valid(cfg.rules@[i as int]));
            let action = if str_eq(rule.action.as_str(), "drop") {
                AclAction::Drop
            } else if str_eq(rule.action.as_str(), "refuse") {
                AclAction::Refuse
            } else if str_eq(rule.action.as_str(), "accept") {
                AclAction::Accept
            } else {
                proof {
                    reveal_strlit("drop");
                    reveal_strlit("refuse");
                    reveal_strlit("accept");
                    reveal_strlit("tag");
                }
                match &rule.tag {
                    Some(t) => AclAction::Tag(t.clone()),
                    None => AclAction::Accept,
                }
            };
            rules.push(CompiledAclRule { view: rule.match_view.clone(), action });
            i += 1;
        }
        proof {
            reveal_strlit("deny");
        }
        CompiledAclPolicy { default_action, rules }
    }

    /// The effective policy: a listener's own block replaces the global one,
    /// an omitted listener block inherits it, and none anywhere admits all.
    pub fn compile_effective(global: Option<&AclsConfig>, listener: Option<&AclsConfig>) -> (r: CompiledAclPolicy)
        requires
            global matches Some(g) ==> spec_config_valid(*g),
            listener matches Some(l) ==> spec_config_valid(*l),
        ensures
            match spec_effective_acl(global, listener) {
                Some(cfg) => spec_compiled_from(r, *cfg),
                None => r.default_action == AclDefaultAction::Allow && r.rules@.len() == 0,
            },
    {
        match effective_acl(global, listener) {
            Some(cfg) => Self::compile(cfg),
            None => Self::admit_all(),
        }
    }
}

pub open spec fn spec_effective_acl<'a>(global: Option<&'a AclsConfig>, listener: Option<&'a AclsConfig>) -> Option<&'a AclsConfig> {
    match listener {
        Some(l) => Some(l),
        None => global,
    }
}

/// Per-listener replace semantics: a listener's own block fully replaces the
/// global one; an omitted listener block inherits global; both absent is `None`.
pub fn effective_acl<'a>(global: Option<&'a AclsConfig>, listener: Option<&'a AclsConfig>) -> (r: Option<&'a AclsConfig>)
    ensures
        r == spec_effective_acl(global, listener),
{
    match listener {
        Some(l) => Some(l),
        None => global,
    }
}

fn decision_of(action: &AclAction) -> (r: AclDecision)
    ensures
        r@ == (if action@.0 == 0 {
            (1u8, Seq::<char>::empty())
        } else if action@.0 == 1 {
            (2u8, Seq::<char>::empty())
        } else if action@.0 == 2 {
            (3u8, action@.1)
        } else {
            (0u8, Seq::<char>::empty())
        }),
{
    match action {
        AclAction::Drop => AclDecision::Drop,
        AclAction::Refuse => AclDecision::Refuse,
        AclAction::Tag(name) => AclDecision::Tag(name.clone()),
        AclAction::Accept => AclDecision::Admit,
    }
}

/// Tier 0 (pre-parse): only an explicit `drop` on the first matching rule is
/// actionable; any other first match, and no match at all, admit (the full
/// tier decides later). There is no default-deny short-circuit here.
pub fn evaluate_preadmission(policy: &CompiledAclPolicy, matching_views: &Vec<String>) -> (r: AclDecision)
    ensures
        r@ == spec_evaluate_preadmission(*policy, spec_views(matching_views@)),
{
    match first_match(policy, matching_views) {
        Some(i) => match policy.rules[i].action {
            AclAction::Drop => AclDecision::Drop,
            _ => AclDecision::Admit,
        },
        None => AclDecision::Admit,
    }
}

/// Tier 1 (post-parse): full first-match evaluation with `default_action`
/// fall-through. `default_action: deny` resolves to a silent drop, not REFUSED.
pub fn evaluate_full(policy: &CompiledAclPolicy, matching_views: &Vec<String>) -> (r: AclDecision)
    ensures
        r@ == spec_evaluate_full(*policy, spec_views(matching_views@)),
{
    match first_match(policy, matching_views) {
        Some(i) => decision_of(&policy.rules[i].action),
        None => match policy.default_action {
            AclDefaultAction::Allow => AclDecision::Admit,
            AclDefaultAction::Deny => AclDecision::Drop,
        },
    }
}

/// Tier 0 never decides anything but what Tier 1 decides on the same first
/// match: a Tier 0 drop is a Tier 1 drop, and Tier 0 never refuses or tags.
pub proof fn lemma_preadmission_agrees_with_full(p: CompiledAclPolicy, views: Seq<Seq<char>>)
    ensures
        spec_evaluate_preadmission(p, views).0 == 1 ==> spec_evaluate_full(p, views).0 == 1,
        spec_evaluate_preadmission(p, views).0 == 0 || spec_evaluate_preadmission(p, views).0 == 1,
{
}

/// First match wins: the decision is fixed by the first matching rule,
/// whatever the later rules say.
pub proof fn lemma_first_match_wins(p: CompiledAclPolicy, views: Seq<Seq<char>>, i: int)
    requires
        0 <= i < p.rules.len(),
        spec_rule_matches(p.rules[i], views),
        forall|k: int| 0 <= k < i ==> !spec_rule_matches(#[trigger] p.rules[k], views),
    ensures
        spec_first_match(p.rules@, views, 0) == Some(i),
{
    lemma_first_match_from(p.rules@, views, 0, i);
}

pub proof fn lemma_first_match_range(rules: Seq<CompiledAclRule>, views: Seq<Seq<char>>, from: int)
    ensures
        spec_first_match(rules, views, from) matches Some(i) ==> 0 <= from <= i < rules.len() && spec_rule_matches(
            rules[i],
            views,
        ),
    decreases rules.len() - from,
{
    if 0 <= from < rules.len() {
        lemma_first_match_range(rules, views, from + 1);
    }
}

proof fn lemma_first_match_from(rules: Seq<CompiledAclRule>, views: Seq<Seq<char>>, from: int, i: int)
    requires
        0 <= from <= i < rules.len(),
        spec_rule_matches(rules[i], views),
        forall|k: int| from <= k < i ==> !spec_rule_matches(#[trigger] rules[k], views),
    ensures
        spec_first_match(rules, views, from) == Some(i),
    decreases i - from,
{
    if from < i {
        lemma_first_match_from(rules, views, from + 1, i);
    }
}


/// Side-effect-free ACL check result for one listener.
#[derive(Debug, Clone, PartialEq, Eq)]
pub struct AclCheckResult {
    pub listener: String,
    /// `admit`, `drop`, `refuse`, or `tag`.
    pub decision: String,
    /// Present when `decision` is `tag`.
    pub tag: Option<String>,
    /// Matching CIDR view name, or `"default"` when `default_action` applied.
    pub matched: String,
    /// Matched rule action (`drop`/`refuse`/`tag`/`accept`), or `allow`/`deny` for default.
    pub action: String,
}

#[derive(Debug, Clone, PartialEq, Eq)]
pub enum AclCheckError {
    /// The listener filter did not match any configured listener name.
    UnknownListener(String),
    /// No listeners are configured.
    NoListeners,
}

impl AclCheckError {
    /// Human-readable message.
    pub fn message(&self) -> (r: String)
        ensures
            self matches AclCheckError::UnknownListener(n) ==> r@ == "unknown listener '"@ + n@ + "'"@,
            self is NoListeners ==> r@ == "no listeners configured"@,
    {
        match self {
            AclCheckError::UnknownListener(name) => {
                let mut m = owned("unknown listener '");
                m.append(name.as_str());
                m.append("'");
                m
            },
            AclCheckError::NoListeners => owned("no listeners configured"),
        }
    }
}

/// A configured listener as the ACL check sees it: its resolved ingress name
/// and its own `acls:` block, if any.
#[derive(Debug, Clone)]
pub struct AclListener {
    pub name: String,
    pub acls: Option<AclsConfig>,
}

/// Index of the first configured rule at or after `from` whose view matches.
pub open spec fn spec_cfg_first_match(rules: Seq<AclRule>, views: Seq<Seq<char>>, from: int) -> Option<int>
    decreases rules.len() - from,
{
    if from < 0 || from >= rules.len() {
        None
    } else if views.contains(rules[from].match_view@) {
        Some(from)
    } else {
        spec_cfg_first_match(rules, views, from + 1)
    }
}

proof fn lemma_compiled_first_match(p: CompiledAclPolicy, cfg: AclsConfig, views: Seq<Seq<char>>, from: int)
    requires
        spec_compiled_from(p, cfg),
        0 <= from,
    ensures
        spec_first_match(p.rules@, views, from) == spec_cfg_first_match(cfg.rules@, views, from),
    decreases p.rules.len() - from,
{
    if from < p.rules.len() {
        assert(p.rules[from].view@ == cfg.rules[from].match_view@);
        lemma_compiled_first_match(p, cfg, views, from + 1);
    }
}

pub open spec fn spec_decision_name(d: (u8, Seq<char>)) -> Seq<char> {
    if d.0 == 0 {
        "admit"@
    } else if d.0 == 1 {
        "drop"@
    } else if d.0 == 2 {
        "refuse"@
    } else {
        "tag"@
    }
}

pub open spec fn spec_action_name(a: (u8, Seq<char>)) -> Seq<char> {
    if a.0 == 0 {
        "drop"@
    } else if a.0 == 1 {
        "refuse"@
    } else if a.0 == 2 {
        "tag"@
    } else {
        "accept"@
    }
}

/// The check result for one listener whose compiled effective policy is `p`.
pub open spec fn spec_check_result(r: AclCheckResult, name: Seq<char>, p: CompiledAclPolicy, views: Seq<Seq<char>>) -> bool {
    let d = spec_evaluate_full(p, views);
    &&& r.listener@ == name
    &&& r.decision@ == spec_decision_name(d)
    &&& (if d.0 == 3 { r.tag matches Some(t) && t@ == d.1 } else { r.tag is None })
    &&& match spec_first_match(p.rules@, views, 0) {
        Some(i) => r.matched@ == p.rules[i].view@ && r.action@ == spec_action_name(p.rules[i].action@),
        None => r.matched@ == "default"@ && r.action@ == (if p.default_action == AclDefaultAction::Deny {
            "deny"@
        } else {
            "allow"@
        }),
    }
}

/// The check result for a listener with effective configured block `cfg`
/// (`None`: admit all), stated over the configured rules.
pub open spec fn spec_check_result_cfg(r: AclCheckResult, name: Seq<char>, cfg: Option<AclsConfig>, views: Seq<Seq<char>>) -> bool {
    &&& r.listener@ == name
    &&& match cfg {
        None => r.decision@ == "admit"@ && r.tag is None && r.matched@ == "default"@ && r.action@ == "allow"@,
        Some(c) => match spec_cfg_first_match(c.rules@, views, 0) {
            Some(i) => {
                let a = spec_compile_action(c.rules[i]);
                &&& r.matched@ == c.rules[i].match_view@
                &&& r.action@ == spec_action_name(a)
                &&& r.decision@ == spec_decision_name(
                    if a.0 == 0 { (1u8, Seq::<char>::empty()) } else if a.0 == 1 { (2u8, Seq::<char>::empty()) } else if a.0 == 2 { (3u8, a.1) } else { (0u8, Seq::<char>::empty()) },
                )
                &&& (if a.0 == 2 { r.tag matches Some(t) && t@ == a.1 } else { r.tag is None })
            },
            None => {
                let deny = c.default_action@ == "deny"@;
                &&& r.matched@ == "default"@
                &&& r.action@ == (if deny { "deny"@ } else { "allow"@ })
                &&& r.decision@ == (if deny { "drop"@ } else { "admit"@ })
                &&& r.tag is None
            },
        },
    }
}

fn decision_name(d: &AclDecision) -> (r: (String, Option<String>))
    ensures
        r.0@ == spec_decision_name(d@),
        d@.0 == 3 ==> (r.1 matches Some(t) && t@ == d@.1),
        d@.0 != 3 ==> r.1 is None,
{
    match d {
        AclDecision::Admit => (owned("admit"), None),
        AclDecision::Drop => (owned("drop"), None),
        AclDecision::Refuse => (owned("refuse"), None),
        AclDecision::Tag(name) => (owned("tag"), Some(name.clone())),
    }
}

/// View name and rule/default action name that produced the Tier 1 outcome.
fn match_detail(policy: &CompiledAclPolicy, matching_views: &Vec<String>) -> (r: (String, String))
    ensures
        match spec_first_match(policy.rules@, spec_views(matching_views@), 0) {
            Some(i) => r.0@ == policy.rules[i].view@ && r.1@ == spec_action_name(policy.rules[i].action@),
            None => r.0@ == "default"@ && r.1@ == (if policy.default_action == AclDefaultAction::Deny {
                "deny"@
            } else {
                "allow"@
            }),
        },
{
    match first_match(policy, matching_views) {
        Some(i) => {
            let action = match &policy.rules[i].action {
                AclAction::Drop => owned("drop"),
                AclAction::Refuse => owned("refuse"),
                AclAction::Tag(_) => owned("tag"),
                AclAction::Accept => owned("accept"),
            };
            (policy.rules[i].view.clone(), action)
        },
        None => {
            let action = match policy.default_action {
                AclDefaultAction::Allow => owned("allow"),
                AclDefaultAction::Deny => owned("deny"),
            };
            (owned("default"), action)
        },
    }
}

fn check_one_listener(
    global: Option<&AclsConfig>,
    listener: Option<&AclsConfig>,
    listener_name: &String,
    matching_views: &Vec<String>,
) -> (r: AclCheckResult)
    requires
        global matches Some(g) ==> spec_config_valid(*g),
        listener matches Some(l) ==> spec_config_valid(*l),
    ensures
        spec_check_result_cfg(
            r,
            listener_name@,
            match spec_effective_acl(global, listener) {
                Some(c) => Some(*c),
                None => None,
            },
            spec_views(matching_views@),
        ),
{
    let policy = CompiledAclPolicy::compile_effective(global, listener);
    let (matched, action) = match_detail(&policy, matching_views);
    let decision = evaluate_full(&policy, matching_views);
    let (decision_str, tag) = decision_name(&decision);
    proof {
        reveal_strlit("deny");
        reveal_strlit("allow");
        reveal_strlit("admit");
        reveal_strlit("drop");
        match spec_effective_acl(global, listener) {
            Some(c) => {
                lemma_compiled_first_match(policy, *c, spec_views(matching_views@), 0);
                lemma_first_match_range(policy.rules@, spec_views(matching_views@), 0);
                match spec_first_match(policy.rules@, spec_views(matching_views@), 0) {
                    Some(i) => {
                        assert(policy.rules[i].action@ == spec_compile_action(c.rules[i]));
                    },
                    None => {},
                }
            },
            None => {},
        }
    }
    AclCheckResult { listener: listener_name.clone(), decision: decision_str, tag, matched, action }
}

/// Whether a listener is selected by the optional name filter.
pub open spec fn spec_selected(l: AclListener, filter: Option<Seq<char>>) -> bool {
    match filter {
        Some(f) => l.name@ == f,
        None => true,
    }
}

/// Evaluate the effective ACL policy of each listener (or of the one named by
/// the filter) for a client address in `matching_views`, with the same
/// first-match and `default_action` semantics as Tier 1 ingress.
pub fn check_client_acl(
    listeners: &Vec<AclListener>,
    global: Option<&AclsConfig>,
    matching_views: &Vec<String>,
    listener_filter: Option<&str>,
) -> (r: Result<Vec<AclCheckResult>, AclCheckError>)
    requires
        global matches Some(g) ==> spec_config_valid(*g),
        forall|i: int| 0 <= i < listeners.len() ==> ((#[trigger] listeners[i]).acls matches Some(c)
            ==> spec_config_valid(c)),
    ensures
        ({
            let f = match listener_filter {
                Some(f) => Some(f@),
                None => None,
            };
            let sel = listeners@.filter(|l: AclListener| spec_selected(l, f));
            &&& listeners.len() == 0 ==> (r matches Err(AclCheckError::NoListeners))
            &&& listeners.len() > 0 && sel.len() == 0 && listener_filter is Some ==> (r matches Err(
                AclCheckError::UnknownListener(n),
            ) && n@ == listener_filter.unwrap()@)
            &&& listeners.len() > 0 && (sel.len() > 0 || listener_filter is None) ==> (r matches Ok(results)
                && results.len() == sel.len() && forall|i: int| #![trigger results[i]] 0 <= i < results.len()
                ==> spec_check_result_cfg(
                results[i],
                sel[i].name@,
                match sel[i].acls {
                    Some(c) => Some(c),
                    None => match global {
                        Some(g) => Some(*g),
                        None => None,
                    },
                },
                spec_views(matching_views@),
            ))
        }),
{
    if listeners.len() == 0 {
        return Err(AclCheckError::NoListeners);
    }
    let ghost f = match listener_filter {
        Some(f) => Some(f@),
        None => None,
    };
    let ghost pred = |l: AclListener| spec_selected(l, f);
    let filter_name: Option<String> = match listener_filter {
        Some(x) => Some(owned(x)),
        None => None,
    };
    let mut results: Vec<AclCheckResult> = Vec::new();
    let mut i: usize = 0;
    while i < listeners.len()
        invariant
            global matches Some(g) ==> spec_config_valid(*g),
            forall|k: int| 0 <= k < listeners.len() ==> ((#[trigger] listeners[k]).acls matches Some(c)
                ==> spec_config_valid(c)),
            pred == (|l: AclListener| spec_selected(l, f)),
            f == (match listener_filter {
                Some(f) => Some(f@),
                None => None,
            }),
            filter_name matches Some(n) ==> f == Some(n@),
            filter_name is None ==> f is None,
            0 <= i <= listeners.len(),
            results.len() == listeners@.take(i as int).filter(pred).len(),
            forall|k: int| #![trigger results[k]] 0 <= k < results.len() ==> {
                let l = listeners@.take(i as int).filter(pred)[k];
                spec_check_result_cfg(
                    results[k],
                    l.name@,
                    match l.acls {
                        Some(c) => Some(c),
                        None => match global {
                            Some(g) => Some(*g),
                            None => None,
                        },
                    },
                    spec_views(matching_views@),
                )
            },
        decreases listeners.len() - i,
    {
        let listener = &listeners[i];
        proof {
            assert(listeners@.take(i + 1) =~= listeners@.take(i as int).push(listeners@[i as int]));
            listeners@.take(i as int).lemma_filter_push(listeners@[i as int], pred);
        }
        let selected = match &filter_name {
            Some(n) => listener.name == *n,
            None => true,
        };
        if selected {
            let ghost before = results@;
            let acls: Option<&AclsConfig> = match &listener.acls {
                Some(c) => Some(c),
                None => None,
            };
            let res = check_one_listener(global, acls, &listener.name, matching_views);
            results.push(res);
            proof {
                assert(pred(listeners@[i as int]));
                assert forall|k: int| #![trigger results[k]] 0 <= k < results.len() implies {
                    let l = listeners@.take(i + 1).filter(pred)[k];
                    spec_check_result_cfg(
                        results[k],
                        l.name@,
                        match l.acls {
                            Some(c) => Some(c),
                            None => match global {
                                Some(g) => Some(*g),
                                None => None,
                            },
                        },
                        spec_views(matching_views@),
                    )
                } by {
                    if k < before.len() {
                        assert(results[k] == before[k]);
                    }
                }
            }
        } else {
            proof {
                assert(!pred(listeners@[i as int]));
            }
        }
        i += 1;
    }
    proof {
        assert(listeners@.take(listeners.len() as int) =~= listeners@);
    }
    match listener_filter {
        Some(x) => {
            if results.len() == 0 {
                return Err(AclCheckError::UnknownListener(owned(x)));
            }
        },
        None => {},
    }
    Ok(results)
}

} // verus!
