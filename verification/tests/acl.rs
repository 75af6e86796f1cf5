use conduit_core::acl::{
    check_client_acl, effective_acl, evaluate_full, evaluate_preadmission, AclCheckError,
    AclDecision, AclDefaultAction, AclListener, AclRule, AclsConfig, CompiledAclPolicy,
};

fn accept_rule(view: &str) -> AclRule {
    AclRule { match_view: view.into(), action: "accept".into(), tag: None }
}

fn drop_rule(view: &str) -> AclRule {
    AclRule { match_view: view.into(), action: "drop".into(), tag: None }
}

/// Views of the `corp_nets` CIDR store (10.0.0.0/8) containing the address.
fn views_for(addr: &str) -> Vec<String> {
    if addr.starts_with("10.") {
        vec!["corp_nets".to_string()]
    } else {
        vec![]
    }
}

#[test]
fn effective_acl_listener_replaces_global() {
    let global = AclsConfig { default_action: "allow".into(), rules: vec![] };
    let listener = AclsConfig { default_action: "deny".into(), rules: vec![accept_rule("corp_nets")] };
    let effective = effective_acl(Some(&global), Some(&listener)).unwrap();
    assert_eq!(effective.default_action, "deny");
    assert_eq!(effective.rules.len(), 1);
}

#[test]
fn effective_acl_omitted_listener_inherits_global() {
    let global = AclsConfig { default_action: "deny".into(), rules: vec![] };
    let effective = effective_acl(Some(&global), None).unwrap();
    assert_eq!(effective.default_action, "deny");
}

#[test]
fn effective_acl_none_anywhere_is_admit_all() {
    assert!(effective_acl(None, None).is_none());
    let policy = CompiledAclPolicy::compile_effective(None, None);
    assert_eq!(policy.default_action, AclDefaultAction::Allow);
    assert!(policy.rules.is_empty());
}

#[test]
fn accept_short_circuits_before_later_drop_rule() {
    let cfg = AclsConfig {
        default_action: "allow".into(),
        rules: vec![accept_rule("corp_nets"), drop_rule("corp_nets")],
    };
    let policy = CompiledAclPolicy::compile(&cfg);
    let decision = evaluate_full(&policy, &views_for("10.1.2.3"));
    assert_eq!(decision, AclDecision::Admit);
}

#[test]
fn default_deny_is_silent_drop_on_no_match() {
    let cfg = AclsConfig { default_action: "deny".into(), rules: vec![accept_rule("corp_nets")] };
    let policy = CompiledAclPolicy::compile(&cfg);
    let decision = evaluate_full(&policy, &views_for("192.0.2.1"));
    assert_eq!(decision, AclDecision::Drop);
}

#[test]
fn default_allow_admits_on_no_match() {
    let cfg = AclsConfig { default_action: "allow".into(), rules: vec![drop_rule("corp_nets")] };
    let policy = CompiledAclPolicy::compile(&cfg);
    let decision = evaluate_full(&policy, &views_for("192.0.2.1"));
    assert_eq!(decision, AclDecision::Admit);
}

#[test]
fn preadmission_only_drops_explicit_drop_match() {
    let cfg = AclsConfig { default_action: "deny".into(), rules: vec![drop_rule("corp_nets")] };
    let policy = CompiledAclPolicy::compile(&cfg);
    assert_eq!(evaluate_preadmission(&policy, &views_for("10.1.2.3")), AclDecision::Drop);
    // No match: preadmission never applies default_action, even deny.
    assert_eq!(evaluate_preadmission(&policy, &views_for("192.0.2.1")), AclDecision::Admit);
}

#[test]
fn preadmission_defers_non_drop_first_match_to_full_tier() {
    let cfg = AclsConfig {
        default_action: "allow".into(),
        rules: vec![
            AclRule { match_view: "corp_nets".into(), action: "refuse".into(), tag: None },
            drop_rule("corp_nets"),
        ],
    };
    let policy = CompiledAclPolicy::compile(&cfg);
    assert_eq!(evaluate_preadmission(&policy, &views_for("10.1.2.3")), AclDecision::Admit);
    assert_eq!(evaluate_full(&policy, &views_for("10.1.2.3")), AclDecision::Refuse);
}

#[test]
fn tag_action_carries_tag_name() {
    let cfg = AclsConfig {
        default_action: "allow".into(),
        rules: vec![AclRule {
            match_view: "corp_nets".into(),
            action: "tag".into(),
            tag: Some("internal".into()),
        }],
    };
    let policy = CompiledAclPolicy::compile(&cfg);
    assert_eq!(evaluate_full(&policy, &views_for("10.1.2.3")), AclDecision::Tag("internal".into()));
}

fn check_listeners() -> (Vec<AclListener>, AclsConfig) {
    let listeners = vec![
        AclListener {
            name: "public".into(),
            acls: Some(AclsConfig { default_action: "deny".into(), rules: vec![accept_rule("corp_nets")] }),
        },
        AclListener { name: "internal".into(), acls: None },
    ];
    let global = AclsConfig {
        default_action: "allow".into(),
        rules: vec![AclRule { match_view: "corp_nets".into(), action: "tag".into(), tag: Some("corp".into()) }],
    };
    (listeners, global)
}

#[test]
fn check_client_acl_reports_all_listeners_and_filter() {
    let (listeners, global) = check_listeners();
    let all = check_client_acl(&listeners, Some(&global), &views_for("10.1.2.3"), None).unwrap();
    assert_eq!(all.len(), 2);
    assert_eq!(all[0].listener, "public");
    assert_eq!(all[0].decision, "admit");
    assert_eq!(all[0].action, "accept");
    assert_eq!(all[0].matched, "corp_nets");
    assert_eq!(all[1].listener, "internal");
    assert_eq!(all[1].decision, "tag");
    assert_eq!(all[1].tag.as_deref(), Some("corp"));

    let filtered = check_client_acl(&listeners, Some(&global), &views_for("203.0.113.1"), Some("public")).unwrap();
    assert_eq!(filtered.len(), 1);
    assert_eq!(filtered[0].decision, "drop");
    assert_eq!(filtered[0].matched, "default");
    assert_eq!(filtered[0].action, "deny");

    let err = check_client_acl(&listeners, Some(&global), &views_for("10.1.2.3"), Some("missing")).unwrap_err();
    assert!(matches!(err, AclCheckError::UnknownListener(_)));
}

#[test]
fn check_client_acl_without_listeners_is_an_error() {
    let err = check_client_acl(&vec![], None, &vec![], None).unwrap_err();
    assert_eq!(err, AclCheckError::NoListeners);
    assert_eq!(err.message(), "no listeners configured");
    assert_eq!(AclCheckError::UnknownListener("x".into()).message(), "unknown listener 'x'");
}

#[test]
fn first_matching_rule_wins_over_later_rules() {
    let cfg = AclsConfig {
        default_action: "deny".into(),
        rules: vec![
            AclRule { match_view: "other".into(), action: "refuse".into(), tag: None },
            drop_rule("corp_nets"),
            accept_rule("corp_nets"),
        ],
    };
    let policy = CompiledAclPolicy::compile(&cfg);
    assert_eq!(evaluate_full(&policy, &views_for("10.9.9.9")), AclDecision::Drop);
    assert_eq!(CompiledAclPolicy::admit_all().default_action, AclDefaultAction::Allow);
}
