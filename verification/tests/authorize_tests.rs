use predicate_authorityd::authorize::{audit_subject, authorize_at, evaluate_scopes, invalid_token_response, missing_token_response};
use predicate_authorityd::execute::MandateStore;
use predicate_authorityd::ledger::InMemoryProofLedger;
use predicate_authorityd::mandate::{LocalMandateSigner, SigningAlgorithm};
use predicate_authorityd::models::{AuthorizationReason, PolicyEffect, PolicyRule, ScopeSpec, SidecarAuthorizeRequest};
use predicate_authorityd::policy::PolicyEngine;

fn rule(name: &str, effect: PolicyEffect, actions: &[&str], resources: &[&str]) -> PolicyRule {
    PolicyRule {
        name: name.to_string(),
        effect,
        principals: vec!["agent:*".to_string()],
        actions: actions.iter().map(|s| s.to_string()).collect(),
        resources: resources.iter().map(|s| s.to_string()).collect(),
        required_labels: vec![],
        max_delegation_depth: None,
        inject_headers: None,
        inject_headers_from_file: None,
        inject_env: None,
        inject_env_from_file: None,
    }
}

fn engine() -> PolicyEngine {
    PolicyEngine::with_rules(vec![
        rule("allow-browser", PolicyEffect::Allow, &["browser.*"], &["https://*"]),
        rule("allow-fs", PolicyEffect::Allow, &["fs.read"], &["/workspace/*"]),
    ])
}

fn single(action: &str, resource: &str) -> SidecarAuthorizeRequest {
    SidecarAuthorizeRequest {
        principal: "agent:test".to_string(),
        action: action.to_string(),
        resource: resource.to_string(),
        scopes: vec![],
        intent_hash: None,
        labels: vec![],
    }
}

fn multi(scopes: Vec<ScopeSpec>) -> SidecarAuthorizeRequest {
    SidecarAuthorizeRequest {
        principal: "agent:test".to_string(),
        action: String::new(),
        resource: String::new(),
        scopes,
        intent_hash: Some("intent".to_string()),
        labels: vec![],
    }
}

#[test]
fn no_rules_answers_forbidden() {
    let mut ledger = InMemoryProofLedger::new();
    let a = authorize_at(&PolicyEngine::new(), &mut ledger, None, &single("browser.click", "https://e.com"), 5, 100);
    assert_eq!(a.status, 403);
    assert!(!a.response.allowed);
    assert_eq!(a.response.reason, "no_matching_policy (action: browser.click, resource: https://e.com)");
    assert_eq!(ledger.event_count(), 1);
    assert_eq!(ledger.stats().denied_for("explicit_deny"), 1);
}

#[test]
fn empty_request_answers_bad_request() {
    let mut ledger = InMemoryProofLedger::new();
    let a = authorize_at(&engine(), &mut ledger, None, &single("", ""), 5, 100);
    assert_eq!(a.status, 400);
    assert_eq!(a.response.reason, "INVALID_REQUEST: either 'action' or 'scopes' must be provided");
    assert_eq!(ledger.event_count(), 0);
}

#[test]
fn allowed_with_signer_issues_a_mandate() {
    let mut ledger = InMemoryProofLedger::new();
    let signer = LocalMandateSigner::new("secret", 300, SigningAlgorithm::ES256, true, None, None);
    let a = authorize_at(&engine(), &mut ledger, Some(&signer), &single("browser.click", "https://e.com"), 5, 100);
    assert_eq!(a.status, 200);
    assert_eq!(a.response.reason, "allowed");
    let m = a.mandate.unwrap();
    assert_eq!(a.response.mandate_id, Some(m.claims.mandate_id.clone()));
    assert_eq!(a.response.mandate_token, Some(m.token.clone()));
    assert_eq!(a.response.scopes_authorized.len(), 1);
    assert_eq!(a.response.scopes_authorized[0].matched_rule, Some("allow-browser".to_string()));
    assert!(signer.verify_at(&m.token, 100).is_some());
    let mut store = MandateStore::new();
    store.store(m);
    assert_eq!(ledger.recent_events(1)[0].latency_us, Some(5));
}

#[test]
fn allowed_without_signer_has_no_mandate() {
    let mut ledger = InMemoryProofLedger::new();
    let a = authorize_at(&engine(), &mut ledger, None, &single("browser.click", "https://e.com"), 5, 100);
    assert_eq!(a.status, 200);
    assert!(a.mandate.is_none());
    assert!(a.response.mandate_token.is_none());
}

#[test]
fn multi_scope_all_allowed_and_partial_denial() {
    let mut ledger = InMemoryProofLedger::new();
    let ok = authorize_at(
        &engine(),
        &mut ledger,
        None,
        &multi(vec![ScopeSpec::new("browser.click", "https://a.com"), ScopeSpec::new("fs.read", "/workspace/x")]),
        1,
        100,
    );
    assert_eq!(ok.status, 200);
    assert_eq!(ok.response.scopes_authorized.len(), 2);
    assert_eq!(ok.response.scopes_authorized[1].matched_rule, Some("allow-fs".to_string()));
    let recent = ledger.recent_events(1);
    assert_eq!(recent[0].action, "multi-scope[2]");
    assert_eq!(recent[0].resource, "browser.click,fs.read");

    let denied = authorize_at(
        &engine(),
        &mut ledger,
        None,
        &multi(vec![ScopeSpec::new("browser.click", "https://a.com"), ScopeSpec::new("fs.write", "/etc/x")]),
        1,
        100,
    );
    assert_eq!(denied.status, 403);
    assert_eq!(denied.response.reason, "no_matching_policy (action: fs.write, resource: /etc/x)");
    assert!(denied.response.scopes_authorized.is_empty());
    assert_eq!(ledger.recent_events(1)[0].reason, AuthorizationReason::ExplicitDeny);
}

#[test]
fn scope_evaluation_tallies_each_scope() {
    let req = multi(vec![ScopeSpec::new("x.y", "z"), ScopeSpec::new("browser.go", "https://q")]);
    let scopes = req.all_scopes();
    let e = evaluate_scopes(&engine(), &req, &scopes);
    assert!(!e.all_allowed);
    assert_eq!(e.first_denial_reason, Some("no_matching_policy (action: x.y, resource: z)".to_string()));
    assert_eq!(e.scopes_authorized.len(), 1);
    let (a, r) = audit_subject(&single("fs.read", "/w"), &single("fs.read", "/w").all_scopes());
    assert_eq!((a.as_str(), r.as_str()), ("fs.read", "/w"));
}

#[test]
fn token_answers() {
    assert_eq!(missing_token_response().reason, "MISSING_AUTHORIZATION");
    assert_eq!(invalid_token_response("expired").reason, "INVALID_TOKEN: expired");
}

#[test]
fn readme_single_scope_deny_gives_the_bare_reason() {
    let engine = PolicyEngine::with_rules(vec![
        rule("allow-browser-https", PolicyEffect::Allow, &["browser.*"], &["https://*"]),
        rule("deny-admin", PolicyEffect::Deny, &["admin.*"], &["*"]),
    ]);
    let mut ledger = InMemoryProofLedger::new();
    let mut req = single("admin.delete", "/users/123");
    req.principal = "agent:web".to_string();
    let denied = authorize_at(&engine, &mut ledger, None, &req, 1, 100);
    assert_eq!(denied.status, 403);
    assert!(!denied.response.allowed);
    assert_eq!(denied.response.reason, "explicit_deny");
    assert!(denied.response.mandate_token.is_none());
    let mut ok_req = single("browser.click", "https://example.com");
    ok_req.principal = "agent:web".to_string();
    let ok = authorize_at(&engine, &mut ledger, None, &ok_req, 1, 100);
    assert_eq!(ok.status, 200);
    assert!(ok.response.allowed);
    assert_eq!(ok.response.reason, "allowed");
}
