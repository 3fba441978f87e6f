use predicate_authorityd::models::{AuthorizationReason, PolicyEffect, PolicyRule, SidecarAuthorizeRequest};
use predicate_authorityd::policy::{matches_pattern, missing_labels, PolicyEngine};
use predicate_authorityd::secrets::EnvSnapshot;
use std::collections::HashMap;

fn rule(name: &str, effect: PolicyEffect, principals: &[&str], actions: &[&str], resources: &[&str], labels: &[&str]) -> PolicyRule {
    PolicyRule {
        name: name.to_string(),
        effect,
        principals: principals.iter().map(|s| s.to_string()).collect(),
        actions: actions.iter().map(|s| s.to_string()).collect(),
        resources: resources.iter().map(|s| s.to_string()).collect(),
        required_labels: labels.iter().map(|s| s.to_string()).collect(),
        max_delegation_depth: None,
        inject_headers: None,
        inject_headers_from_file: None,
        inject_env: None,
        inject_env_from_file: None,
    }
}

fn sample_allow_rule() -> PolicyRule {
    rule("allow-browser-actions", PolicyEffect::Allow, &["agent:*"], &["browser.*"], &["https://*"], &[])
}

fn sample_deny_rule() -> PolicyRule {
    rule("deny-admin-actions", PolicyEffect::Deny, &["*"], &["admin.*"], &["*"], &[])
}

fn allow_all() -> PolicyRule {
    rule("allow-all", PolicyEffect::Allow, &["*"], &["*"], &["*"], &[])
}

fn req(principal: &str, action: &str, resource: &str) -> SidecarAuthorizeRequest {
    SidecarAuthorizeRequest {
        principal: principal.to_string(),
        action: action.to_string(),
        resource: resource.to_string(),
        scopes: vec![],
        intent_hash: None,
        labels: vec![],
    }
}

fn sample_request() -> SidecarAuthorizeRequest {
    req("agent:web-checkout", "browser.click", "https://example.com/checkout")
}

#[test]
fn test_no_rules_returns_no_matching_policy() {
    let engine = PolicyEngine::new();
    let result = engine.evaluate(&sample_request());
    assert!(!result.allowed);
    assert_eq!(result.reason, AuthorizationReason::NoMatchingPolicy);
}

#[test]
fn test_allow_rule_matches() {
    let engine = PolicyEngine::with_rules(vec![sample_allow_rule()]);
    let result = engine.evaluate(&sample_request());
    assert!(result.allowed);
    assert_eq!(result.reason, AuthorizationReason::Allowed);
    assert_eq!(result.matched_rule, Some("allow-browser-actions".to_string()));
}

#[test]
fn test_first_match_wins_deny() {
    let engine = PolicyEngine::with_rules(vec![
        rule("deny-checkout", PolicyEffect::Deny, &["*"], &["browser.*"], &["*checkout*"], &[]),
        sample_allow_rule(),
    ]);
    let result = engine.evaluate(&sample_request());
    assert!(!result.allowed);
    assert_eq!(result.reason, AuthorizationReason::ExplicitDeny);
}

#[test]
fn test_first_match_wins_allow() {
    let engine = PolicyEngine::with_rules(vec![
        sample_allow_rule(),
        rule("deny-all", PolicyEffect::Deny, &["*"], &["*"], &["*"], &[]),
    ]);
    let result = engine.evaluate(&sample_request());
    assert!(result.allowed);
    assert_eq!(result.reason, AuthorizationReason::Allowed);
}

#[test]
fn test_missing_required_labels() {
    let r = rule("allow-with-mfa", PolicyEffect::Allow, &["agent:*"], &["browser.*"], &["https://*"], &["mfa_verified"]);
    let engine = PolicyEngine::with_rules(vec![r]);
    let result = engine.evaluate(&sample_request());
    assert!(!result.allowed);
    assert_eq!(result.reason, AuthorizationReason::MissingRequiredVerification);
    assert_eq!(result.missing_labels, vec!["mfa_verified".to_string()]);
}

#[test]
fn test_labels_satisfy_requirements() {
    let r = rule("allow-with-mfa", PolicyEffect::Allow, &["agent:*"], &["browser.*"], &["https://*"], &["mfa_verified"]);
    let engine = PolicyEngine::with_rules(vec![r]);
    let mut request = sample_request();
    request.labels = vec!["mfa_verified".to_string()];
    let result = engine.evaluate(&request);
    assert!(result.allowed);
    assert_eq!(result.reason, AuthorizationReason::Allowed);
}

#[test]
fn test_pattern_matching() {
    assert!(matches_pattern("*", "anything"));
    assert!(matches_pattern("agent:*", "agent:web"));
    assert!(matches_pattern("browser.*", "browser.click"));
    assert!(matches_pattern("https://*", "https://example.com"));
    assert!(!matches_pattern("agent:*", "user:alice"));
    assert!(!matches_pattern("browser.*", "filesystem.read"));
}

#[test]
fn test_thread_safe_rule_replacement() {
    let mut engine = PolicyEngine::new();
    assert_eq!(engine.rule_count(), 0);
    engine.replace_rules(vec![sample_allow_rule()]);
    assert_eq!(engine.rule_count(), 1);
    engine.replace_rules(vec![sample_allow_rule(), sample_deny_rule()]);
    assert_eq!(engine.rule_count(), 2);
}

#[test]
fn test_ssrf_protection_blocks_localhost() {
    let engine = PolicyEngine::with_rules(vec![allow_all()]);
    let result = engine.evaluate(&req("agent:test", "http.fetch", "http://127.0.0.1/admin"));
    assert!(!result.allowed);
    assert_eq!(result.reason, AuthorizationReason::ExplicitDeny);
    assert!(result.matched_rule.unwrap().contains("ssrf-protection"));
}

#[test]
fn test_ssrf_protection_blocks_metadata() {
    let engine = PolicyEngine::with_rules(vec![allow_all()]);
    let result = engine.evaluate(&req("agent:test", "http.fetch", "http://169.254.169.254/latest/meta-data/"));
    assert!(!result.allowed);
    assert!(result.matched_rule.unwrap().contains("metadata"));
}

#[test]
fn test_ssrf_protection_allows_public() {
    let engine = PolicyEngine::with_rules(vec![allow_all()]);
    let result = engine.evaluate(&req("agent:test", "http.fetch", "https://api.example.com/data"));
    assert!(result.allowed);
}

#[test]
fn test_ssrf_protection_can_be_disabled() {
    let mut engine = PolicyEngine::with_rules(vec![allow_all()]);
    engine.set_ssrf_protection(None);
    let result = engine.evaluate(&req("agent:test", "http.fetch", "http://127.0.0.1/admin"));
    assert!(result.allowed);
}

#[test]
fn test_agent_colon_star() {
    assert!(matches_pattern("agent:*", "agent:test"), "agent:* should match agent:test");
    assert!(matches_pattern("agent:*", "agent:secureclaw"), "agent:* should match agent:secureclaw");
}

#[test]
fn test_star_matches_all() {
    assert!(matches_pattern("*", "/src/index.ts"), "* should match /src/index.ts");
    assert!(matches_pattern("*", "agent:test"), "* should match agent:test");
    assert!(matches_pattern("*", "fs.read"), "* should match fs.read");
}

#[test]
fn missing_labels_keep_required_order() {
    let required = vec!["a".to_string(), "b".to_string(), "c".to_string()];
    let passed = vec!["b".to_string()];
    assert_eq!(missing_labels(&required, &passed), vec!["a".to_string(), "c".to_string()]);
}

#[test]
fn audit_mode_and_home_are_settings() {
    let mut engine = PolicyEngine::new();
    assert!(!engine.is_audit_mode());
    engine.set_audit_mode(true);
    assert!(engine.is_audit_mode());
    assert!(engine.has_ssrf_protection());
}

#[test]
fn fs_resources_are_normalized_before_matching() {
    let engine = PolicyEngine::with_rules(vec![rule("ws", PolicyEffect::Allow, &["*"], &["fs.*"], &["/workspace/*"], &[])]);
    assert!(engine.evaluate(&req("agent:a", "fs.read", "/workspace/./notes.txt")).allowed);
    assert!(!engine.evaluate(&req("agent:a", "fs.read", "/workspace/../etc/passwd")).allowed);
}

#[test]
fn missing_secret_references_name_rule_and_variable() {
    let mut with_secrets = rule("api", PolicyEffect::Allow, &["agent:*"], &["http.fetch"], &["*"], &[]);
    let mut headers = HashMap::new();
    headers.insert("Authorization".to_string(), "Bearer ${API_TOKEN}".to_string());
    with_secrets.inject_headers = Some(headers);
    let mut envs = HashMap::new();
    envs.insert("DB".to_string(), "${DB_URL} ${HOME}".to_string());
    with_secrets.inject_env = Some(envs);
    let plain = rule("plain", PolicyEffect::Allow, &["agent:*"], &["*"], &["*"], &[]);
    let engine = PolicyEngine::with_rules(vec![plain, with_secrets]);
    let env = EnvSnapshot { vars: vec![("HOME".to_string(), "/home/u".to_string())] };
    let missing = engine.get_missing_secret_references(&env);
    assert_eq!(
        missing,
        vec![("api".to_string(), "API_TOKEN".to_string()), ("api".to_string(), "DB_URL".to_string())]
    );
    let full = EnvSnapshot {
        vars: vec![
            ("HOME".to_string(), "/home/u".to_string()),
            ("API_TOKEN".to_string(), "t".to_string()),
            ("DB_URL".to_string(), "d".to_string()),
        ],
    };
    assert!(engine.get_missing_secret_references(&full).is_empty());
}
