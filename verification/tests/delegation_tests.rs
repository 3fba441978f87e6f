use std::time::{SystemTime, UNIX_EPOCH};

use predicate_authorityd::delegation::{
    check_delegation, delegate_status, issue_derived_mandate, DelegationState,
};
use predicate_authorityd::mandate::{LocalMandateSigner, SigningAlgorithm};
use predicate_authorityd::models::{
    ActionRequest, ActionSpec, DelegateErrorCode, DelegateRequest, PrincipalRef, ScopeSpec,
    SignedMandate, StateEvidence, VerificationEvidence,
};
use predicate_authorityd::subset::is_scope_subset_of_any;
use predicate_authorityd::delegation::DelegateResult;
use predicate_authorityd::models::{DelegateError, DelegateResponse};

fn now() -> i64 {
    SystemTime::now().duration_since(UNIX_EPOCH).unwrap().as_secs() as i64
}

fn test_signer() -> LocalMandateSigner {
    LocalMandateSigner::new("test-delegation-secret", 300, SigningAlgorithm::ES256, true, None, None)
}

fn test_delegation_state() -> DelegationState {
    DelegationState::new(test_signer()).with_max_depth(3)
}

fn default_evidence() -> VerificationEvidence {
    VerificationEvidence { schema_version: String::new(), signals: vec![], verified: false }
}

fn request(principal: &str, action: &str, resource: &str, intent: &str, scopes: Vec<ScopeSpec>) -> ActionRequest {
    ActionRequest {
        principal: PrincipalRef::new(principal),
        action_spec: ActionSpec { action: action.to_string(), resource: resource.to_string(), intent: intent.to_string(), scopes },
        state_evidence: StateEvidence::new("test", "state123"),
        verification_evidence: default_evidence(),
    }
}

fn create_root_mandate(signer: &LocalMandateSigner) -> SignedMandate {
    signer.issue(&request("agent:root", "browser.*", "https://*", "root task", Vec::new()), None)
}

fn create_multi_scope_root_mandate(signer: &LocalMandateSigner) -> SignedMandate {
    signer.issue(
        &request(
            "agent:orchestrator",
            "browser.*",
            "https://*",
            "orchestrate task",
            vec![ScopeSpec::new("browser.*", "https://*"), ScopeSpec::new("fs.*", "/workspace/**")],
        ),
        None,
    )
}

#[test]
fn test_delegation_state_creation() {
    let state = test_delegation_state();
    assert_eq!(state.max_delegation_depth, 3);
    assert!(!state.is_mandate_revoked("m_nonexistent"));
}

#[test]
fn delegate_test_mandate_revocation() {
    let mut state = test_delegation_state();
    state.revoke_mandate("m_abc123");
    assert!(state.is_mandate_revoked("m_abc123"));
    assert!(!state.is_mandate_revoked("m_other"));
    state.update_revoked_mandates(&vec!["m_def456".to_string(), "m_ghi789".to_string()]);
    assert!(state.is_mandate_revoked("m_def456"));
    assert!(state.is_mandate_revoked("m_ghi789"));
    state.clear_revoked_mandates();
    assert!(!state.is_mandate_revoked("m_abc123"));
}

#[test]
fn test_issue_derived_mandate() {
    let signer = test_signer();
    let root = create_root_mandate(&signer);
    let child = request("agent:child", "browser.click", "https://example.com", "click button", Vec::new());
    let derived = issue_derived_mandate(&signer, &child, &root, 60, now());
    assert_eq!(derived.claims.principal_id, "agent:child");
    assert_eq!(derived.claims.action, "browser.click");
    assert_eq!(derived.claims.delegation_depth, 1);
    assert_eq!(derived.claims.delegated_by, Some("agent:root".to_string()));
    assert_eq!(derived.claims.parent_mandate_id, Some(root.claims.mandate_id.clone()));
}

#[test]
fn test_derived_mandate_ttl_capping() {
    let signer = test_signer();
    let root = create_root_mandate(&signer);
    let child = request("agent:child", "browser.click", "https://example.com", "click", Vec::new());
    let derived_short = issue_derived_mandate(&signer, &child, &root, 10, now());
    let t = now();
    assert!(derived_short.claims.expires_at_epoch_s <= t + 15);
    assert!(derived_short.claims.expires_at_epoch_s >= t + 5);
}

#[test]
fn test_delegation_chain_verification() {
    let signer = test_signer();
    let root = create_root_mandate(&signer);
    let child = request("agent:child", "browser.click", "https://example.com", "click", Vec::new());
    let derived = issue_derived_mandate(&signer, &child, &root, 300, now());
    assert!(signer.verify_delegation(&root, None));
    assert!(signer.verify_delegation(&derived, Some(&root)));
}

#[test]
fn test_multi_scope_mandate_issuance() {
    let signer = test_signer();
    let root = create_multi_scope_root_mandate(&signer);
    assert!(root.claims.is_multi_scope());
    assert_eq!(root.claims.scopes.len(), 2);
    assert_eq!(root.claims.scopes[0].action, "browser.*");
    assert_eq!(root.claims.scopes[1].action, "fs.*");
}

#[test]
fn test_multi_scope_delegation_browser_scope() {
    let signer = test_signer();
    let root = create_multi_scope_root_mandate(&signer);
    let child = request("agent:scraper", "browser.navigate", "https://amazon.com/products", "scrape products", Vec::new());
    let parent_scopes = root.claims.all_scopes();
    assert!(is_scope_subset_of_any(&parent_scopes, "browser.navigate", "https://amazon.com/products"));
    let derived = issue_derived_mandate(&signer, &child, &root, 60, now());
    assert_eq!(derived.claims.principal_id, "agent:scraper");
    assert_eq!(derived.claims.action, "browser.navigate");
    assert_eq!(derived.claims.delegation_depth, 1);
}

#[test]
fn test_multi_scope_delegation_fs_scope() {
    let signer = test_signer();
    let root = create_multi_scope_root_mandate(&signer);
    let child = request("agent:analyst", "fs.write", "/workspace/data/analysis.json", "write analysis", Vec::new());
    let parent_scopes = root.claims.all_scopes();
    assert!(is_scope_subset_of_any(&parent_scopes, "fs.write", "/workspace/data/analysis.json"));
    let derived = issue_derived_mandate(&signer, &child, &root, 60, now());
    assert_eq!(derived.claims.principal_id, "agent:analyst");
    assert_eq!(derived.claims.action, "fs.write");
}

#[test]
fn test_multi_scope_delegation_denied_for_unmatched_scope() {
    let signer = test_signer();
    let root = create_multi_scope_root_mandate(&signer);
    let parent_scopes = root.claims.all_scopes();
    assert!(!is_scope_subset_of_any(&parent_scopes, "network.connect", "tcp://internal:3306"));
}

fn delegate_request(token: &str, action: &str, resource: &str, ttl: Option<u64>) -> DelegateRequest {
    DelegateRequest {
        parent_mandate_token: token.to_string(),
        target_agent_id: "agent:child".to_string(),
        requested_action: action.to_string(),
        requested_resource: resource.to_string(),
        intent_hash: "intent".to_string(),
        ttl_seconds: ttl,
    }
}

#[test]
fn delegation_endpoint_grants_and_refuses() {
    let mut state = test_delegation_state();
    let root = state.mandate_signer.issue_at(
        &request("agent:root", "browser.*", "https://*", "root task", Vec::new()),
        None,
        1_000,
    );

    let ok = state.delegate_at(&delegate_request(&root.token, "browser.click", "https://a.com", Some(30)), 1_000).unwrap();
    assert_eq!(ok.delegation_depth, 1);
    assert_eq!(ok.expires_at, 1_030);
    assert_eq!(delegate_status(&Ok(ok.clone())), 200);

    let bad_token = state.delegate_at(&delegate_request("garbage", "browser.click", "https://a.com", None), 1_000).unwrap_err();
    assert_eq!(bad_token.code, DelegateErrorCode::InvalidParentMandate);
    assert_eq!(delegate_status(&Err(bad_token)), 401);

    let scope = state.delegate_at(&delegate_request(&root.token, "fs.read", "/etc", None), 1_000).unwrap_err();
    assert_eq!(scope.code, DelegateErrorCode::DelegationExceedsScope);
    assert_eq!(scope.message, "Requested scope (fs.read, /etc) exceeds parent scope (browser.*, https://*)");

    state.revoke_mandate(&root.claims.mandate_id);
    let revoked = state.delegate_at(&delegate_request(&root.token, "browser.click", "https://a.com", None), 1_000).unwrap_err();
    assert_eq!(revoked.code, DelegateErrorCode::ParentMandateRevoked);
    assert_eq!(delegate_status(&Err(revoked)), 403);
}

#[test]
fn delegation_depth_is_limited() {
    let state = DelegationState::new(test_signer()).with_max_depth(0);
    let root = state.mandate_signer.issue_at(&request("agent:root", "*", "*", "i", Vec::new()), None, 500);
    let err = state.delegate_at(&delegate_request(&root.token, "a", "b", None), 500).unwrap_err();
    assert_eq!(err.code, DelegateErrorCode::MaxDelegationDepthExceeded);
    assert_eq!(err.message, "Current delegation depth 1 would exceed maximum depth 0");
}

#[test]
fn requested_lifetime_is_capped_by_the_parent() {
    let signer = test_signer();
    let root = signer.issue_at(&request("agent:root", "*", "*", "i", Vec::new()), None, 100);
    let req = delegate_request(&root.token, "a", "b", Some(10_000));
    assert_eq!(check_delegation(&root.claims, false, &req, 5, 150).unwrap(), 250);
    let req = delegate_request(&root.token, "a", "b", None);
    assert_eq!(check_delegation(&root.claims, false, &req, 5, 150).unwrap(), 250);
    assert_eq!(check_delegation(&root.claims, false, &req, 5, 500).unwrap_err().code, DelegateErrorCode::ParentMandateExpired);
}

#[test]
fn delegate_result_wraps_each_outcome() {
    let ok: Result<DelegateResponse, DelegateError> = Ok(DelegateResponse {
        mandate_token: "eyJhbGci...".to_string(),
        mandate_id: "m_abc123".to_string(),
        expires_at: 1700000000,
        delegation_depth: 1,
        delegation_chain_hash: "hash123".to_string(),
    });
    match DelegateResult::from_outcome(ok) {
        DelegateResult::Success(r) => assert_eq!(r.mandate_id, "m_abc123"),
        DelegateResult::Error(_) => panic!("expected success"),
    }
    let err: Result<DelegateResponse, DelegateError> = Err(DelegateError::scope_exceeded("browser.*", "*", "fs.*", "*"));
    match DelegateResult::from_outcome(err) {
        DelegateResult::Error(e) => assert_eq!(e.message, "Requested scope (fs.*, *) exceeds parent scope (browser.*, *)"),
        DelegateResult::Success(_) => panic!("expected error"),
    }
}

#[test]
fn capped_derived_token_carries_the_capped_expiry() {
    let signer = test_signer();
    let root = signer.issue_at(&request("agent:root", "browser.*", "https://*", "root task", Vec::new()), None, 1_000);
    let child = request("agent:child", "browser.click", "https://example.com", "click", Vec::new());
    let derived = issue_derived_mandate(&signer, &child, &root, 10, 1_000);
    assert_eq!(derived.claims.expires_at_epoch_s, 1_010);
    let back = signer.verify_at(&derived.token, 1_005).unwrap();
    assert_eq!(back.claims.expires_at_epoch_s, 1_010);
    assert_eq!(back.claims.exp, Some(1_010));
    assert!(signer.verify_at(&derived.token, 1_011).is_none());
}

#[test]
fn issued_token_verifies_back_to_its_claims() {
    let signer = test_signer();
    let m = signer.issue_at(&request("agent:root", "browser.*", "https://*", "root task", Vec::new()), None, 500);
    let back = signer.verify_at(&m.token, 600).unwrap();
    assert_eq!(back.claims.mandate_id, m.claims.mandate_id);
    assert_eq!(back.claims.expires_at_epoch_s, m.claims.expires_at_epoch_s);
    assert_eq!(back.token, m.token);
}
