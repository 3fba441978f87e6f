use predicate_authorityd::models::{
    ActionSpec, DelegateError, DelegateErrorCode, ExecuteErrorCode, MandateClaims, ScopeSpec,
    SidecarAuthorizeRequest,
};

#[test]
fn test_delegate_error_codes() {
    let error = DelegateError::scope_exceeded("browser.*", "*", "fs.*", "*");
    assert_eq!(error.code, DelegateErrorCode::DelegationExceedsScope);
    assert!(error.message.contains("exceeds parent scope"));

    let error = DelegateError::max_depth_exceeded(2, 3);
    assert_eq!(error.code, DelegateErrorCode::MaxDelegationDepthExceeded);
    assert!(error.message.contains("depth 3"));
}

#[test]
fn test_error_code_display() {
    assert_eq!(DelegateErrorCode::InvalidParentMandate.to_string(), "INVALID_PARENT_MANDATE");
    assert_eq!(DelegateErrorCode::DelegationExceedsScope.to_string(), "DELEGATION_EXCEEDS_SCOPE");
}

#[test]
fn test_execute_error_code_display() {
    assert_eq!(ExecuteErrorCode::MandateNotFound.to_string(), "mandate_not_found");
    assert_eq!(ExecuteErrorCode::MandateExpired.to_string(), "mandate_expired");
    assert_eq!(ExecuteErrorCode::ActionMismatch.to_string(), "action_mismatch");
    assert_eq!(ExecuteErrorCode::ResourceMismatch.to_string(), "resource_mismatch");
    assert_eq!(ExecuteErrorCode::ExecutionFailed.to_string(), "execution_failed");
    assert_eq!(ExecuteErrorCode::UnsupportedAction.to_string(), "unsupported_action");
    assert_eq!(ExecuteErrorCode::InvalidPayload.to_string(), "invalid_payload");
}

#[test]
fn test_scope_spec_creation() {
    let scope = ScopeSpec::new("browser.click", "https://example.com");
    assert_eq!(scope.action, "browser.click");
    assert_eq!(scope.resource, "https://example.com");
}

#[test]
fn test_action_spec_single_scope() {
    let spec = ActionSpec::single("fs.read", "/src/file.ts", "read file");
    assert_eq!(spec.action, "fs.read");
    assert_eq!(spec.resource, "/src/file.ts");
    assert!(!spec.is_multi_scope());
    let scopes = spec.all_scopes();
    assert_eq!(scopes.len(), 1);
    assert_eq!(scopes[0].action, "fs.read");
}

#[test]
fn test_action_spec_multi_scope() {
    let scopes = vec![
        ScopeSpec::new("browser.*", "https://example.com/*"),
        ScopeSpec::new("fs.*", "/workspace/**"),
    ];
    let spec = ActionSpec::multi(scopes, "orchestrate task");
    assert!(spec.is_multi_scope());
    assert_eq!(spec.action, "browser.*");
    let all_scopes = spec.all_scopes();
    assert_eq!(all_scopes.len(), 2);
    assert_eq!(all_scopes[0].action, "browser.*");
    assert_eq!(all_scopes[1].action, "fs.*");
}

fn request(principal: &str, action: &str, resource: &str, scopes: Vec<ScopeSpec>) -> SidecarAuthorizeRequest {
    SidecarAuthorizeRequest {
        principal: principal.to_string(),
        action: action.to_string(),
        resource: resource.to_string(),
        scopes,
        intent_hash: None,
        labels: vec![],
    }
}

#[test]
fn test_sidecar_request_single_scope() {
    let req = request("agent:web", "browser.click", "https://example.com", vec![]);
    assert!(!req.is_multi_scope());
    assert!(req.validate().is_ok());
    let scopes = req.all_scopes();
    assert_eq!(scopes.len(), 1);
    assert_eq!(scopes[0].action, "browser.click");
}

#[test]
fn test_sidecar_request_multi_scope() {
    let mut req = request(
        "agent:orchestrator",
        "",
        "",
        vec![ScopeSpec::new("browser.*", "https://amazon.com/*"), ScopeSpec::new("fs.*", "/workspace/**")],
    );
    req.intent_hash = Some("orchestrate:ecommerce:123".to_string());
    assert!(req.is_multi_scope());
    assert!(req.validate().is_ok());
    let scopes = req.all_scopes();
    assert_eq!(scopes.len(), 2);
    assert_eq!(scopes[0].action, "browser.*");
    assert_eq!(scopes[1].action, "fs.*");
}

#[test]
fn test_sidecar_request_validation_fails_empty() {
    let req = request("agent:web", "", "", vec![]);
    assert!(req.validate().is_err());
}

fn claims(action: &str, resource: &str, scopes: Vec<ScopeSpec>) -> MandateClaims {
    MandateClaims {
        mandate_id: "m_123".to_string(),
        principal_id: "agent:test".to_string(),
        action: action.to_string(),
        resource: resource.to_string(),
        scopes,
        intent_hash: "hash".to_string(),
        state_hash: "state".to_string(),
        issued_at_epoch_s: 0,
        expires_at_epoch_s: 0,
        delegated_by: None,
        parent_mandate_id: None,
        delegation_depth: 0,
        delegation_chain_hash: None,
        iss: None,
        aud: None,
        sub: None,
        iat: None,
        exp: None,
        nbf: None,
        jti: None,
    }
}

#[test]
fn test_mandate_claims_all_scopes_single() {
    let c = claims("browser.click", "https://example.com", Vec::new());
    assert!(!c.is_multi_scope());
    let scopes = c.all_scopes();
    assert_eq!(scopes.len(), 1);
    assert_eq!(scopes[0].action, "browser.click");
}

#[test]
fn test_mandate_claims_all_scopes_multi() {
    let c = claims(
        "browser.*",
        "https://*",
        vec![ScopeSpec::new("browser.*", "https://*"), ScopeSpec::new("fs.*", "/workspace/**")],
    );
    assert!(c.is_multi_scope());
    let scopes = c.all_scopes();
    assert_eq!(scopes.len(), 2);
}

#[test]
fn delegate_error_messages_are_exact() {
    assert_eq!(DelegateError::parent_expired().message, "Parent mandate has expired");
    assert_eq!(DelegateError::parent_revoked().message, "Parent mandate has been revoked");
    assert_eq!(
        DelegateError::invalid_parent_mandate("x").message,
        "Parent mandate validation failed: x"
    );
    assert_eq!(
        DelegateError::max_depth_exceeded(2, 3).message,
        "Current delegation depth 3 would exceed maximum depth 3"
    );
    assert_eq!(DelegateError::signing_failed("k").code, DelegateErrorCode::SigningFailed);
}
