use predicate_authorityd::mandate::{claims_json_text, constant_time_eq, parse_claims, LocalMandateSigner, SigningAlgorithm};
use predicate_authorityd::models::{ActionRequest, ActionSpec, PrincipalRef, ScopeSpec, StateEvidence, VerificationEvidence};

fn test_signer() -> LocalMandateSigner {
    LocalMandateSigner::new("test-secret-key", 300, SigningAlgorithm::ES256, true, None, None)
}

fn evidence() -> VerificationEvidence {
    VerificationEvidence { schema_version: "1.0".to_string(), signals: vec![], verified: true }
}

fn action_request(principal: &str, action: &str, resource: &str, intent: &str, source: &str, state: &str) -> ActionRequest {
    ActionRequest {
        principal: PrincipalRef::new(principal),
        action_spec: ActionSpec {
            action: action.to_string(),
            resource: resource.to_string(),
            intent: intent.to_string(),
            scopes: Vec::new(),
        },
        state_evidence: StateEvidence::new(source, state),
        verification_evidence: evidence(),
    }
}

fn test_request() -> ActionRequest {
    action_request("agent:test", "browser.click", "https://example.com", "click button", "web", "state123")
}

#[test]
fn test_issue_and_verify() {
    let signer = test_signer();
    let request = test_request();
    let mandate = signer.issue(&request, None);
    assert!(!mandate.token.is_empty());
    assert_eq!(mandate.claims.principal_id, "agent:test");
    assert_eq!(mandate.claims.action, "browser.click");
    assert_eq!(mandate.claims.delegation_depth, 0);
    assert!(mandate.claims.delegated_by.is_none());
    let verified = signer.verify(&mandate.token);
    assert!(verified.is_some());
    assert_eq!(verified.unwrap().claims.mandate_id, mandate.claims.mandate_id);
}

#[test]
fn test_delegation_chain() {
    let signer = test_signer();
    let root_request = action_request("agent:root", "task.delegate", "worker:queue", "delegate task", "non-web", "root-state");
    let root_mandate = signer.issue(&root_request, None);
    let child_request = action_request("agent:worker", "job.execute", "queue://jobs", "execute job", "non-web", "worker-state");
    let child_mandate = signer.issue(&child_request, Some(&root_mandate));
    assert_eq!(root_mandate.claims.delegation_depth, 0);
    assert!(root_mandate.claims.delegated_by.is_none());
    assert_eq!(child_mandate.claims.delegation_depth, 1);
    assert_eq!(child_mandate.claims.delegated_by, Some("agent:root".to_string()));
    assert_eq!(child_mandate.claims.parent_mandate_id, Some(root_mandate.claims.mandate_id.clone()));
    assert!(signer.verify_delegation(&root_mandate, None));
    assert!(signer.verify_delegation(&child_mandate, Some(&root_mandate)));
    assert!(!signer.verify_delegation(&child_mandate, None));
}

#[test]
fn test_key_lifecycle() {
    let mut signer = test_signer();
    let status = signer.key_lifecycle_status();
    assert!(!status.active_kid.is_empty());
    assert!(status.next_kid.is_none());
    assert_eq!(status.verification_kids.len(), 1);
    let new_kid = signer.stage_next_signing_key("new-secret-key");
    let status = signer.key_lifecycle_status();
    assert_eq!(status.next_kid, Some(new_kid.clone()));
    assert_eq!(status.verification_kids.len(), 2);
    let activated = signer.activate_staged_signing_key().unwrap();
    assert_eq!(activated, new_kid);
    let status = signer.key_lifecycle_status();
    assert_eq!(status.active_kid, new_kid);
    assert!(status.next_kid.is_none());
    let old_kid = &status.verification_kids[0];
    if old_kid != &new_kid {
        assert!(signer.retire_verification_key(old_kid));
        let status = signer.key_lifecycle_status();
        assert_eq!(status.verification_kids.len(), 1);
    }
}

#[test]
fn test_hs256_signing() {
    let signer = LocalMandateSigner::new("test-secret", 300, SigningAlgorithm::HS256, true, None, None);
    let request = test_request();
    let mandate = signer.issue(&request, None);
    let verified = signer.verify(&mandate.token);
    assert!(verified.is_some());
}

#[test]
fn expired_token_is_rejected_later() {
    let signer = LocalMandateSigner::new("test-secret", 1, SigningAlgorithm::ES256, true, None, None);
    let mandate = signer.issue_at(&test_request(), None, 1_000);
    assert!(signer.verify_at(&mandate.token, 1_000).is_some());
    assert!(signer.verify_at(&mandate.token, 1_002).is_none());
}

#[test]
fn key_ids_and_algorithm_names() {
    let signer = test_signer();
    assert_eq!(signer.key_lifecycle_status().active_kid, "017b4553ca401841");
    assert_eq!(signer.key_lifecycle_status().signing_alg, "ES256");
    assert_eq!(SigningAlgorithm::HS256.as_str(), "HS256");
}

#[test]
fn retiring_active_or_staged_key_is_refused() {
    let mut signer = test_signer();
    let active = signer.key_lifecycle_status().active_kid;
    assert!(!signer.retire_verification_key(&active));
    let staged = signer.stage_next_signing_key("other");
    assert!(!signer.retire_verification_key(&staged));
    assert!(!signer.retire_verification_key("unknown"));
    assert!(signer.activate_staged_signing_key().is_ok());
    assert_eq!(signer.activate_staged_signing_key(), Err("No staged signing key to activate"));
    assert!(signer.retire_verification_key(&active));
}

#[test]
fn tokens_from_another_secret_do_not_verify() {
    let a = test_signer();
    let b = LocalMandateSigner::new("another-secret", 300, SigningAlgorithm::ES256, true, None, None);
    let m = a.issue(&test_request(), None);
    assert!(b.verify(&m.token).is_none());
    let mut tampered = m.token.clone();
    tampered.push('x');
    assert!(a.verify(&tampered).is_none());
    assert!(a.verify("not.a.token").is_none());
}

#[test]
fn hs256_tokens_need_the_legacy_allowance_under_es256() {
    let hs = LocalMandateSigner::new("shared", 300, SigningAlgorithm::HS256, false, None, None);
    let es_strict = LocalMandateSigner::new("shared", 300, SigningAlgorithm::ES256, false, None, None);
    let es_legacy = LocalMandateSigner::new("shared", 300, SigningAlgorithm::ES256, true, None, None);
    let m = hs.issue_at(&test_request(), None, 50);
    assert!(es_strict.verify_at(&m.token, 50).is_none());
    assert!(es_legacy.verify_at(&m.token, 50).is_some());
}

#[test]
fn claims_read_back_from_their_json() {
    let signer = test_signer();
    let mut req = test_request();
    req.action_spec.scopes = vec![ScopeSpec::new("fs.*", "/w/\"q\""), ScopeSpec::new("a", "b")];
    let m = signer.issue_at(&req, None, 77);
    let json = claims_json_text(&m.claims);
    let back = parse_claims(&json).unwrap();
    assert_eq!(back.mandate_id, m.claims.mandate_id);
    assert_eq!(back.scopes.len(), 2);
    assert_eq!(back.scopes[0].resource, "/w/\"q\"");
    assert_eq!(back.exp, Some(377));
    assert!(parse_claims("{}").is_none());
}

#[test]
fn constant_time_comparison() {
    assert!(constant_time_eq(b"abc", b"abc"));
    assert!(!constant_time_eq(b"abc", b"abd"));
    assert!(!constant_time_eq(b"abc", b"ab"));
}

#[test]
fn try_new_refuses_nonpositive_lifetime() {
    assert!(LocalMandateSigner::try_new("s", 0, SigningAlgorithm::ES256, true, None, None).is_none());
    assert!(LocalMandateSigner::try_new("s", 5, SigningAlgorithm::ES256, true, Some("iss"), Some("aud")).is_some());
}

#[test]
fn claims_with_optional_members_read_back() {
    let c = predicate_authorityd::models::MandateClaims {
        mandate_id: "m\\1\n\u{1}".to_string(),
        principal_id: "agent:x".to_string(),
        action: "fs.read".to_string(),
        resource: "/tmp/é".to_string(),
        scopes: Vec::new(),
        intent_hash: "ih".to_string(),
        state_hash: "sh".to_string(),
        issued_at_epoch_s: -20,
        expires_at_epoch_s: 1_700_000_000,
        delegated_by: Some("agent:parent".to_string()),
        parent_mandate_id: None,
        delegation_depth: 3,
        delegation_chain_hash: Some("chain".to_string()),
        iss: None,
        aud: Some("aud".to_string()),
        sub: None,
        iat: Some(-5),
        exp: Some(100),
        nbf: None,
        jti: Some("j".to_string()),
    };
    let json = claims_json_text(&c);
    let back = parse_claims(&json).unwrap();
    assert_eq!(back.mandate_id, c.mandate_id);
    assert_eq!(back.resource, c.resource);
    assert!(back.scopes.is_empty());
    assert_eq!(back.issued_at_epoch_s, -20);
    assert_eq!(back.expires_at_epoch_s, 1_700_000_000);
    assert_eq!(back.delegated_by, Some("agent:parent".to_string()));
    assert_eq!(back.parent_mandate_id, None);
    assert_eq!(back.delegation_depth, 3);
    assert_eq!(back.delegation_chain_hash, Some("chain".to_string()));
    assert_eq!(back.iss, None);
    assert_eq!(back.aud, Some("aud".to_string()));
    assert_eq!(back.sub, None);
    assert_eq!(back.iat, Some(-5));
    assert_eq!(back.exp, Some(100));
    assert_eq!(back.nbf, None);
    assert_eq!(back.jti, Some("j".to_string()));
    let mut longer = json.clone();
    longer.push(' ');
    assert!(parse_claims(&longer).is_none());
}

#[test]
fn try_stage_stages_a_usable_secret() {
    let mut signer = test_signer();
    let kid = signer.try_stage_next_signing_key("staged-secret").unwrap();
    assert_eq!(signer.key_lifecycle_status().next_kid, Some(kid.clone()));
    assert!(signer.key_lifecycle_status().verification_kids.contains(&kid));
}
