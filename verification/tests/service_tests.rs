use predicate_authorityd::service::{reload_access, ReloadAccess};
use predicate_authorityd::identity::LocalIdentityRegistry;
use predicate_authorityd::ledger::InMemoryProofLedger;
use predicate_authorityd::models::{AuthorizationReason, ProofEvent};
use predicate_authorityd::service::{
    chain_verify_message, extract_bearer_token, flush_message, identity_issue_outcome, identity_revoke_outcome,
    metrics_text, registry_disabled, reload_message, requeue_outcome, REGISTRY_DISABLED,
};

#[test]
fn bearer_tokens() {
    assert_eq!(extract_bearer_token(Some("Bearer abc ")), Some("abc".to_string()));
    assert_eq!(extract_bearer_token(Some("bEaReR  xyz")), Some("xyz".to_string()));
    assert_eq!(extract_bearer_token(Some("Basic abc")), None);
    assert_eq!(extract_bearer_token(Some("Bearer")), None);
    assert_eq!(extract_bearer_token(None), None);
}

#[test]
fn metrics_text_lists_counters() {
    let mut ledger = InMemoryProofLedger::new();
    ledger.record_decision("agent:a", "x.read", "r", true, AuthorizationReason::Allowed, None);
    ledger.record_decision("agent:a", "x.write", "r", false, AuthorizationReason::ExplicitDeny, None);
    let stats = ledger.stats();
    let text = metrics_text(42, &stats, 3);
    assert!(text.starts_with("# HELP predicate_authority_uptime_seconds Sidecar uptime in seconds\n"));
    assert!(text.contains("predicate_authority_uptime_seconds 42\n"));
    assert!(text.contains("predicate_authority_decisions_total{result=\"allowed\"} 1\n"));
    assert!(text.contains("predicate_authority_decisions_total{result=\"denied\"} 1\n"));
    assert!(text.contains("predicate_authority_denials_by_reason{reason=\"explicit_deny\"} 1\n"));
    assert!(text.ends_with("predicate_authority_policy_rules 3\n"));
}

#[test]
fn endpoint_outcomes() {
    let d = registry_disabled();
    assert_eq!((d.status, d.success, d.error.as_deref()), (503, false, Some(REGISTRY_DISABLED)));
    let e = identity_issue_outcome(&Err("ttl_seconds must be > 0"));
    assert_eq!((e.status, e.error.as_deref()), (400, Some("ttl_seconds must be > 0")));
    assert_eq!(identity_revoke_outcome(false).status, 404);
    assert_eq!(identity_revoke_outcome(true).status, 200);
    assert_eq!(requeue_outcome(false).error.as_deref(), Some("Queue item not found or not quarantined"));
    assert_eq!(flush_message(3), "Flushed 3 items");
    assert_eq!(reload_message(12), "Loaded 12 rules");
    assert_eq!(chain_verify_message(false), "TAMPERING DETECTED: Chain integrity check failed");
}

#[test]
fn flush_now_acks_pending_items_oldest_first() {
    let mut registry = LocalIdentityRegistry::new(None, None);
    let e = ProofEvent {
        event_type: "t".to_string(),
        principal_id: "p".to_string(),
        action: "a".to_string(),
        resource: "r".to_string(),
        reason: AuthorizationReason::Allowed,
        allowed: true,
        mandate_id: None,
        emitted_at_epoch_s: 1,
        latency_us: None,
        event_id: None,
        chain_hash: None,
    };
    registry.enqueue_proof_event_at(&e, 30, 3u128 << 64);
    registry.enqueue_proof_event_at(&e, 10, 1u128 << 64);
    registry.enqueue_proof_event_at(&e, 20, 2u128 << 64);
    assert_eq!(registry.flush_pending_at(Some(2), 99), 2);
    let left = registry.list_flush_queue(false, false, None, false);
    assert_eq!(left.len(), 1);
    assert_eq!(left[0].enqueued_at_epoch_s, 30);
    assert_eq!(registry.flush_pending_at(None, 100), 1);
    assert_eq!(registry.stats_at(0).flushed_queue_count, 3);
}

#[test]
fn reload_access_needs_the_configured_secret() {
    assert_eq!(reload_access(false, None, None), ReloadAccess::Allowed);
    assert_eq!(reload_access(true, None, Some("Bearer x")), ReloadAccess::Disabled);
    assert_eq!(reload_access(false, Some("s3cret"), None), ReloadAccess::Unauthorized);
    assert_eq!(reload_access(false, Some("s3cret"), Some("Bearer wrong")), ReloadAccess::Unauthorized);
    assert_eq!(reload_access(false, Some("s3cret"), Some("Bearer s3cret")), ReloadAccess::Allowed);
    assert_eq!(reload_access(false, Some("s3cret"), Some("bearer  s3cret ")), ReloadAccess::Allowed);
}
