use predicate_authorityd::ledger::{
    canonical_event_json, compute_chain_hash, compute_genesis_hash, verify_event_chain,
    InMemoryProofLedger,
};
use predicate_authorityd::models::{AuthorizationReason, ProofEvent};

fn allowed(ledger: &mut InMemoryProofLedger, principal: &str, action: &str, resource: &str) {
    ledger.record_decision(principal, action, resource, true, AuthorizationReason::Allowed, None);
}

#[test]
fn test_genesis_hash_deterministic() {
    let hash1 = compute_genesis_hash();
    let hash2 = compute_genesis_hash();
    assert_eq!(hash1, hash2);
    assert_eq!(hash1.len(), 64);
}

#[test]
fn test_chain_hash_deterministic() {
    let hash1 = compute_chain_hash("prev", "event");
    let hash2 = compute_chain_hash("prev", "event");
    assert_eq!(hash1, hash2);
}

#[test]
fn test_chain_hash_changes_with_input() {
    let hash1 = compute_chain_hash("prev1", "event");
    let hash2 = compute_chain_hash("prev2", "event");
    assert_ne!(hash1, hash2);
    let hash3 = compute_chain_hash("prev", "event1");
    let hash4 = compute_chain_hash("prev", "event2");
    assert_ne!(hash3, hash4);
}

#[test]
fn test_record_allowed_event() {
    let mut ledger = InMemoryProofLedger::new();
    ledger.record_decision(
        "agent:web",
        "browser.click",
        "https://example.com",
        true,
        AuthorizationReason::Allowed,
        Some("m_123".to_string()),
    );
    let stats = ledger.stats();
    assert_eq!(stats.total_allowed, 1);
    assert_eq!(stats.total_denied, 0);
    assert_eq!(ledger.event_count(), 1);
    let events = ledger.recent_events(1);
    assert!(events[0].chain_hash.is_some());
    assert!(events[0].event_id.is_some());
}

#[test]
fn test_record_denied_event() {
    let mut ledger = InMemoryProofLedger::new();
    ledger.record_decision("agent:web", "admin.delete", "/users/123", false, AuthorizationReason::ExplicitDeny, None);
    let stats = ledger.stats();
    assert_eq!(stats.total_allowed, 0);
    assert_eq!(stats.total_denied, 1);
    assert_eq!(stats.denied_for("explicit_deny"), 1);
}

#[test]
fn test_chain_head_updates() {
    let mut ledger = InMemoryProofLedger::new();
    let initial_head = ledger.chain_head();
    assert_eq!(initial_head.event_count, 0);
    assert_eq!(initial_head.chain_hash, initial_head.genesis_hash);
    allowed(&mut ledger, "agent:1", "action", "resource");
    let head1 = ledger.chain_head();
    assert_eq!(head1.event_count, 1);
    assert_ne!(head1.chain_hash, initial_head.chain_hash);
    allowed(&mut ledger, "agent:2", "action", "resource");
    let head2 = ledger.chain_head();
    assert_eq!(head2.event_count, 2);
    assert_ne!(head2.chain_hash, head1.chain_hash);
}

#[test]
fn test_verify_chain_empty() {
    let ledger = InMemoryProofLedger::new();
    assert!(ledger.verify_chain());
}

#[test]
fn test_verify_chain_valid() {
    let mut ledger = InMemoryProofLedger::new();
    for i in 0..5 {
        allowed(&mut ledger, &format!("agent:{}", i), "test.action", "test://resource");
    }
    assert!(ledger.verify_chain());
}

#[test]
fn test_verify_chain_detects_tampering() {
    let mut ledger = InMemoryProofLedger::new();
    allowed(&mut ledger, "agent:1", "action", "resource");
    allowed(&mut ledger, "agent:2", "action", "resource");
    let mut events: Vec<ProofEvent> = ledger.recent_events(2);
    events.reverse();
    let genesis = ledger.chain_head().genesis_hash;
    assert!(verify_event_chain(&events, &genesis));
    events[0].principal_id = "agent:tampered".to_string();
    assert!(!verify_event_chain(&events, &genesis));
}

#[test]
fn test_capacity_limit() {
    let mut ledger = InMemoryProofLedger::with_capacity(100);
    for i in 0..150 {
        allowed(&mut ledger, &format!("agent:{}", i), "test.action", "test://resource");
    }
    assert!(ledger.event_count() <= 100);
    assert_eq!(ledger.chain_head().event_count, 150);
}

#[test]
fn test_recent_events_order() {
    let mut ledger = InMemoryProofLedger::new();
    allowed(&mut ledger, "agent:1", "a", "r");
    allowed(&mut ledger, "agent:2", "a", "r");
    allowed(&mut ledger, "agent:3", "a", "r");
    let recent = ledger.recent_events(2);
    assert_eq!(recent.len(), 2);
    assert_eq!(recent[0].principal_id, "agent:3");
    assert_eq!(recent[1].principal_id, "agent:2");
}

#[test]
fn test_clear_resets_chain() {
    let mut ledger = InMemoryProofLedger::new();
    allowed(&mut ledger, "agent:1", "action", "resource");
    let head_before = ledger.chain_head();
    assert_ne!(head_before.chain_hash, head_before.genesis_hash);
    ledger.clear();
    let head_after = ledger.chain_head();
    assert_eq!(head_after.chain_hash, head_after.genesis_hash);
    assert_eq!(head_after.event_count, 0);
}

#[test]
fn genesis_and_chain_hashes_have_known_values() {
    assert_eq!(compute_genesis_hash(), "8a906059c4151d09519f0e1eb3800ae0eb81550411dc5dde87989e5553dc06c4");
    assert_eq!(
        compute_chain_hash("prev", "event"),
        "ac43c7ace47d0f28215d4c7a95a2b287d0bf0b7e6569837a4ebb875137f0564e"
    );
}

#[test]
fn canonical_json_omits_absent_members() {
    let e = ProofEvent {
        event_type: "authorization_allowed".to_string(),
        principal_id: "agent:\"x\"".to_string(),
        action: "a".to_string(),
        resource: "r".to_string(),
        reason: AuthorizationReason::Allowed,
        allowed: true,
        mandate_id: None,
        emitted_at_epoch_s: -5,
        latency_us: Some(12),
        event_id: Some("ev_1".to_string()),
        chain_hash: Some("ignored".to_string()),
    };
    assert_eq!(
        canonical_event_json(&e),
        "{\"event_type\":\"authorization_allowed\",\"principal_id\":\"agent:\\\"x\\\"\",\"action\":\"a\",\"resource\":\"r\",\"reason\":\"allowed\",\"allowed\":true,\"emitted_at_epoch_s\":-5,\"latency_us\":12,\"event_id\":\"ev_1\"}"
    );
}

#[test]
fn latency_statistics_track_min_max_and_average() {
    let mut ledger = InMemoryProofLedger::new();
    ledger.record_decision_with_latency("p", "a", "r", true, AuthorizationReason::Allowed, None, Some(10));
    ledger.record_decision_with_latency("p", "a", "r", false, AuthorizationReason::NoMatchingPolicy, None, Some(30));
    let s = ledger.stats();
    assert_eq!(s.min_latency_us, Some(10));
    assert_eq!(s.max_latency_us, Some(30));
    assert_eq!(s.avg_latency_us(), Some(20));
    assert_eq!(s.denied_for("no_matching_policy"), 1);
    assert_eq!(s.denied_for("explicit_deny"), 0);
}

#[test]
fn small_capacity_still_evicts() {
    let mut ledger = InMemoryProofLedger::with_capacity(5);
    for i in 0..6 {
        allowed(&mut ledger, &format!("agent:{}", i), "a", "r");
    }
    assert!(ledger.event_count() <= 5);
    assert_eq!(ledger.chain_head().event_count, 6);
}

#[test]
fn chain_verifies_after_eviction() {
    let mut ledger = InMemoryProofLedger::with_capacity(10);
    for i in 0..11 {
        allowed(&mut ledger, &format!("agent:{}", i), "a", "r");
    }
    assert!(ledger.event_count() <= 10);
    assert!(ledger.verify_chain());
}
