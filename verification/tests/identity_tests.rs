use predicate_authorityd::identity::{
    id_from_uuid, redact_queue_item, LocalIdentityRegistry, QueueListing, REDACT_MARKER,
};
use predicate_authorityd::models::{AuthorizationReason, ProofEvent};

fn test_registry() -> LocalIdentityRegistry {
    LocalIdentityRegistry::new(Some(60), Some(3600))
}

fn event(event_type: &str, principal: &str, action: &str, resource: &str, reason: AuthorizationReason, allowed: bool, mandate_id: Option<&str>) -> ProofEvent {
    ProofEvent {
        event_type: event_type.to_string(),
        principal_id: principal.to_string(),
        action: action.to_string(),
        resource: resource.to_string(),
        reason,
        allowed,
        mandate_id: mandate_id.map(|m| m.to_string()),
        emitted_at_epoch_s: 1700000000,
        latency_us: None,
        event_id: None,
        chain_hash: None,
    }
}

#[test]
fn test_issue_and_get_identity() {
    let mut registry = test_registry();

    let record = registry
        .issue_task_identity("agent:test", "task-123", None, None)
        .unwrap();

    assert!(record.identity_id.starts_with("lid_"));
    assert_eq!(record.principal_id, "agent:test");
    assert_eq!(record.task_id, "task-123");
    assert!(!record.revoked);

    let retrieved = registry.get_identity(&record.identity_id).unwrap();
    assert_eq!(retrieved.identity_id, record.identity_id);

    assert!(registry.is_identity_active(&record.identity_id));
}

#[test]
fn test_revoke_identity() {
    let mut registry = test_registry();

    let record = registry
        .issue_task_identity("agent:test", "task-456", None, None)
        .unwrap();

    assert!(registry.is_identity_active(&record.identity_id));

    assert!(registry.revoke_identity(&record.identity_id));
    assert!(!registry.is_identity_active(&record.identity_id));

    let retrieved = registry.get_identity(&record.identity_id).unwrap();
    assert!(retrieved.revoked);
}

#[test]
fn test_enqueue_and_list_queue() {
    let mut registry = test_registry();

    let event = event("authorization_allowed", "agent:test", "browser.click", "https://example.com", AuthorizationReason::Allowed, true, Some("m_123"));

    let item = registry.enqueue_proof_event(&event);
    assert!(item.queue_item_id.starts_with("q_"));
    assert!(!item.flushed);
    assert!(!item.quarantined);

    let pending = registry.list_flush_queue(false, false, None, false);
    assert_eq!(pending.len(), 1);
    assert_eq!(pending[0].queue_item_id, item.queue_item_id);
}

#[test]
fn test_flush_ack() {
    let mut registry = test_registry();

    let event = event("authorization_allowed", "agent:test", "test.action", "test://resource", AuthorizationReason::Allowed, true, None);

    let item = registry.enqueue_proof_event(&event);
    assert!(registry.mark_flush_ack(&item.queue_item_id));

    let pending = registry.list_flush_queue(false, false, None, false);
    assert_eq!(pending.len(), 0);

    let flushed = registry.list_flush_queue(true, false, None, false);
    assert_eq!(flushed.len(), 1);
    assert!(flushed[0].flushed);
}

#[test]
fn test_dead_letter_queue() {
    let mut registry = test_registry();

    let event = event("authorization_denied", "agent:test", "admin.delete", "/users/123", AuthorizationReason::ExplicitDeny, false, None);

    let item = registry.enqueue_proof_event(&event);

    registry.mark_flush_failed(&item.queue_item_id, "connection error");
    registry.quarantine_queue_item(&item.queue_item_id, "max_attempts_exceeded");

    let dead_letter = registry.list_dead_letter_queue(None, false);
    assert_eq!(dead_letter.len(), 1);
    assert!(dead_letter[0].quarantined);

    assert!(registry.requeue_item(&item.queue_item_id, true));

    let dead_letter = registry.list_dead_letter_queue(None, false);
    assert_eq!(dead_letter.len(), 0);

    let pending = registry.list_flush_queue(false, false, None, false);
    assert_eq!(pending.len(), 1);
}

#[test]
fn mod_test_stats() {
    let mut registry = test_registry();

    registry
        .issue_task_identity("agent:test", "task-1", None, None)
        .unwrap();

    let event = event("test", "agent:test", "test", "test", AuthorizationReason::Allowed, true, None);
    registry.enqueue_proof_event(&event);

    let stats = registry.stats();
    assert_eq!(stats.total_identity_count, 1);
    assert_eq!(stats.active_identity_count, 1);
    assert_eq!(stats.pending_flush_queue_count, 1);
}

#[test]
fn test_redaction() {
    let mut registry = test_registry();

    let event = event("authorization_allowed", "agent:sensitive", "sensitive.action", "secret://data", AuthorizationReason::Allowed, true, Some("m_secret"));

    registry.enqueue_proof_event(&event);

    let redacted = registry.list_flush_queue(false, false, None, true);
    assert_eq!(redacted.len(), 1);

    let payload = &redacted[0].payload;

    assert!(payload.principal_id.as_ref().unwrap().contains("REDACTED"));
    assert!(payload.action.as_ref().unwrap().contains("REDACTED"));
    assert!(payload.resource.as_ref().unwrap().contains("REDACTED"));
    assert!(payload.reason.as_ref().unwrap().contains("REDACTED"));
    assert!(payload.mandate_id.as_ref().unwrap().as_ref().unwrap().contains("REDACTED"));

    assert_eq!(payload.source.as_deref().unwrap(), "predicate-authorityd");
    assert_eq!(payload.event_type.as_deref().unwrap(), "authorization_allowed");
    assert_eq!(payload.emitted_at_epoch_s.unwrap(), 1700000000);
    assert_eq!(payload.allowed.unwrap(), true);
}

#[test]
fn identity_ids_come_from_uuid_high_bits() {
    let id = id_from_uuid("lid_", 0x0123_4567_89ab_cdef_ffff_ffff_ffff_ffffu128);
    assert_eq!(id, "lid_0123456789abcdef");
    let mut registry = test_registry();
    let rec = registry
        .issue_task_identity_at("agent:a", "t", Some(10), None, 1000, 0xdead_beef_0000_0001_0000_0000_0000_0000u128)
        .unwrap();
    assert_eq!(rec.identity_id, "lid_deadbeef00000001");
    assert_eq!(rec.issued_at_epoch_s, 1000);
    assert_eq!(rec.expires_at_epoch_s, 1010);
    assert!(registry.is_identity_active_at("lid_deadbeef00000001", 1009));
    assert!(!registry.is_identity_active_at("lid_deadbeef00000001", 1010));
    assert_eq!(registry.expire_identities_at(1010), 1);
    assert_eq!(registry.expire_identities_at(1010), 0);
    assert!(registry.get_identity("lid_deadbeef00000001").unwrap().revoked);
}

#[test]
fn nonpositive_ttl_is_refused() {
    let mut registry = test_registry();
    assert_eq!(registry.issue_task_identity("a", "t", Some(0), None).unwrap_err(), "ttl_seconds must be > 0");
    assert!(registry.issue_task_identity("a", "t", Some(-5), None).is_err());
    assert_eq!(registry.stats().total_identity_count, 0);
}

#[test]
fn listing_filters_identities() {
    let mut registry = test_registry();
    registry.issue_task_identity_at("a", "t1", Some(10), None, 1000, 1u128 << 64).unwrap();
    registry.issue_task_identity_at("b", "t2", Some(100), None, 1000, 2u128 << 64).unwrap();
    registry.revoke_identity("lid_0000000000000002");
    assert_eq!(registry.list_identities_at(false, false, 1005).len(), 1);
    assert_eq!(registry.list_identities_at(true, false, 1005).len(), 2);
    assert_eq!(registry.list_identities_at(false, true, 1050).len(), 1);
    assert_eq!(registry.list_identities_at(false, false, 1050).len(), 0);
    assert_eq!(registry.list_identities_at(true, true, 1050).len(), 2);
}

#[test]
fn queue_listing_is_ordered_and_limited() {
    let mut registry = test_registry();
    let e = event("t", "p", "a", "r", AuthorizationReason::Allowed, true, None);
    registry.enqueue_proof_event_at(&e, 300, 3u128 << 64);
    registry.enqueue_proof_event_at(&e, 100, 1u128 << 64);
    registry.enqueue_proof_event_at(&e, 200, 2u128 << 64);
    let all = registry.list_flush_queue(false, false, None, false);
    let times: Vec<i64> = all.iter().map(|i| i.enqueued_at_epoch_s).collect();
    assert_eq!(times, vec![100, 200, 300]);
    let two = registry.list_flush_queue(false, false, Some(2), false);
    assert_eq!(two.len(), 2);
    assert_eq!(two[1].queue_item_id, "q_0000000000000002");
    registry.quarantine_queue_item_at("q_0000000000000003", "bad", 50);
    registry.quarantine_queue_item_at("q_0000000000000001", "bad", 40);
    let dl = registry.list_queue(QueueListing::DeadLetter, None, false);
    assert_eq!(dl[0].queue_item_id, "q_0000000000000001");
    assert_eq!(dl[1].queue_item_id, "q_0000000000000003");
    let stats = registry.stats_at(0);
    assert_eq!(stats.quarantined_queue_count, 2);
    assert_eq!(stats.pending_flush_queue_count, 1);
}

#[test]
fn queue_items_expire_after_ttl() {
    let mut registry = test_registry();
    let e = event("t", "p", "a", "r", AuthorizationReason::Allowed, true, None);
    registry.enqueue_proof_event_at(&e, 1000, 1u128 << 64);
    registry.enqueue_proof_event_at(&e, 5000, 2u128 << 64);
    assert_eq!(registry.expire_queue_items_at(4600), 0);
    assert_eq!(registry.expire_queue_items_at(4601), 1);
    let left = registry.list_flush_queue(true, true, None, false);
    assert_eq!(left.len(), 1);
    assert_eq!(left[0].enqueued_at_epoch_s, 5000);
}

#[test]
fn flush_failures_count_attempts() {
    let mut registry = test_registry();
    let e = event("t", "p", "a", "r", AuthorizationReason::Allowed, true, None);
    let item = registry.enqueue_proof_event_at(&e, 1, 7u128 << 64);
    assert!(registry.mark_flush_failed(&item.queue_item_id, "timeout"));
    assert!(registry.mark_flush_failed(&item.queue_item_id, "timeout again"));
    assert_eq!(registry.stats_at(0).failed_queue_count, 1);
    assert!(!registry.requeue_item(&item.queue_item_id, true));
    let listed = registry.list_flush_queue(false, false, None, false);
    assert_eq!(listed[0].flush_attempts, 2);
    assert_eq!(listed[0].last_error.as_deref(), Some("timeout again"));
    assert!(registry.mark_flush_ack_at(&item.queue_item_id, 9));
    let listed = registry.list_flush_queue(true, false, None, false);
    assert_eq!(listed[0].flush_attempts, 3);
    assert_eq!(listed[0].flushed_at_epoch_s, Some(9));
    assert!(listed[0].last_error.is_none());
    assert!(!registry.mark_flush_ack("q_missing"));
}

#[test]
fn redaction_keeps_metadata() {
    let mut registry = test_registry();
    let e = event("authorization_denied", "agent:x", "a", "r", AuthorizationReason::ExplicitDeny, false, None);
    let item = registry.enqueue_proof_event_at(&e, 1, 9u128 << 64);
    assert_eq!(item.payload.reason.as_deref(), Some("explicit_deny"));
    assert_eq!(item.payload.mandate_id, Some(None));
    let r = redact_queue_item(item);
    assert_eq!(r.payload.mandate_id, Some(Some(REDACT_MARKER.to_string())));
    assert_eq!(r.payload.principal_id.as_deref(), Some(REDACT_MARKER));
    assert_eq!(r.payload.allowed, Some(false));
    assert_eq!(r.queue_item_id, "q_0000000000000009");
}
