use predicate_authorityd::control_plane::{
    AuditEventEnvelope, AuthoritySyncSnapshot, ControlPlaneClient, ControlPlaneConfig, RemoteRevocation,
    RevocationCache, UsageCreditRecord,
};
use predicate_authorityd::models::{AuthorizationReason, ProofEvent};

fn revocation(id: &str, kind: &str, principal: Option<&str>, intent: Option<&str>, tags: &[&str], reason: &str) -> RemoteRevocation {
    RemoteRevocation {
        revocation_id: id.to_string(),
        revocation_type: kind.to_string(),
        principal_id: principal.map(|s| s.to_string()),
        intent_hash: intent.map(|s| s.to_string()),
        tags: tags.iter().map(|s| s.to_string()).collect(),
        reason: Some(reason.to_string()),
        created_at: "2024-01-01T00:00:00Z".to_string(),
    }
}

#[test]
fn test_audit_event_envelope_from_proof_event() {
    let event = ProofEvent {
        event_type: "authorization_allowed".to_string(),
        principal_id: "agent:test".to_string(),
        action: "browser.click".to_string(),
        resource: "https://example.com".to_string(),
        reason: AuthorizationReason::Allowed,
        allowed: true,
        mandate_id: Some("m_123".to_string()),
        emitted_at_epoch_s: 1700000000,
        latency_us: Some(150),
        event_id: None,
        chain_hash: None,
    };

    let envelope = AuditEventEnvelope::from_proof_event(&event, "tenant_abc", Some("trace_xyz"));

    assert!(envelope.event_id.starts_with("evt_"));
    assert_eq!(envelope.tenant_id, "tenant_abc");
    assert_eq!(envelope.principal_id, "agent:test");
    assert_eq!(envelope.action, "browser.click");
    assert!(envelope.allowed);
    assert_eq!(envelope.trace_id, Some("trace_xyz".to_string()));
    // sha256("agent:test|browser.click|https://example.com|1700000000|true|allowed"), first 8 bytes
    assert_eq!(envelope.event_id, "evt_3524587db5462044");
    assert_eq!(envelope.timestamp, "2023-11-14T22:13:20+00:00");
    assert_eq!(envelope.reason, "allowed");
}

#[test]
fn test_usage_credit_record() {
    let record = UsageCreditRecord::authority_check("tenant_abc", "project_123", 1);

    assert_eq!(record.tenant_id, "tenant_abc");
    assert_eq!(record.project_id, "project_123");
    assert_eq!(record.action_type, "authority_check");
    assert_eq!(record.credits, 1);
    assert!(!record.timestamp.is_empty());
}

#[test]
fn test_revocation_cache() {
    let mut cache = RevocationCache::new();
    let revocations = vec![
        revocation("rev_1", "principal", Some("agent:malicious"), None, &["suspicious"], "Compromised"),
        revocation("rev_2", "intent", None, Some("hash_abc"), &["blocked"], "Dangerous action"),
    ];

    cache.update_from_snapshot(&revocations);

    let rev = cache.is_principal_revoked("agent:malicious");
    assert!(rev.is_some());
    assert_eq!(rev.unwrap().revocation_id, "rev_1");

    assert!(cache.is_principal_revoked("agent:good").is_none());

    let rev = cache.is_intent_revoked("hash_abc");
    assert!(rev.is_some());
    assert_eq!(rev.unwrap().revocation_id, "rev_2");

    let revs = cache.are_tags_revoked(&vec!["suspicious".to_string()]);
    assert_eq!(revs.len(), 1);

    let stats = cache.stats();
    assert_eq!(stats.principal_count, 1);
    assert_eq!(stats.intent_count, 1);
    assert_eq!(stats.tag_count, 2);
    assert_eq!(stats.mandate_id_count, 0);
    assert!(stats.last_updated.is_some());
}

#[test]
fn mod_test_mandate_revocation() {
    let mut cache = RevocationCache::new();

    assert!(!cache.is_mandate_revoked("m_abc123"));

    cache.revoke_mandate("m_abc123");
    assert!(cache.is_mandate_revoked("m_abc123"));
    assert!(!cache.is_mandate_revoked("m_def456"));

    cache.revoke_mandates(&vec!["m_def456".to_string(), "m_ghi789".to_string()]);
    assert!(cache.is_mandate_revoked("m_def456"));
    assert!(cache.is_mandate_revoked("m_ghi789"));

    assert_eq!(cache.revoked_mandate_count(), 3);

    cache.update_from_full_snapshot(&vec![], &vec!["m_new".to_string()]);
    assert!(!cache.is_mandate_revoked("m_abc123"));
    assert!(cache.is_mandate_revoked("m_new"));
    assert_eq!(cache.revoked_mandate_count(), 1);
}

#[test]
fn test_control_plane_config_default() {
    let config = ControlPlaneConfig::default();
    assert_eq!(config.timeout_ms, 2000);
    assert_eq!(config.max_retries, 2);
    assert!(config.fail_open);
    assert!(!config.sync_enabled);
}

#[test]
fn later_revocation_replaces_earlier_and_tags_repeat() {
    let mut cache = RevocationCache::default();
    let revocations = vec![
        revocation("rev_1", "principal", Some("agent:x"), None, &["a", "a"], "first"),
        revocation("rev_2", "principal", Some("agent:x"), None, &["b"], "second"),
    ];
    cache.update_from_full_snapshot_at(&revocations, &vec!["m1".to_string(), "m1".to_string()], 77);
    assert_eq!(cache.is_principal_revoked("agent:x").unwrap().revocation_id, "rev_2");
    let by_tag = cache.are_tags_revoked(&vec!["a".to_string(), "b".to_string()]);
    let ids: Vec<&str> = by_tag.iter().map(|r| r.revocation_id.as_str()).collect();
    assert_eq!(ids, vec!["rev_1", "rev_1", "rev_2"]);
    assert_eq!(cache.stats_legacy(), (1, 0, 2, Some(77)));
    assert_eq!(cache.revoked_mandate_count(), 1);
}

#[test]
fn client_requires_http_scheme() {
    let mut config = ControlPlaneConfig::default();
    config.base_url = "ftp://example".to_string();
    assert_eq!(ControlPlaneClient::new(config).err().unwrap(), "base_url must use http or https scheme");
    let mut config = ControlPlaneConfig::default();
    config.base_url = "https://cp.example//".to_string();
    let client = ControlPlaneClient::new(config).unwrap();
    assert_eq!(client.endpoint_url("/v1/audit/events:batch"), "https://cp.example/v1/audit/events:batch");
    assert!(client.authorization_header().is_none());
}

#[test]
fn long_poll_path_encodes_parameters() {
    let mut config = ControlPlaneConfig::default();
    config.tenant_id = "tenant a".to_string();
    config.sync_environment = Some("prod".to_string());
    let client = ControlPlaneClient::new(config).unwrap();
    let path = client.authority_updates_path(Some("tok/1"), Some(2500), None, Some("  "), None);
    assert_eq!(
        path,
        "/v1/sync/authority-updates?tenant_id=tenant%20a&wait_timeout_s=2.5&poll_interval_ms=200&current_token=tok%2F1&environment=prod"
    );
    let path = client.authority_updates_path(None, None, Some(50), None, Some("dev"));
    assert_eq!(
        path,
        "/v1/sync/authority-updates?tenant_id=tenant%20a&wait_timeout_s=15&poll_interval_ms=50&environment=dev"
    );
}

#[test]
fn replay_headers_are_derived_from_inputs() {
    let mut config = ControlPlaneConfig::default();
    config.tenant_id = "t1".to_string();
    let client = ControlPlaneClient::new(config.clone()).unwrap();
    let h = client.replay_headers_at("/v1/x", 1700000000, 1700000000123456789);
    assert_eq!(h.len(), 3);
    assert_eq!(h[0].0, "X-PA-Nonce");
    assert_eq!(h[0].1, "11f5fce20ef679834c76809f17b40e2c");
    assert_eq!(h[1].1, "1700000000");
    assert_eq!(h[2].1, "64c5873a19d222503649431c6313fab2");
    config.replay_signing_secret = Some("s3cret".to_string());
    let client = ControlPlaneClient::new(config).unwrap();
    let h = client.replay_headers_at("/v1/x", 1700000000, 1700000000123456789);
    assert_eq!(h.len(), 4);
    assert_eq!(h[3].0, "X-PA-Signature");
    assert_eq!(h[3].1, "c534fb7601c15ac04c15acc4fb4e70314ff422de6536d07ae0898b533cda7211");
}

#[test]
fn push_and_sync_outcomes() {
    let client_config = ControlPlaneConfig::default();
    let mut client = ControlPlaneClient::new(client_config).unwrap();
    assert!(client.record_audit_push(Ok(())));
    assert!(client.record_audit_push(Err("HTTP 500".to_string())));
    assert_eq!(client.stats.audit_push_success_count, 1);
    assert_eq!(client.stats.audit_push_failure_count, 1);
    assert_eq!(client.stats.last_push_error.as_deref(), Some("HTTP 500"));
    let mut snap = AuthoritySyncSnapshot::empty();
    snap.sync_token = "tok-9".to_string();
    let got = client.record_sync(Ok(snap)).unwrap();
    assert_eq!(got.sync_token, "tok-9");
    assert_eq!(client.stats.last_sync_token.as_deref(), Some("tok-9"));
    let fallback = client.record_sync(Err("down".to_string())).unwrap();
    assert!(!fallback.changed);
    client.config.fail_open = false;
    assert_eq!(client.record_sync(Err("down".to_string())).err().unwrap(), "down");
    assert!(!client.record_usage_push(Err("x".to_string())));
    assert_eq!(client.stats.sync_failure_count, 2);
}
