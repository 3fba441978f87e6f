use predicate_authorityd::control_plane::{AuthoritySyncSnapshot, RemoteRevocation, RevocationCache};
use predicate_authorityd::policy::PolicyEngine;
use predicate_authorityd::startup::{
    apply_sync_snapshot_at, audit_mode_from_policy_path, control_plane_client_failure, control_plane_plan,
    merge_ssrf_allow_list, validate_local_fallback, validate_provider_settings, validate_ttls, ProviderSettings,
    DEV_SIGNING_KEY,
};

fn complete() -> ProviderSettings {
    ProviderSettings { has_issuer: true, has_client_id: true, has_audience: true }
}

#[test]
fn ttl_rule() {
    assert!(validate_ttls(300, 300).is_ok());
    assert_eq!(validate_ttls(100, 300).unwrap_err(), "idp_token_ttl_s (100) must be >= mandate_ttl_s (300)");
    assert_eq!(validate_ttls(-5, 2).unwrap_err(), "idp_token_ttl_s (-5) must be >= mandate_ttl_s (2)");
}

#[test]
fn local_fallback_rule() {
    assert!(validate_local_fallback("local_only", "local", false).is_ok());
    assert!(validate_local_fallback("cloud_connected", "local", true).is_ok());
    assert!(validate_local_fallback("cloud_connected", "okta", false).is_ok());
    assert_eq!(
        validate_local_fallback("cloud_connected", "local-idp", false).unwrap_err(),
        "cloud_connected mode with local-idp identity requires explicit --allow-local-fallback. Without this flag, implicit local fallback is denied for security."
    );
}

#[test]
fn provider_settings_rule() {
    let partial = ProviderSettings { has_issuer: true, has_client_id: false, has_audience: true };
    assert!(validate_provider_settings("oidc", complete(), partial, partial).is_ok());
    assert_eq!(
        validate_provider_settings("okta", complete(), complete(), partial).unwrap_err(),
        "identity-mode=okta requires --okta-issuer, --okta-client-id, and --okta-audience"
    );
    assert!(validate_provider_settings("entra", complete(), partial, complete())
        .unwrap_err()
        .starts_with("identity-mode=entra requires"));
    assert!(validate_provider_settings("local", partial, partial, partial).is_ok());
    assert_eq!(DEV_SIGNING_KEY, "predicate-local-idp-dev-key");
}

#[test]
fn audit_mode_from_file_name() {
    assert!(audit_mode_from_policy_path("/etc/Audit-Only.json"));
    assert!(audit_mode_from_policy_path("policy.DRY-RUN.yaml"));
    assert!(audit_mode_from_policy_path("dryrun.json"));
    assert!(!audit_mode_from_policy_path("policy.json"));
}

#[test]
fn ssrf_allow_lists_merge() {
    let s = |v: &[&str]| v.iter().map(|x| x.to_string()).collect::<Vec<String>>();
    assert_eq!(merge_ssrf_allow_list(vec![], s(&["a:1", "b:2"])), s(&["a:1", "b:2"]));
    assert_eq!(merge_ssrf_allow_list(s(&["a:1"]), s(&["b:2", "a:1", "c:3"])), s(&["a:1", "b:2", "c:3"]));
    assert_eq!(merge_ssrf_allow_list(s(&["a:1"]), vec![]), s(&["a:1"]));
}

#[test]
fn control_plane_startup_plan() {
    assert_eq!(control_plane_plan("local_only", false, false, false, false), Ok(false));
    assert_eq!(control_plane_plan("cloud_connected", true, true, true, false), Ok(true));
    assert_eq!(control_plane_plan("cloud_connected", true, false, true, true), Ok(false));
    assert_eq!(
        control_plane_plan("cloud_connected", true, false, true, false),
        Err("Missing required control-plane configuration".to_string())
    );
    assert!(control_plane_client_failure(true).is_ok());
    assert_eq!(
        control_plane_client_failure(false).unwrap_err(),
        "Control-plane initialization failed and fail_open is disabled"
    );
}

#[test]
fn sync_snapshots_apply_only_when_changed() {
    let mut cache = RevocationCache::new();
    let mut engine = PolicyEngine::new();
    let mut token: Option<String> = None;
    let mut snap = AuthoritySyncSnapshot::empty();
    snap.sync_token = "t1".to_string();
    snap.revocations = vec![RemoteRevocation {
        revocation_id: "r1".to_string(),
        revocation_type: "principal".to_string(),
        principal_id: Some("agent:x".to_string()),
        intent_hash: None,
        tags: vec![],
        reason: None,
        created_at: String::new(),
    }];
    apply_sync_snapshot_at(&snap, Some(vec![]), &mut cache, &mut engine, &mut token, 10);
    assert!(token.is_none());
    assert!(cache.is_principal_revoked("agent:x").is_none());
    snap.changed = true;
    apply_sync_snapshot_at(&snap, None, &mut cache, &mut engine, &mut token, 10);
    assert_eq!(token.as_deref(), Some("t1"));
    assert!(cache.is_principal_revoked("agent:x").is_some());
    assert_eq!(cache.stats().last_updated, Some(10));
}
