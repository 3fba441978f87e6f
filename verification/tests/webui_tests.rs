use predicate_authorityd::webui::{
    cache_control_for, extract_token, is_static_asset, policy_content_type, static_path, WebUiAccess,
    WebUiAuthState,
};
use predicate_authorityd::models::{AuthorizationReason, ProofEvent};
use predicate_authorityd::webui::WebUiAuthEvent;
use predicate_authorityd::webui::feed_events;

#[test]
fn test_policy_content_type_yaml() {
    assert_eq!(policy_content_type("/test/policy.yaml"), "text/yaml; charset=utf-8");
}

#[test]
fn test_policy_content_type_yml() {
    assert_eq!(policy_content_type("/test/policy.yml"), "text/yaml; charset=utf-8");
}

#[test]
fn test_policy_content_type_json() {
    assert_eq!(policy_content_type("/test/policy.json"), "text/plain; charset=utf-8");
}

#[test]
fn test_cache_control_html() {
    assert_eq!(cache_control_for("index.html"), "no-cache");
}

#[test]
fn test_cache_control_hashed_asset() {
    assert_eq!(cache_control_for("assets/index-abc123.js"), "public, max-age=31536000, immutable");
}

#[test]
fn test_cache_control_other() {
    assert_eq!(cache_control_for("favicon.ico"), "public, max-age=3600");
}

#[test]
fn test_extract_token_from_header() {
    assert_eq!(extract_token(Some("Bearer my-secret-token"), None), Some("my-secret-token".to_string()));
}

#[test]
fn test_extract_token_from_query() {
    assert_eq!(extract_token(None, Some("token=query-token&other=value")), Some("query-token".to_string()));
}

#[test]
fn test_extract_token_header_preferred() {
    assert_eq!(
        extract_token(Some("Bearer header-token"), Some("token=query-token")),
        Some("header-token".to_string())
    );
}

#[test]
fn test_extract_token_none() {
    assert_eq!(extract_token(None, Some("other=value")), None);
}

#[test]
fn static_assets_skip_authentication() {
    assert!(is_static_asset("/ui/assets/app.js"));
    assert!(is_static_asset("/favicon.ico"));
    assert!(!is_static_asset("/ui/api/policy/raw"));
    let state = WebUiAuthState { token: "t0k".to_string() };
    assert!(matches!(state.check("/ui/assets/x.css", None, None), WebUiAccess::Allow));
    assert!(matches!(state.check("/ui/", Some("Bearer t0k"), None), WebUiAccess::Allow));
    assert!(!matches!(state.check("/ui/", Some("Bearer wrong"), None), WebUiAccess::Allow));
    assert!(!matches!(state.check("/ui/", None, None), WebUiAccess::Allow));
}

#[test]
fn static_paths_default_to_index() {
    assert_eq!(static_path(""), "index.html");
    assert_eq!(static_path("/"), "index.html");
    assert_eq!(static_path("/assets/a.js"), "assets/a.js");
}

fn feed_event(principal: &str, allowed: bool, latency: Option<u64>, at: i64) -> predicate_authorityd::models::ProofEvent {
    ProofEvent {
        event_type: if allowed { "authorization_allowed" } else { "authorization_denied" }.to_string(),
        principal_id: principal.to_string(),
        action: "browser.navigate".to_string(),
        resource: "https://example.com".to_string(),
        reason: if allowed { AuthorizationReason::Allowed } else { AuthorizationReason::NoMatchingPolicy },
        allowed,
        mandate_id: None,
        emitted_at_epoch_s: at,
        latency_us: latency,
        event_id: None,
        chain_hash: None,
    }
}

#[test]
fn feed_entry_of_a_proof_event() {
    let w = WebUiAuthEvent::from_proof_event(&feed_event("agent:test", true, Some(1234), 1699999999));
    assert_eq!(w.principal_id, "agent:test");
    assert_eq!(w.action, "browser.navigate");
    assert_eq!(w.resource, "https://example.com");
    assert_eq!(w.result, "ALLOW");
    assert_eq!(w.latency_us, 1234);
    assert_eq!(w.timestamp, 1699999999);
    let d = WebUiAuthEvent::from_proof_event(&feed_event("agent:malicious", false, None, 7));
    assert_eq!(d.result, "DENY");
    assert_eq!(d.latency_us, 0);
}

#[test]
fn feed_shows_new_events_oldest_first() {
    // newest first, as the ledger hands them out
    let recent = vec![feed_event("agent:c", true, None, 3), feed_event("agent:b", false, None, 2), feed_event("agent:a", true, None, 1)];
    let out = feed_events(&recent, 5, 3);
    assert_eq!(out.len(), 2);
    assert_eq!(out[0].principal_id, "agent:b");
    assert_eq!(out[1].principal_id, "agent:c");
    assert!(feed_events(&recent, 3, 3).is_empty());
    assert!(feed_events(&recent, 2, 3).is_empty());
    assert_eq!(feed_events(&recent, 10, 0).len(), 3);
}
