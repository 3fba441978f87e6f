use predicate_authorityd::desktop::{base_url, build_sidecar_args, join_with_comma, split_list, LaunchConfig};
use predicate_authorityd::desktop::endpoint_url;
use predicate_authorityd::desktop::{health_error_line, health_line, launch_command_preview, status_line, ProbeDisplay};
use predicate_authorityd::desktop::probe_failure;
use predicate_authorityd::desktop::reload_failure;
use predicate_authorityd::desktop::reload_authorization;
use predicate_authorityd::desktop::{HealthResponse, PolicyReloadResponse, StatusResponse};

#[test]
fn minimal_args() {
    let args = build_sidecar_args(LaunchConfig {
        config_path: "",
        policy_path: "",
        host: "127.0.0.1",
        port: "8787",
        web_ui: false,
        audit_mode: false,
        reload_secret: "",
    })
    .unwrap();
    assert_eq!(
        args,
        vec!["--host", "127.0.0.1", "--port", "8787",]
            .into_iter()
            .map(String::from)
            .collect::<Vec<_>>()
    );
}

#[test]
fn with_policy_and_secret() {
    let args = build_sidecar_args(LaunchConfig {
        config_path: "",
        policy_path: "/tmp/p.json",
        host: "0.0.0.0",
        port: "9000",
        web_ui: true,
        audit_mode: true,
        reload_secret: "abc",
    })
    .unwrap();
    assert!(args.contains(&"--policy-file".into()));
    assert!(args.contains(&"/tmp/p.json".into()));
    assert!(args.contains(&"--web-ui".into()));
    assert!(args.contains(&"--audit-mode".into()));
    assert!(args.contains(&"--policy-reload-secret".into()));
    assert!(args.contains(&"abc".into()));
}

#[test]
fn base_url_joins_host_and_port() {
    assert_eq!(base_url("127.0.0.1", "8787"), "http://127.0.0.1:8787");
}

#[test]
fn split_list_trims_and_drops_empty() {
    assert_eq!(split_list(" a, b ,,c "), vec!["a".to_string(), "b".to_string(), "c".to_string()]);
    assert!(split_list("").is_empty());
}

#[test]
fn join_with_comma_formats_items() {
    let items = vec!["x".to_string(), "y".to_string()];
    assert_eq!(join_with_comma(&items), "x, y");
}

#[test]
fn endpoint_url_appends_the_path_to_the_base() {
    assert_eq!(endpoint_url(" 127.0.0.1 ", "8787 ", "/health"), "http://127.0.0.1:8787/health");
    assert_eq!(endpoint_url("localhost", "9000", "/policy/reload"), "http://localhost:9000/policy/reload");
}

#[test]
fn probe_failure_names_request_and_status() {
    assert_eq!(probe_failure("GET /health", 200, "200 OK"), None);
    assert_eq!(probe_failure("GET /health", 204, "204 No Content"), None);
    assert_eq!(
        probe_failure("GET /status", 503, "503 Service Unavailable"),
        Some("GET /status -> 503 Service Unavailable".to_string())
    );
}

#[test]
fn reload_failure_distinguishes_unauthorized() {
    assert_eq!(reload_failure(200, "200 OK", "{}"), None);
    assert_eq!(
        reload_failure(401, "401 Unauthorized", "bad token"),
        Some("401 Unauthorized: policy reload requires a matching bearer secret (bad token)".to_string())
    );
    assert_eq!(
        reload_failure(400, "400 Bad Request", "oops"),
        Some("POST /policy/reload -> 400 Bad Request: oops".to_string())
    );
}

#[test]
fn reload_authorization_skips_blank_secrets() {
    assert_eq!(reload_authorization(None), None);
    assert_eq!(reload_authorization(Some("   ")), None);
    assert_eq!(reload_authorization(Some(" s3cret ")), Some("Bearer s3cret".to_string()));
}

#[test]
fn probe_replies_hold_their_fields() {
    let h = HealthResponse { status: "ok".to_string(), mode: "local_only".to_string(), uptime_s: 5 };
    assert_eq!(h.uptime_s, 5);
    let s = StatusResponse {
        status: "ok".to_string(),
        mode: "local_only".to_string(),
        identity_mode: "local".to_string(),
        uptime_s: 5,
        rule_count: 2,
        total_allowed: 3,
        total_denied: 1,
        event_count: 4,
    };
    assert_eq!(s.total_allowed + s.total_denied, 4);
    let r = PolicyReloadResponse { success: true, rule_count: 2, message: "ok".to_string() };
    assert!(r.success);
}

#[test]
fn command_preview_quotes_arguments_with_spaces() {
    let args = vec!["--policy-file".to_string(), "/tmp/my policy.json".to_string(), "--web-ui".to_string()];
    assert_eq!(
        launch_command_preview("  /usr/bin/predicate-authorityd ", &args),
        "/usr/bin/predicate-authorityd --policy-file \"/tmp/my policy.json\" --web-ui run"
    );
    assert_eq!(launch_command_preview("bin", &vec![]), "bin run");
}

#[test]
fn probe_lines_name_the_reply_fields() {
    let h = HealthResponse { status: "healthy".to_string(), mode: "local_only".to_string(), uptime_s: 42 };
    assert_eq!(health_line(&h), "GET /health \u{2192} healthy  mode=local_only  uptime=42s");
    assert_eq!(health_error_line("connection refused"), "GET /health \u{2192} error: connection refused");
    let s = StatusResponse {
        status: "healthy".to_string(),
        mode: "local_only".to_string(),
        identity_mode: "local".to_string(),
        uptime_s: 1,
        rule_count: 3,
        total_allowed: 10,
        total_denied: 2,
        event_count: 12,
    };
    assert_eq!(status_line(&s), "GET /status \u{2192} rules=3 allowed=10 denied=2 events=12");
}

#[test]
fn probe_display_records_changes_only() {
    let mut d = ProbeDisplay::new();
    assert_eq!(d.health_line, "\u{2014}");
    d.receive("GET /health \u{2192} healthy".to_string(), 100);
    d.receive("GET /health \u{2192} healthy".to_string(), 101);
    d.receive("GET /status \u{2192} rules=1".to_string(), 102);
    assert_eq!(d.health_line, "GET /health \u{2192} healthy");
    assert_eq!(d.status_line, "GET /status \u{2192} rules=1");
    assert_eq!(d.history.len(), 2);
    assert_eq!(d.history[0], "100 [health] GET /health \u{2192} healthy");
    assert_eq!(d.history[1], "102 [status] GET /status \u{2192} rules=1");
}

#[test]
fn probe_history_keeps_the_newest_fifty() {
    let mut d = ProbeDisplay::new();
    for i in 0..60u64 {
        d.receive(format!("GET /status \u{2192} rules={}", i), i);
    }
    assert_eq!(d.history.len(), 50);
    assert_eq!(d.history[0], "10 [status] GET /status \u{2192} rules=10");
    assert_eq!(d.history[49], "59 [status] GET /status \u{2192} rules=59");
}

#[test]
fn rule_lists_survive_a_draft_round_trip() {
    let rule = predicate_authorityd::models::PolicyRule {
        name: "allow-web".to_string(),
        effect: predicate_authorityd::models::PolicyEffect::Allow,
        principals: vec!["agent:*".to_string(), "agent:ops".to_string()],
        actions: vec!["browser.*".to_string()],
        resources: vec!["https://*".to_string(), "http://localhost/*".to_string()],
        required_labels: vec![],
        max_delegation_depth: None,
        inject_headers: None,
        inject_headers_from_file: None,
        inject_env: None,
        inject_env_from_file: None,
    };
    let back = predicate_authorityd::desktop::RuleDraft::from_rule(&rule).to_rule().unwrap();
    assert_eq!(back.name, rule.name);
    assert_eq!(back.principals, rule.principals);
    assert_eq!(back.actions, rule.actions);
    assert_eq!(back.resources, rule.resources);
}
