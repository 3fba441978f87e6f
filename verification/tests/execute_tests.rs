use predicate_authorityd::execute::{
    actions_match, check_execution, failure_response, normalize_path, resources_match, MandateStore,
};
use predicate_authorityd::models::{ExecuteRequest, MandateClaims, SignedMandate};

#[test]
fn test_actions_match_exact() {
    assert!(actions_match("fs.read", "fs.read"));
    assert!(actions_match("cli.exec", "cli.exec"));
    assert!(!actions_match("fs.read", "fs.write"));
}

#[test]
fn test_actions_match_wildcard() {
    assert!(actions_match("fs.*", "fs.read"));
    assert!(actions_match("fs.*", "fs.write"));
    assert!(actions_match("browser.*", "browser.click"));
    assert!(!actions_match("fs.*", "cli.exec"));
    assert!(!actions_match("fs.*", "fs"));
}

#[test]
fn test_resources_match_exact() {
    assert!(resources_match("/src/index.ts", "/src/index.ts"));
    assert!(resources_match("https://example.com/api", "https://example.com/api"));
    assert!(!resources_match("/src/index.ts", "/src/main.ts"));
}

#[test]
fn test_resources_match_normalized() {
    assert!(resources_match("/src//index.ts", "/src/index.ts"));
    assert!(resources_match("/src/./index.ts", "/src/index.ts"));
    assert!(resources_match("/src/index.ts/", "/src/index.ts"));
}

#[test]
fn test_resources_match_glob() {
    assert!(resources_match("/src/*.ts", "/src/index.ts"));
    assert!(resources_match("/src/**/*.ts", "/src/components/Button.ts"));
    assert!(resources_match("/src/*.ts", "/src/components/Button.ts"));
    assert!(resources_match("https://api.example.com/*", "https://api.example.com/users"));
    assert!(!resources_match("/src/index.ts", "/src/main.ts"));
}

#[test]
fn test_normalize_path() {
    assert_eq!(normalize_path("/src//index.ts"), "/src/index.ts");
    assert_eq!(normalize_path("/src/./index.ts"), "/src/index.ts");
    assert_eq!(normalize_path("/src/index.ts/"), "/src/index.ts");
    assert_eq!(normalize_path("/src//./index.ts/"), "/src/index.ts");
}

#[test]
fn test_actions_match_new_actions() {
    assert!(actions_match("fs.list", "fs.list"));
    assert!(actions_match("fs.*", "fs.list"));
    assert!(actions_match("fs.delete", "fs.delete"));
    assert!(actions_match("fs.*", "fs.delete"));
    assert!(actions_match("env.read", "env.read"));
    assert!(actions_match("env.*", "env.read"));
}

fn stored_mandate(id: &str, action: &str, resource: &str, expires: i64) -> SignedMandate {
    SignedMandate {
        token: "tok".to_string(),
        claims: MandateClaims {
            mandate_id: id.to_string(),
            principal_id: "agent:test".to_string(),
            action: action.to_string(),
            resource: resource.to_string(),
            scopes: Vec::new(),
            intent_hash: "h".to_string(),
            state_hash: "s".to_string(),
            issued_at_epoch_s: 0,
            expires_at_epoch_s: expires,
            delegated_by: None,
            parent_mandate_id: None,
            delegation_depth: 0,
            delegation_chain_hash: None,
            iss: None,
            aud: None,
            sub: None,
            iat: None,
            exp: None,
            nbf: None,
            jti: None,
        },
        signature: "sig".to_string(),
    }
}

fn request(id: &str, action: &str, resource: &str) -> ExecuteRequest {
    ExecuteRequest { mandate_id: id.to_string(), action: action.to_string(), resource: resource.to_string(), payload: None }
}

#[test]
fn execution_checks_refuse_in_order() {
    let mut store = MandateStore::new();
    store.store(stored_mandate("m1", "fs.*", "/work/*", 1_000));

    let missing = check_execution(&store, &request("m2", "fs.read", "/work/a"), 10).unwrap_err();
    assert_eq!(missing, (404, "Mandate not found".to_string()));

    let expired = check_execution(&store, &request("m1", "fs.read", "/work/a"), 2_000).unwrap_err();
    assert_eq!(expired, (403, "Mandate expired".to_string()));

    let action = check_execution(&store, &request("m1", "cli.exec", "/work/a"), 10).unwrap_err();
    assert_eq!(action, (403, "Action 'cli.exec' not authorized by mandate (authorized: 'fs.*')".to_string()));

    let resource = check_execution(&store, &request("m1", "fs.read", "/etc/passwd"), 10).unwrap_err();
    assert_eq!(resource, (403, "Resource '/etc/passwd' not in mandate scope (authorized: '/work/*')".to_string()));

    let ok = check_execution(&store, &request("m1", "fs.read", "/work/a"), 10).unwrap();
    assert_eq!(ok.claims.mandate_id, "m1");
}

#[test]
fn mandate_store_replaces_and_marks_executed() {
    let mut store = MandateStore::new();
    store.store(stored_mandate("m1", "fs.read", "/a", 5));
    store.store(stored_mandate("m2", "fs.read", "/b", 5));
    assert!(!store.is_executed("m1"));
    store.mark_executed("m1");
    assert!(store.is_executed("m1"));
    assert!(!store.is_executed("m2"));
    store.store(stored_mandate("m1", "fs.write", "/c", 5));
    assert!(!store.is_executed("m1"));
    assert_eq!(store.get("m1").unwrap().claims.action, "fs.write");
    assert!(store.get("m3").is_none());
}

#[test]
fn failure_response_carries_error() {
    let r = failure_response("boom".to_string(), "exec_1_2".to_string());
    assert!(!r.success);
    assert_eq!(r.error, Some("boom".to_string()));
    assert_eq!(r.audit_id, "exec_1_2");
}

#[test]
fn action_wildcard_keeps_the_dot() {
    assert!(actions_match("fs.read", "fs.read"));
    assert!(actions_match("fs.*", "fs.read"));
    assert!(actions_match("fs.*", "fs.delete"));
    assert!(!actions_match("fs.*", "fs"));
    assert!(!actions_match("fs.*", "cli.exec"));
    assert!(!actions_match("fs.*", "fsx.read"));
    assert!(!actions_match("fs.*", "fs_admin"));
}

#[test]
fn normalize_path_collapses_runs_of_slashes() {
    assert_eq!(normalize_path("/src///index.ts"), "/src/index.ts");
    assert_eq!(normalize_path("/src/././index.ts"), "/src/index.ts");
    assert_eq!(normalize_path("./a"), "./a");
    assert_eq!(normalize_path("///"), "");
    let once = normalize_path("/a//././/b///");
    assert_eq!(once, "/a/b");
    assert_eq!(normalize_path(&once), once);
}

#[test]
fn action_mismatch_refused_with_backslash_resources() {
    let mut store = MandateStore::new();
    store.store(stored_mandate("m1", "fs.read", "C:\\work\\*", 1_000));
    let action = check_execution(&store, &request("m1", "fs.write", "C:\\work\\a"), 10).unwrap_err();
    assert_eq!(action.0, 403);
    assert!(action.1.starts_with("Action 'fs.write' not authorized"));
}
