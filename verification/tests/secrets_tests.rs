use predicate_authorityd::secrets::{
    extract_env_var_names, has_env_var_references, substitute_env_vars, substitute_env_vars_in_map,
    validate_env_vars, EnvSnapshot,
};

fn env(pairs: &[(&str, &str)]) -> EnvSnapshot {
    EnvSnapshot { vars: pairs.iter().map(|(k, v)| (k.to_string(), v.to_string())).collect() }
}

#[test]
fn test_substitute_simple_var() {
    let e = env(&[("TEST_SECRET_1", "my-secret-value")]);
    let result = substitute_env_vars("Bearer ${TEST_SECRET_1}", &e).unwrap();
    assert_eq!(result, "Bearer my-secret-value");
}

#[test]
fn test_substitute_multiple_vars() {
    let e = env(&[("TEST_USER", "admin"), ("TEST_PASS", "secret123")]);
    let result = substitute_env_vars("${TEST_USER}:${TEST_PASS}", &e).unwrap();
    assert_eq!(result, "admin:secret123");
}

#[test]
fn test_substitute_with_default() {
    let e = env(&[]);
    let result = substitute_env_vars("${NONEXISTENT_VAR:-default_value}", &e).unwrap();
    assert_eq!(result, "default_value");
}

#[test]
fn test_substitute_with_default_empty() {
    let e = env(&[]);
    let result = substitute_env_vars("${EMPTY_DEFAULT_VAR:-}", &e).unwrap();
    assert_eq!(result, "");
}

#[test]
fn test_substitute_prefers_env_over_default() {
    let e = env(&[("TEST_PRIORITY", "from-env")]);
    let result = substitute_env_vars("${TEST_PRIORITY:-default}", &e).unwrap();
    assert_eq!(result, "from-env");
}

#[test]
fn test_substitute_missing_required_var() {
    let e = env(&[]);
    let result = substitute_env_vars("Bearer ${DEFINITELY_NOT_SET}", &e);
    assert!(result.is_err());
    let err = result.unwrap_err();
    assert!(err.to_string().contains("DEFINITELY_NOT_SET"));
}

#[test]
fn test_substitute_in_map() {
    let e = env(&[("TEST_API_KEY", "key123"), ("TEST_ORG_ID", "org456")]);
    let templates = vec![
        ("Authorization".to_string(), "Bearer ${TEST_API_KEY}".to_string()),
        ("X-Org-ID".to_string(), "${TEST_ORG_ID}".to_string()),
    ];
    let result = substitute_env_vars_in_map(&templates, &e).unwrap();
    let get = |k: &str| result.iter().find(|(key, _)| key == k).map(|(_, v)| v.clone()).unwrap();
    assert_eq!(get("Authorization"), "Bearer key123");
    assert_eq!(get("X-Org-ID"), "org456");
}

#[test]
fn test_has_env_var_references() {
    assert!(has_env_var_references("Bearer ${TOKEN}"));
    assert!(has_env_var_references("${VAR:-default}"));
    assert!(!has_env_var_references("plain text"));
    assert!(!has_env_var_references("not a ${incomplete"));
    assert!(!has_env_var_references("$NOT_BRACED"));
}

#[test]
fn test_extract_env_var_names() {
    let names = extract_env_var_names("${VAR1} and ${VAR2:-default}");
    assert_eq!(names, vec!["VAR1", "VAR2"]);
}

#[test]
fn test_validate_env_vars() {
    let e = env(&[("TEST_EXISTS", "value")]);
    let missing = validate_env_vars("${TEST_EXISTS} ${TEST_MISSING} ${TEST_DEFAULT:-d}", &e);
    assert_eq!(missing, vec!["TEST_MISSING"]);
}

#[test]
fn test_no_substitution_needed() {
    let e = env(&[]);
    let result = substitute_env_vars("plain text without variables", &e).unwrap();
    assert_eq!(result, "plain text without variables");
}

#[test]
fn test_complex_template() {
    let e = env(&[("TEST_HOST", "api.example.com"), ("TEST_TOKEN", "secret123")]);
    let template = "https://${TEST_HOST}/api?key=${TEST_TOKEN}&format=${FMT:-json}";
    let result = substitute_env_vars(template, &e).unwrap();
    assert_eq!(result, "https://api.example.com/api?key=secret123&format=json");
}

#[test]
fn test_underscore_and_numbers_in_var_names() {
    let e = env(&[("MY_VAR_123", "value"), ("_PRIVATE_VAR", "private")]);
    let result = substitute_env_vars("${MY_VAR_123} ${_PRIVATE_VAR}", &e).unwrap();
    assert_eq!(result, "value private");
}

#[test]
fn missing_names_are_listed_in_order() {
    let e = env(&[]);
    let err = substitute_env_vars("${A}${B}${A}", &e).unwrap_err();
    assert_eq!(err.to_string(), "Missing environment variable: A, B, A");
}

#[test]
fn validation_agrees_with_substitution() {
    let e = env(&[("HOME_DIR", "/h")]);
    let t = "${HOME_DIR}/${MISSING}/${OPT:-x}";
    assert_eq!(validate_env_vars(t, &e), vec!["MISSING".to_string()]);
    assert!(substitute_env_vars(t, &e).is_err());
    let ok = "${HOME_DIR}/${OPT:-x}";
    assert!(validate_env_vars(ok, &e).is_empty());
    assert_eq!(substitute_env_vars(ok, &e).unwrap(), "/h/x");
}
