use predicate_authorityd::policy_loader::{detect_format, extension_of, is_yaml_file, load_policy_from_parsed, PolicyFormat, PolicyLoadError};

#[test]
fn test_detect_format_json_default() {
    assert_eq!(detect_format("policy.json"), PolicyFormat::Json);
    assert_eq!(detect_format("policy.txt"), PolicyFormat::Json);
    assert_eq!(detect_format("policy"), PolicyFormat::Json);
    assert_eq!(detect_format("/path/to/policy.JSON"), PolicyFormat::Json);
}

#[test]
fn test_detect_format_yaml() {
    assert_eq!(detect_format("policy.yaml"), PolicyFormat::Yaml);
    assert_eq!(detect_format("policy.yml"), PolicyFormat::Yaml);
    assert_eq!(detect_format("/path/to/my-policy.yaml"), PolicyFormat::Yaml);
    assert_eq!(detect_format("config/rules.yml"), PolicyFormat::Yaml);
}

#[test]
fn extension_follows_the_last_dot_of_the_name() {
    assert_eq!(extension_of("a/b.tar.gz").map(|v| v.into_iter().collect::<String>()), Some("gz".to_string()));
    assert_eq!(extension_of(".hidden"), None);
    assert_eq!(extension_of("dir.d/file"), None);
    assert!(is_yaml_file("x/y.yml"));
    assert!(!is_yaml_file("x/y.yaml.bak"));
}

fn sample_rule(name: &str) -> predicate_authorityd::models::PolicyRule {
    predicate_authorityd::models::PolicyRule {
        name: name.to_string(),
        effect: predicate_authorityd::models::PolicyEffect::Allow,
        principals: vec!["agent:*".to_string()],
        actions: vec!["browser.*".to_string()],
        resources: vec!["https://*".to_string()],
        required_labels: vec![],
        max_delegation_depth: None,
        inject_headers: None,
        inject_headers_from_file: None,
        inject_env: None,
        inject_env_from_file: None,
    }
}

#[test]
fn parsed_entries_are_assembled_with_skips_counted() {
    let entries = vec![Some(sample_rule("a")), None, Some(sample_rule("b")), None];
    let result = load_policy_from_parsed(PolicyFormat::Yaml, Ok(Some(entries))).unwrap();
    assert_eq!(result.format, PolicyFormat::Yaml);
    assert_eq!(result.skipped_rules, 2);
    let names: Vec<&str> = result.rules.iter().map(|r| r.name.as_str()).collect();
    assert_eq!(names, vec!["a", "b"]);
    let empty = load_policy_from_parsed(PolicyFormat::Json, Ok(Some(vec![]))).unwrap();
    assert_eq!(empty.rules.len(), 0);
    assert_eq!(empty.skipped_rules, 0);
}

#[test]
fn load_errors_follow_the_format() {
    match load_policy_from_parsed(PolicyFormat::Json, Err("expected value".to_string())) {
        Err(e) => assert_eq!(e.to_string(), "Failed to parse JSON policy: expected value"),
        Ok(_) => panic!("parse error accepted"),
    }
    assert!(matches!(
        load_policy_from_parsed(PolicyFormat::Yaml, Err("bad".to_string())),
        Err(PolicyLoadError::YamlParseError(_))
    ));
    match load_policy_from_parsed(PolicyFormat::Json, Ok(None)) {
        Err(e) => assert_eq!(e.to_string(), "Policy file missing 'rules' array"),
        Ok(_) => panic!("missing rules accepted"),
    }
    assert_eq!(PolicyLoadError::IoError("gone".to_string()).to_string(), "Failed to read policy file: gone");
}
