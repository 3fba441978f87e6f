use predicate_authorityd::models::ScopeSpec;
use predicate_authorityd::subset::{
    has_glob_wildcards_exec, is_action_subset, is_resource_subset, is_scope_subset,
    is_scope_subset_of_any, is_wildcard_narrower_or_equal,
};

#[test]
fn test_exact_action_match() {
    assert!(is_action_subset("browser.click", "browser.click"));
    assert!(is_action_subset("fs.read", "fs.read"));
    assert!(is_action_subset("http.get", "http.get"));
}

#[test]
fn test_wildcard_parent_allows_specific() {
    assert!(is_action_subset("browser.*", "browser.click"));
    assert!(is_action_subset("browser.*", "browser.type"));
    assert!(is_action_subset("browser.*", "browser.navigate"));
    assert!(is_action_subset("*", "browser.click"));
    assert!(is_action_subset("*", "fs.read"));
}

#[test]
fn test_specific_parent_denies_wildcard() {
    assert!(!is_action_subset("browser.click", "browser.*"));
    assert!(!is_action_subset("fs.read", "fs.*"));
    assert!(!is_action_subset("http.get", "*"));
}

#[test]
fn test_different_prefix_not_subset() {
    assert!(!is_action_subset("browser.*", "fs.read"));
    assert!(!is_action_subset("browser.click", "fs.read"));
    assert!(!is_action_subset("http.*", "browser.click"));
}

#[test]
fn test_nested_wildcard_narrowing() {
    assert!(is_action_subset("browser.*", "browser.click.*"));
    assert!(is_action_subset("*.*", "browser.*"));
}

#[test]
fn test_exact_resource_match() {
    assert!(is_resource_subset("https://example.com", "https://example.com"));
    assert!(is_resource_subset("button#submit", "button#submit"));
}

#[test]
fn test_wildcard_resource_allows_specific() {
    assert!(is_resource_subset("https://*", "https://example.com"));
    assert!(is_resource_subset("button#*", "button#submit"));
    assert!(is_resource_subset("*", "https://example.com"));
}

#[test]
fn test_specific_resource_denies_wildcard() {
    assert!(!is_resource_subset("https://example.com", "https://*"));
    assert!(!is_resource_subset("button#submit", "button#*"));
}

#[test]
fn test_scope_subset_both_match() {
    assert!(is_scope_subset("browser.*", "https://*", "browser.click", "https://example.com"));
}

#[test]
fn test_scope_subset_action_exceeds() {
    assert!(!is_scope_subset("browser.click", "https://*", "browser.*", "https://example.com"));
}

#[test]
fn test_scope_subset_resource_exceeds() {
    assert!(!is_scope_subset("browser.*", "https://example.com", "browser.click", "https://*"));
}

#[test]
fn test_scope_subset_both_exceed() {
    assert!(!is_scope_subset("browser.click", "https://example.com", "browser.*", "https://*"));
}

#[test]
fn test_empty_patterns() {
    assert!(is_action_subset("", ""));
    assert!(!is_action_subset("browser.click", ""));
    assert!(!is_action_subset("", "browser.click"));
}

#[test]
fn test_universal_wildcard() {
    assert!(is_action_subset("*", ""));
    assert!(is_action_subset("*", "anything.at.all"));
    assert!(is_resource_subset("*", "any://resource/path"));
}

#[test]
fn test_question_mark_wildcard() {
    assert!(is_action_subset("browser.clic?", "browser.click"));
    assert!(!is_action_subset("browser.click", "browser.clic?"));
}

#[test]
fn test_path_style_resources() {
    assert!(is_resource_subset("/home/*/data/*", "/home/user/data/file.txt"));
    assert!(!is_resource_subset("/home/user/data/file.txt", "/home/*/data/*"));
}

#[test]
fn subset_of_any_parent_scope() {
    let parents = vec![ScopeSpec::new("browser.*", "https://*"), ScopeSpec::new("fs.*", "/workspace/**")];
    assert!(is_scope_subset_of_any(&parents, "fs.write", "/workspace/data/analysis.json"));
    assert!(is_scope_subset_of_any(&parents, "browser.navigate", "https://amazon.com/products"));
    assert!(!is_scope_subset_of_any(&parents, "network.connect", "tcp://internal:3306"));
    assert!(!is_scope_subset_of_any(&Vec::new(), "fs.read", "/a"));
}

#[test]
fn wildcard_helpers() {
    let chars = |s: &str| s.chars().collect::<Vec<char>>();
    assert!(has_glob_wildcards_exec(&chars("a*")));
    assert!(has_glob_wildcards_exec(&chars("a?")));
    assert!(has_glob_wildcards_exec(&chars("[ab]")));
    assert!(!has_glob_wildcards_exec(&chars("plain")));
    assert!(is_wildcard_narrower_or_equal(&chars("browser.*"), &chars("browser.click.*")));
    assert!(!is_wildcard_narrower_or_equal(&chars("browser.click"), &chars("browser.*")));
}

#[test]
fn wildcard_request_must_not_escape_the_parent() {
    assert!(!is_action_subset("browser.clic?", "browser.clic*"));
    assert!(!is_action_subset("a?.b", "a?.b.*"));
    assert!(!is_resource_subset("*.]b", "a[.]b"));
    assert!(is_action_subset("browser.*", "browser.click.*"));
    assert!(is_action_subset("*.*", "browser.*"));
}
