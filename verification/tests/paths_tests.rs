use predicate_authorityd::paths::{normalize_path, normalize_path_with_home};

#[test]
fn test_path_traversal_removal() {
    assert_eq!(normalize_path("/workspace/../etc/passwd"), "/etc/passwd");
    assert_eq!(normalize_path("/a/b/../c"), "/a/c");
    assert_eq!(normalize_path("/a/./b/./c"), "/a/b/c");
    let result = normalize_path("./workspace/../../../etc/passwd");
    assert!(result.ends_with("etc/passwd"), "Should end with etc/passwd, got: {}", result);
}

#[test]
fn test_redundant_slashes() {
    assert_eq!(normalize_path("/src//index.ts"), "/src/index.ts");
    assert_eq!(normalize_path("/src///foo///bar"), "/src/foo/bar");
}

#[test]
fn test_dot_components() {
    assert_eq!(normalize_path("/src/./index.ts"), "/src/index.ts");
    assert_eq!(normalize_path("./foo/./bar"), "foo/bar");
}

#[test]
fn test_absolute_paths_unchanged() {
    assert_eq!(normalize_path("/etc/passwd"), "/etc/passwd");
    assert_eq!(normalize_path("/workspace/src/index.ts"), "/workspace/src/index.ts");
}

#[test]
fn test_empty_path() {
    assert_eq!(normalize_path(""), ".");
}

#[test]
fn test_multiple_parent_dirs() {
    assert_eq!(normalize_path("/a/b/c/../../d"), "/a/d");
    assert_eq!(normalize_path("/a/b/c/../../../d"), "/d");
}

#[test]
fn test_parent_dir_at_root() {
    assert_eq!(normalize_path("/../etc/passwd"), "/etc/passwd");
    assert_eq!(normalize_path("/../../etc/passwd"), "/etc/passwd");
}

#[test]
fn home_prefix_is_expanded() {
    assert_eq!(normalize_path_with_home("~/notes/../a.txt", Some("/home/u")), "/home/u/a.txt");
    assert_eq!(normalize_path_with_home("~/a", None), "~/a");
}

#[test]
fn normalized_path_has_no_parent_segment() {
    for p in ["../../x", "a/../../b", "/../..", "x/./y/../../.."] {
        let n = normalize_path(p);
        assert!(!n.split('/').any(|s| s == ".."), "{} -> {}", p, n);
    }
}
