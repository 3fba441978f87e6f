use std::time::Duration;

use predicate_authorityd::loop_guard::{LoopGuard, LoopGuardConfig};

#[test]
fn loop_guard_test_default_config() {
    let config = LoopGuardConfig::default();
    assert_eq!(config.max_entries, 10_000);
    assert_eq!(config.failure_threshold, 5);
    assert_eq!(config.failure_window, Duration::from_secs(60));
    assert_eq!(config.cooldown_period, Duration::from_secs(300));
}

#[test]
fn test_record_and_check_failure() {
    let mut guard = LoopGuard::with_params(100, 3, 60_000);
    guard.record_failure("agent:test", "browser.click", "https://example.com");
    assert!(!guard.is_blocked("agent:test", "browser.click", "https://example.com"));
    assert_eq!(guard.failure_count("agent:test", "browser.click", "https://example.com"), 1);
    guard.record_failure("agent:test", "browser.click", "https://example.com");
    assert!(!guard.is_blocked("agent:test", "browser.click", "https://example.com"));
    assert_eq!(guard.failure_count("agent:test", "browser.click", "https://example.com"), 2);
    guard.record_failure("agent:test", "browser.click", "https://example.com");
    assert!(guard.is_blocked("agent:test", "browser.click", "https://example.com"));
    assert_eq!(guard.failure_count("agent:test", "browser.click", "https://example.com"), 3);
}

#[test]
fn test_different_requests_tracked_separately() {
    let mut guard = LoopGuard::with_params(100, 2, 60_000);
    guard.record_failure("agent:a", "action.a", "resource:a");
    guard.record_failure("agent:a", "action.a", "resource:a");
    assert!(guard.is_blocked("agent:a", "action.a", "resource:a"));
    assert!(!guard.is_blocked("agent:a", "action.b", "resource:a"));
    assert!(!guard.is_blocked("agent:b", "action.a", "resource:a"));
}

#[test]
fn test_reset_clears_failures() {
    let mut guard = LoopGuard::with_params(100, 3, 60_000);
    guard.record_failure("agent:test", "action", "resource");
    guard.record_failure("agent:test", "action", "resource");
    assert_eq!(guard.failure_count("agent:test", "action", "resource"), 2);
    guard.reset("agent:test", "action", "resource");
    assert_eq!(guard.failure_count("agent:test", "action", "resource"), 0);
}

#[test]
fn loop_guard_test_stats() {
    let mut guard = LoopGuard::with_params(100, 3, 60_000);
    guard.record_failure("agent:a", "action", "resource");
    guard.record_failure("agent:b", "action", "resource");
    guard.record_failure("agent:b", "action", "resource");
    guard.record_failure("agent:b", "action", "resource");
    let stats = guard.stats();
    assert_eq!(stats.tracked_entries, 2);
    assert_eq!(stats.blocked_entries, 1);
    assert_eq!(stats.total_failures, 4);
}

#[test]
fn test_clear() {
    let mut guard = LoopGuard::new();
    guard.record_failure("agent:test", "action", "resource");
    assert_eq!(guard.size(), 1);
    guard.clear();
    assert_eq!(guard.size(), 0);
}

#[test]
fn test_lru_eviction() {
    let mut guard = LoopGuard::with_params(2, 3, 60_000);
    guard.record_failure("agent:a", "action", "resource");
    guard.record_failure("agent:b", "action", "resource");
    assert_eq!(guard.size(), 2);
    guard.record_failure("agent:c", "action", "resource");
    assert_eq!(guard.size(), 2);
    assert_eq!(guard.failure_count("agent:a", "action", "resource"), 0);
    assert_eq!(guard.failure_count("agent:b", "action", "resource"), 1);
    assert_eq!(guard.failure_count("agent:c", "action", "resource"), 1);
}

#[test]
fn failures_expire_after_the_window() {
    let mut guard = LoopGuard::with_params(100, 3, 50);
    guard.record_failure_at("agent:test", "action", "resource", 1_000);
    guard.record_failure_at("agent:test", "action", "resource", 1_010);
    assert_eq!(guard.failure_count_at("agent:test", "action", "resource", 1_020), 2);
    assert_eq!(guard.failure_count_at("agent:test", "action", "resource", 1_060), 0);
    assert!(!guard.is_blocked_at("agent:test", "action", "resource", 1_060));
    guard.record_failure_at("agent:test", "action", "resource", 1_070);
    assert_eq!(guard.failure_count_at("agent:test", "action", "resource", 1_070), 1);
}

#[test]
fn blocking_ends_after_the_cooldown() {
    let mut guard = LoopGuard::with_params(10, 2, 1_000);
    guard.record_failure_at("p", "a", "r", 0);
    guard.record_failure_at("p", "a", "r", 10);
    assert!(guard.is_blocked_at("p", "a", "r", 20));
    let stats = guard.stats_at(20);
    assert_eq!(stats.blocked_entries, 1);
    assert_eq!(stats.capacity, 10);
    assert!(!guard.is_blocked_at("p", "a", "r", 1_011));
}

#[test]
fn separator_in_a_field_does_not_merge_requests() {
    let mut guard = LoopGuard::with_params(100, 3, 60_000);
    guard.record_failure("a|b", "c", "d");
    assert_eq!(guard.failure_count("a|b", "c", "d"), 1);
    assert_eq!(guard.failure_count("a", "b|c", "d"), 0);
    guard.record_failure("a\\", "|c", "d");
    assert_eq!(guard.failure_count("a\\|", "c", "d"), 0);
    assert_eq!(guard.failure_count("a\\", "|c", "d"), 1);
}
