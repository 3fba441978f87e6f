use predicate_authorityd::ip::IpValue;
use predicate_authorityd::ssrf::SsrfProtection;

#[test]
fn test_block_localhost_ip() {
    let ssrf = SsrfProtection::default();
    assert!(ssrf.check_resource("http://127.0.0.1/").is_some());
    assert!(ssrf.check_resource("http://127.0.0.2:8080/api").is_some());
    assert!(ssrf.check_resource("http://127.255.255.255/").is_some());
}

#[test]
fn test_block_localhost_hostname() {
    let ssrf = SsrfProtection::default();
    assert!(ssrf.check_resource("http://localhost/").is_some());
    assert!(ssrf.check_resource("http://localhost:3000/api").is_some());
    assert!(ssrf.check_resource("http://LOCALHOST/").is_some());
}

#[test]
fn test_block_private_ips() {
    let ssrf = SsrfProtection::default();
    assert!(ssrf.check_resource("http://10.0.0.1/").is_some());
    assert!(ssrf.check_resource("http://10.255.255.255/").is_some());
    assert!(ssrf.check_resource("http://172.16.0.1/").is_some());
    assert!(ssrf.check_resource("http://172.31.255.255/").is_some());
    assert!(ssrf.check_resource("http://192.168.0.1/").is_some());
    assert!(ssrf.check_resource("http://192.168.255.255/").is_some());
}

#[test]
fn test_allow_public_ips() {
    let ssrf = SsrfProtection::default();
    assert!(ssrf.check_resource("http://8.8.8.8/").is_none());
    assert!(ssrf.check_resource("http://1.1.1.1/").is_none());
    assert!(ssrf.check_resource("http://93.184.216.34/").is_none());
}

#[test]
fn test_block_link_local() {
    let ssrf = SsrfProtection::default();
    assert!(ssrf.check_resource("http://169.254.0.1/").is_some());
    assert!(ssrf.check_resource("http://169.254.255.255/").is_some());
}

#[test]
fn test_block_cloud_metadata() {
    let ssrf = SsrfProtection::default();
    assert!(ssrf.check_resource("http://169.254.169.254/latest/meta-data/").is_some());
    assert!(ssrf.check_resource("http://169.254.169.254/latest/user-data").is_some());
    assert!(ssrf.check_resource("http://metadata.google.internal/computeMetadata/v1/").is_some());
    assert!(ssrf.check_resource("http://kubernetes.default.svc/api/v1/").is_some());
}

#[test]
fn test_block_internal_dns() {
    let ssrf = SsrfProtection::default();
    assert!(ssrf.check_resource("http://db.internal/connect").is_some());
    assert!(ssrf.check_resource("http://api-server.local/").is_some());
    assert!(ssrf.check_resource("http://secret.corp/admin").is_some());
    assert!(ssrf.check_resource("http://service.intranet/").is_some());
}

#[test]
fn test_allow_external_domains() {
    let ssrf = SsrfProtection::default();
    assert!(ssrf.check_resource("https://example.com/").is_none());
    assert!(ssrf.check_resource("https://api.github.com/").is_none());
    assert!(ssrf.check_resource("https://google.com/search").is_none());
}

#[test]
fn test_disabled_protection() {
    let ssrf = SsrfProtection::disabled();
    assert!(ssrf.check_resource("http://127.0.0.1/").is_none());
    assert!(ssrf.check_resource("http://10.0.0.1/").is_none());
    assert!(ssrf.check_resource("http://localhost/").is_none());
}

#[test]
fn test_custom_blocked_hostname() {
    let mut ssrf = SsrfProtection::default();
    ssrf.add_blocked_hostname("evil.com");
    assert!(ssrf.check_resource("http://evil.com/").is_some());
    assert!(ssrf.check_resource("http://sub.evil.com/").is_some());
    assert!(ssrf.check_resource("http://notevil.com/").is_none());
}

#[test]
fn test_ipv6_localhost() {
    let ssrf = SsrfProtection::default();
    assert!(ssrf.check_resource("http://[::1]/").is_some());
}

#[test]
fn test_case_insensitive() {
    let ssrf = SsrfProtection::default();
    assert!(ssrf.check_resource("http://LocalHost/").is_some());
    assert!(ssrf.check_resource("http://LOCALHOST/").is_some());
    assert!(ssrf.check_resource("http://DB.INTERNAL/").is_some());
}

#[test]
fn test_metadata_path_patterns() {
    let ssrf = SsrfProtection::default();
    assert!(ssrf.check_resource("http://8.8.8.8/latest/meta-data/iam/").is_some());
    assert!(ssrf.check_resource("http://example.com/computeMetadata/v1/instance").is_some());
}

#[test]
fn test_extract_host_from_url() {
    let ssrf = SsrfProtection::default();
    assert!(ssrf.check_resource("https://localhost:8443/path").is_some());
    assert!(ssrf.check_resource("http://127.0.0.1:9999/api/v1").is_some());
}

#[test]
fn extracted_hosts_drop_scheme_port_and_path() {
    let ssrf = SsrfProtection::default();
    assert_eq!(ssrf.extract_host("https://Example.com:8443/a/b"), Some("example.com".to_string()));
    assert_eq!(ssrf.extract_host("http://[::1]:80/"), Some("::1".to_string()));
}

#[test]
fn ipv4_addresses_are_classified() {
    let ssrf = SsrfProtection::default();
    assert!(ssrf.check_ip_address(&IpValue::V4(10, 1, 2, 3)).is_some());
    assert!(ssrf.check_ip_address(&IpValue::V4(8, 8, 4, 4)).is_none());
}
