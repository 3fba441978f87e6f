use predicate_authorityd::config::{Config, ConfigError, EXAMPLE_TOML};

#[test]
fn config_test_default_config() {
    let config = Config::default();
    assert_eq!(config.server.host, "127.0.0.1");
    assert_eq!(config.server.port, 8787);
    assert_eq!(config.server.mode, "local_only");
    assert_eq!(config.logging.level, "info");
}

#[test]
fn default_config_sections() {
    let config = Config::default();
    assert_eq!(config.identity.default_ttl_s, 900);
    assert_eq!(config.identity.queue_item_ttl_s, 86400);
    assert_eq!(config.idp.mode, "local");
    assert_eq!(config.idp.mandate_ttl_s, 300);
    assert!(config.control_plane.url.is_none());
    assert!(!config.control_plane.sync_enabled);
    assert!(!config.ssrf.disabled);
}

#[test]
fn example_toml_names_every_section() {
    let example = Config::example_toml();
    assert_eq!(example, EXAMPLE_TOML);
    for section in ["[server]", "[policy]", "[ssrf]", "[identity]", "[idp]", "[control_plane]", "[logging]"] {
        assert!(example.contains(section));
    }
}

#[test]
fn config_error_messages() {
    let e = ConfigError::ParseError("a.toml".to_string(), "bad".to_string());
    assert_eq!(e.to_string(), "Failed to parse config file 'a.toml': bad");
    let e = ConfigError::ReadError("a.toml".to_string(), "missing".to_string());
    assert_eq!(e.to_string(), "Failed to read config file 'a.toml': missing");
}
