use predicate_authorityd::presets::{LaunchPreset, PersistedState};

fn preset(name: &str, port: &str) -> LaunchPreset {
    LaunchPreset {
        name: name.to_string(),
        binary_path: "/usr/local/bin/predicate-authorityd".to_string(),
        config_path: String::new(),
        policy_path: "/etc/policy.json".to_string(),
        host: "127.0.0.1".to_string(),
        port: port.to_string(),
        web_ui: true,
        audit_mode: false,
    }
}

#[test]
fn default_state_is_empty() {
    let s = PersistedState::default();
    assert!(s.presets.is_empty());
    assert!(s.startup_preset_name.is_none());
    assert!(!s.apply_startup_preset);
}

#[test]
fn saving_a_new_name_appends() {
    let mut s = PersistedState::default();
    s.save_preset(preset("dev", "8787"));
    s.save_preset(preset("prod", "9000"));
    assert_eq!(s.presets.len(), 2);
    assert_eq!(s.presets[0].name, "dev");
    assert_eq!(s.presets[1].name, "prod");
    assert_eq!(s.position("prod"), Some(1));
    assert_eq!(s.position("missing"), None);
}

#[test]
fn saving_an_existing_name_replaces_it() {
    let mut s = PersistedState::default();
    s.save_preset(preset("dev", "8787"));
    s.save_preset(preset("prod", "9000"));
    s.save_preset(preset("dev", "7000"));
    assert_eq!(s.presets.len(), 2);
    assert_eq!(s.presets[0].port, "7000");
    assert_eq!(s.presets[1].port, "9000");
}

#[test]
fn startup_preset_needs_the_flag_and_an_existing_name() {
    let mut s = PersistedState::default();
    s.save_preset(preset("dev", "8787"));
    s.startup_preset_name = Some("dev".to_string());
    assert!(s.startup_preset().is_none());
    s.apply_startup_preset = true;
    assert_eq!(s.startup_preset().unwrap().port, "8787");
    s.startup_preset_name = Some("other".to_string());
    assert!(s.startup_preset().is_none());
}

#[test]
fn deleting_the_startup_preset_forgets_the_choice() {
    let mut s = PersistedState::default();
    s.save_preset(preset("dev", "8787"));
    s.save_preset(preset("prod", "9000"));
    s.startup_preset_name = Some("prod".to_string());
    s.apply_startup_preset = true;
    let removed = s.delete_preset(0).unwrap();
    assert_eq!(removed.name, "dev");
    assert_eq!(s.startup_preset_name.as_deref(), Some("prod"));
    let removed = s.delete_preset(0).unwrap();
    assert_eq!(removed.name, "prod");
    assert!(s.startup_preset_name.is_none());
    assert!(s.apply_startup_preset);
    assert!(s.delete_preset(0).is_none());
}

#[test]
fn duplicate_copies_every_field() {
    let p = preset("dev", "8787");
    let q = p.duplicate();
    assert_eq!(q.name, p.name);
    assert_eq!(q.binary_path, p.binary_path);
    assert_eq!(q.policy_path, p.policy_path);
    assert_eq!(q.port, p.port);
    assert_eq!(q.web_ui, p.web_ui);
}
