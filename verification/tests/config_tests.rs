use oneinstall::config::Config;

#[test]
fn test_default_config() {
    let config = Config::default();
    assert!(config.backends.priority.contains(&"apt".to_string()));
    assert!(config.behavior.auto_confirm);
}

#[test]
fn test_get_set() {
    let mut config = Config::default();
    config.set("behavior.verbose", "true").unwrap();
    assert_eq!(config.get("behavior.verbose"), Some("true".to_string()));
}

#[test]
fn test_default_priority_order() {
    let config = Config::default();
    assert_eq!(
        config.backends.priority,
        vec!["apt", "winget", "brew", "snap", "npm", "pip"]
    );
    assert!(config.backends.disabled.is_empty());
}

#[test]
fn test_get_priority_joined() {
    let config = Config::default();
    assert_eq!(
        config.get("backends.priority"),
        Some("apt,winget,brew,snap,npm,pip".to_string())
    );
}

#[test]
fn test_set_priority_splits_and_trims() {
    let mut config = Config::default();
    config.set("backends.priority", " brew , apt ,npm").unwrap();
    assert_eq!(config.backends.priority, vec!["brew", "apt", "npm"]);
    assert_eq!(config.get("backends.priority"), Some("brew,apt,npm".to_string()));
}

#[test]
fn test_set_invalid_boolean() {
    let mut config = Config::default();
    let err = config.set("behavior.auto_confirm", "maybe").unwrap_err();
    assert_eq!(err, "Invalid boolean");
    assert!(config.behavior.auto_confirm);
}

#[test]
fn test_set_unknown_key() {
    let mut config = Config::default();
    let err = config.set("nonsense.key", "1").unwrap_err();
    assert_eq!(err, "Unknown config key: nonsense.key");
}

#[test]
fn test_get_unknown_key() {
    let config = Config::default();
    assert_eq!(config.get("nonsense.key"), None);
}

#[test]
fn test_client_id_roundtrip() {
    let mut config = Config::default();
    assert_eq!(config.get("telemetry.client_id"), None);
    config.set("telemetry.client_id", "abc-123").unwrap();
    assert_eq!(config.get("telemetry.client_id"), Some("abc-123".to_string()));
}

#[test]
fn test_list_keys() {
    let keys = Config::list_keys();
    assert_eq!(keys.len(), 8);
    assert_eq!(keys[0], "backends.priority");
    assert_eq!(keys[7], "telemetry.client_id");
}

#[test]
fn test_every_listed_key_gettable() {
    let mut config = Config::default();
    config.set("telemetry.client_id", "x").unwrap();
    for key in Config::list_keys() {
        assert!(config.get(key).is_some(), "missing value for {}", key);
    }
}
