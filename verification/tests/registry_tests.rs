use oneinstall::shims::ShimRegistry;

#[test]
fn test_registry_add_get() {
    let mut registry = ShimRegistry::default();
    registry.add(
        "test".to_string(),
        "/usr/bin/test".to_string(),
        "apt".to_string(),
    );

    let entry = registry.get("test").unwrap();
    assert_eq!(entry.name, "test");
    assert_eq!(entry.installed_by, "apt");
}

#[test]
fn test_registry_upsert_replaces() {
    let mut registry = ShimRegistry::new();
    registry.add("jq".to_string(), "/old/jq".to_string(), "apt".to_string());
    registry.add("jq".to_string(), "/new/jq".to_string(), "brew".to_string());
    assert_eq!(registry.len(), 1);
    let entry = registry.get("jq").unwrap();
    assert_eq!(entry.target, "/new/jq");
    assert_eq!(entry.installed_by, "brew");
}

#[test]
fn test_registry_remove() {
    let mut registry = ShimRegistry::new();
    registry.add("jq".to_string(), "/usr/bin/jq".to_string(), "apt".to_string());
    registry.add("rg".to_string(), "/usr/bin/rg".to_string(), "apt".to_string());
    let removed = registry.remove("jq").unwrap();
    assert_eq!(removed.name, "jq");
    assert_eq!(removed.target, "/usr/bin/jq");
    assert_eq!(registry.len(), 1);
    assert!(registry.get("jq").is_none());
    // removing a missing name is a no-op
    assert!(registry.remove("jq").is_none());
    assert_eq!(registry.len(), 1);
}

#[test]
fn test_registry_list_and_empty() {
    let mut registry = ShimRegistry::new();
    assert!(registry.is_empty());
    assert_eq!(registry.len(), 0);
    assert_eq!(registry.list().len(), 0);
    registry.add("jq".to_string(), "/usr/bin/jq".to_string(), "apt".to_string());
    assert!(!registry.is_empty());
    let listed = registry.list();
    assert_eq!(listed.len(), 1);
    assert_eq!(listed[0].name, "jq");
}
