use oneinstall::pipeline::{
    FlowAction, FlowEvent, InstallError, InstallFlow, Transaction, select_named_backend,
};
use oneinstall::shims::ShimRegistry;

#[test]
fn test_transaction_new_and_rollback_plan() {
    let tx = Transaction::new("jq".to_string(), "apt".to_string());
    assert_eq!(tx.package, "jq");
    assert_eq!(tx.backend, "apt");
    assert!(!tx.installed);
    assert!(!tx.shim_created);
    let p = tx.rollback_plan();
    assert!(!p.uninstall);
    assert!(!p.remove_shim);

    let done = Transaction { installed: true, shim_created: true, ..tx };
    let p = done.rollback_plan();
    assert!(p.uninstall);
    assert!(p.remove_shim);
}

#[test]
fn test_install_failure_leaves_registry_untouched() {
    let mut registry = ShimRegistry::new();
    let mut flow = InstallFlow::new("jq".to_string(), "apt".to_string(), None, true);
    let action = flow.step(&mut registry, FlowEvent::InstallFinished { ok: false });
    match action {
        FlowAction::Finish { result, rollback } => {
            assert!(matches!(result, Err(InstallError::InstallFailed)));
            assert!(!rollback.uninstall);
            assert!(!rollback.remove_shim);
        }
        _ => panic!("expected the pipeline to finish"),
    }
    assert_eq!(registry.len(), 0);
}

#[test]
fn test_hash_mismatch_rolls_back() {
    let mut registry = ShimRegistry::new();
    let mut flow = InstallFlow::new(
        "jq".to_string(),
        "apt".to_string(),
        Some("deadbeef".to_string()),
        true,
    );
    let action = flow.step(&mut registry, FlowEvent::InstallFinished { ok: true });
    assert!(matches!(action, FlowAction::LocateBinary { .. }));
    let action = flow.step(
        &mut registry,
        FlowEvent::BinaryLocated { path: Some("/usr/bin/jq".to_string()) },
    );
    match &action {
        FlowAction::ComputeHash { path } => assert_eq!(path, "/usr/bin/jq"),
        _ => panic!("expected a hash computation"),
    }
    let action = flow.step(
        &mut registry,
        FlowEvent::HashComputed { hex: Some("0000aaaa".to_string()) },
    );
    match action {
        FlowAction::Finish { result, rollback } => {
            match result {
                Err(InstallError::HashMismatch { expected, actual }) => {
                    assert_eq!(expected, "deadbeef");
                    assert_eq!(actual, "0000aaaa");
                }
                _ => panic!("expected a hash mismatch"),
            }
            assert!(rollback.uninstall);
            assert!(!rollback.remove_shim);
        }
        _ => panic!("expected the pipeline to finish"),
    }
    assert_eq!(registry.len(), 0);
}

#[test]
fn test_missing_binary_fails_verification() {
    let mut registry = ShimRegistry::new();
    let mut flow = InstallFlow::new(
        "jq".to_string(),
        "apt".to_string(),
        Some("deadbeef".to_string()),
        false,
    );
    flow.step(&mut registry, FlowEvent::InstallFinished { ok: true });
    let action = flow.step(&mut registry, FlowEvent::BinaryLocated { path: None });
    match action {
        FlowAction::Finish { result, rollback } => {
            assert!(matches!(result, Err(InstallError::BinaryNotLocated)));
            assert!(rollback.uninstall);
        }
        _ => panic!("expected the pipeline to finish"),
    }
    assert_eq!(registry.len(), 0);
}

#[test]
fn test_successful_install_with_shim() {
    let mut registry = ShimRegistry::new();
    let mut flow = InstallFlow::new("jq".to_string(), "apt".to_string(), None, true);
    flow.step(&mut registry, FlowEvent::InstallFinished { ok: true });
    let action = flow.step(
        &mut registry,
        FlowEvent::BinaryLocated { path: Some("/usr/bin/jq".to_string()) },
    );
    match &action {
        FlowAction::WriteShim { name, target } => {
            assert_eq!(name, "jq");
            assert_eq!(target, "/usr/bin/jq");
        }
        _ => panic!("expected a shim write"),
    }
    let action = flow.step(&mut registry, FlowEvent::ShimWritten { ok: true });
    match action {
        FlowAction::Finish { result, .. } => {
            let report = result.unwrap();
            assert!(report.shim_created);
        }
        _ => panic!("expected the pipeline to finish"),
    }
    assert_eq!(registry.len(), 1);
    let entry = registry.get("jq").unwrap();
    assert_eq!(entry.target, "/usr/bin/jq");
    assert_eq!(entry.installed_by, "apt");
    assert!(flow.tx.shim_created);
}

#[test]
fn test_shim_write_failure_is_not_fatal() {
    let mut registry = ShimRegistry::new();
    let mut flow = InstallFlow::new("jq".to_string(), "apt".to_string(), None, true);
    flow.step(&mut registry, FlowEvent::InstallFinished { ok: true });
    flow.step(
        &mut registry,
        FlowEvent::BinaryLocated { path: Some("/usr/bin/jq".to_string()) },
    );
    let action = flow.step(&mut registry, FlowEvent::ShimWritten { ok: false });
    match action {
        FlowAction::Finish { result, rollback } => {
            let report = result.unwrap();
            assert!(!report.shim_created);
            assert!(!rollback.uninstall);
        }
        _ => panic!("expected the pipeline to finish"),
    }
    assert_eq!(registry.len(), 0);
}

#[test]
fn test_verified_install_without_shims() {
    let mut registry = ShimRegistry::new();
    let mut flow = InstallFlow::new(
        "jq".to_string(),
        "apt".to_string(),
        Some("ABCD".to_string()),
        false,
    );
    flow.step(&mut registry, FlowEvent::InstallFinished { ok: true });
    flow.step(
        &mut registry,
        FlowEvent::BinaryLocated { path: Some("/usr/bin/jq".to_string()) },
    );
    // the comparison is case-insensitive
    let action = flow.step(
        &mut registry,
        FlowEvent::HashComputed { hex: Some("abcd".to_string()) },
    );
    match action {
        FlowAction::Finish { result, .. } => {
            assert!(!result.unwrap().shim_created);
        }
        _ => panic!("expected the pipeline to finish"),
    }
    assert_eq!(registry.len(), 0);
}

#[test]
fn test_select_named_backend() {
    let available = vec!["apt".to_string(), "npm".to_string()];
    assert_eq!(select_named_backend("npm", &available).unwrap(), "npm");
    match select_named_backend("brew", &available) {
        Err(InstallError::BackendUnavailable { name }) => assert_eq!(name, "brew"),
        _ => panic!("expected an unavailable-backend error"),
    }
}
