use plaza_os::{OsBuilder, OsConfig, OsVariant, SecureBootChain, SnapshotManager};

#[test]
fn test_os_builder_alpine() {
    let mut builder = OsBuilder::plaza_alpine();
    assert_eq!(builder.config().variant, OsVariant::Alpine);
    assert!(builder.step_count() > 5);
    builder.execute_all().unwrap();
    assert_eq!(builder.completed_steps(), builder.step_count());
}

#[test]
fn test_os_config_generation() {
    let cfg = OsConfig::default();
    assert!(cfg.resolv_conf().contains("1.1.1.1"));
    assert!(cfg.sysctl_conf().contains("vm.swappiness"));
    assert!(cfg.cmdline().contains("console=ttyS0"));
}

#[test]
fn test_snapshot_lineage() {
    let mut mgr = SnapshotManager::new();
    let s1 = mgr.create_snapshot("ws-1", "base", None).unwrap();
    let s2 = mgr.create_snapshot("ws-1", "dev", Some(s1.id.clone())).unwrap();
    let s3 = mgr.create_snapshot("ws-1", "feature", Some(s2.id.clone())).unwrap();

    let chain = mgr.lineage(&s3.id);
    assert_eq!(chain.len(), 3);

    // Can't delete s2 because s3 depends on it
    assert!(mgr.delete_snapshot(&s2.id).is_err());
    mgr.delete_snapshot(&s3.id).unwrap();
    mgr.delete_snapshot(&s2.id).unwrap();
}

#[test]
fn test_secure_boot_chain() {
    let mut chain = SecureBootChain::disabled();
    assert!(!chain.verify_chain().verified);

    chain.enabled = true;
    chain.set_hash("uefi", "abc123".into());
    chain.set_hash("shim", "def456".into());
    chain.set_hash("bootloader", "ghi789".into());
    chain.set_hash("kernel", "jkl012".into());
    // Missing initramfs
    assert!(!chain.verify_chain().verified);
    chain.set_hash("initramfs", "mno345".into());
    assert!(chain.verify_chain().verified);
}
