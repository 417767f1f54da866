use plaza_os::SecureBootChain;

#[test]
fn disabled_chain_reason() {
    let chain = SecureBootChain::disabled();
    let r = chain.verify_chain();
    assert!(!r.verified);
    assert_eq!(r.reason, "Secure boot disabled");
}

#[test]
fn first_missing_component_is_named() {
    let mut chain = SecureBootChain::disabled();
    chain.enabled = true;
    assert_eq!(chain.verify_chain().reason, "UEFI firmware hash missing");
    chain.set_hash("uefi", "a".into());
    assert_eq!(chain.verify_chain().reason, "Shim hash missing");
    chain.set_hash("shim", "b".into());
    assert_eq!(chain.verify_chain().reason, "Bootloader hash missing");
    chain.set_hash("bootloader", "c".into());
    assert_eq!(chain.verify_chain().reason, "Kernel hash missing");
    chain.set_hash("kernel", "d".into());
    assert_eq!(chain.verify_chain().reason, "Initramfs hash missing");
    chain.set_hash("initramfs", "e".into());
    let r = chain.verify_chain();
    assert!(r.verified);
    assert_eq!(r.reason, "Full chain verified");
}

#[test]
fn set_hash_targets_the_named_field_only() {
    let mut chain = SecureBootChain::disabled();
    chain.set_hash("kernel", "k1".into());
    assert_eq!(chain.kernel_hash.as_deref(), Some("k1"));
    assert!(chain.uefi_firmware.is_none());
    assert!(chain.shim_hash.is_none());
    assert!(chain.bootloader_hash.is_none());
    assert!(chain.initramfs_hash.is_none());
    chain.set_hash("unknown", "x".into());
    chain.set_hash("Kernel", "x".into());
    assert_eq!(chain.kernel_hash.as_deref(), Some("k1"));
    assert!(chain.uefi_firmware.is_none());
    chain.set_hash("kernel", "k2".into());
    assert_eq!(chain.kernel_hash.as_deref(), Some("k2"));
    assert!(!chain.enabled);
}

#[test]
fn disabled_even_with_all_hashes() {
    let mut chain = SecureBootChain::disabled();
    for c in ["uefi", "shim", "bootloader", "kernel", "initramfs"] {
        chain.set_hash(c, "h".into());
    }
    assert!(!chain.verify_chain().verified);
    chain.enabled = true;
    assert!(chain.verify_chain().verified);
}
