use plaza_os::{OsBuilder, OsVariant, RootfsBuildConfig, RootfsPackage, StringMap};

fn sample_config() -> RootfsBuildConfig {
    RootfsBuildConfig {
        variant: OsVariant::Custom("nixos".to_string()),
        packages: vec![RootfsPackage { name: "bash".to_string(), version: Some("5.2".to_string()) }],
        hostname: "box".to_string(),
        timezone: "Europe/Paris".to_string(),
        locale: "fr_FR.UTF-8".to_string(),
        users: vec![],
        services: vec![],
        extra_files: StringMap::new(),
    }
}

#[test]
fn new_builder_has_eight_pending_steps() {
    let b = OsBuilder::new(sample_config());
    assert_eq!(b.step_count(), 8);
    assert_eq!(b.completed_steps(), 0);
    assert_eq!(b.config().variant, OsVariant::Custom("nixos".to_string()));
    assert_eq!(b.config().hostname, "box");
    assert_eq!(b.config().packages[0].version.as_deref(), Some("5.2"));
}

#[test]
fn execute_all_completes_every_step_and_keeps_config() {
    let mut b = OsBuilder::new(sample_config());
    assert!(b.execute_all().is_ok());
    assert_eq!(b.completed_steps(), 8);
    assert_eq!(b.step_count(), 8);
    assert_eq!(b.config().timezone, "Europe/Paris");
    // running again changes nothing
    assert!(b.execute_all().is_ok());
    assert_eq!(b.completed_steps(), 8);
}

#[test]
fn plaza_alpine_config_values() {
    let b = OsBuilder::plaza_alpine();
    let c = b.config();
    let names: Vec<&str> = c.packages.iter().map(|p| p.name.as_str()).collect();
    assert_eq!(names, vec!["busybox", "musl", "openrc", "openssh-server"]);
    assert!(c.packages.iter().all(|p| p.version.is_none()));
    assert_eq!(c.hostname, "plaza-vm");
    assert_eq!(c.timezone, "UTC");
    assert_eq!(c.locale, "en_US.UTF-8");
    assert_eq!(c.users.len(), 1);
    assert_eq!(c.users[0].username, "plaza");
    assert_eq!(c.users[0].uid, 1000);
    assert_eq!(c.users[0].shell, "/bin/sh");
    assert_eq!(c.users[0].groups, vec!["wheel".to_string()]);
    assert!(c.users[0].ssh_authorized_keys.is_empty());
    assert_eq!(c.services, vec!["networking".to_string(), "sshd".to_string()]);
    assert_eq!(c.extra_files.len(), 0);
    assert_eq!(b.completed_steps(), 0);
}
