use plaza_os::{ConsoleConfig, OsConfig, StringMap};

#[test]
fn default_resolv_conf_exact() {
    let cfg = OsConfig::default();
    assert_eq!(cfg.resolv_conf(), "nameserver 1.1.1.1\nnameserver 8.8.8.8");
}

#[test]
fn default_sysctl_conf_sorted_by_key() {
    let cfg = OsConfig::default();
    assert_eq!(
        cfg.sysctl_conf(),
        "kernel.panic = 10\nnet.ipv4.ip_forward = 0\nvm.swappiness = 10"
    );
}

#[test]
fn default_cmdline_exact() {
    let cfg = OsConfig::default();
    assert_eq!(cfg.cmdline(), "console=ttyS0,115200 panic=10 quiet");
}

#[test]
fn default_values() {
    let cfg = OsConfig::default();
    assert_eq!(cfg.hostname, "plaza-vm");
    assert_eq!(cfg.ntp_servers, vec!["pool.ntp.org".to_string()]);
    assert_eq!(cfg.swap_mb, 0);
    assert_eq!(cfg.environment.len(), 0);
    assert_eq!(cfg.sysctl.len(), 3);
    assert_eq!(cfg.sysctl.get("kernel.panic").map(|s| s.as_str()), Some("10"));
    assert!(cfg.console.serial);
    assert!(!cfg.console.vga);
    assert_eq!(cfg.console.framebuffer_width, 1024);
    assert_eq!(cfg.console.framebuffer_height, 768);
}

#[test]
fn cmdline_console_variants() {
    let mut cfg = OsConfig::default();
    cfg.console = ConsoleConfig { serial: false, vga: true, framebuffer_width: 800, framebuffer_height: 600 };
    assert_eq!(cfg.cmdline(), "console=tty0 panic=10 quiet");
    cfg.console.serial = true;
    assert_eq!(cfg.cmdline(), "console=ttyS0,115200 console=tty0 panic=10 quiet");
    cfg.console.serial = false;
    cfg.console.vga = false;
    assert_eq!(cfg.cmdline(), "panic=10 quiet");
}

#[test]
fn empty_lists_give_empty_text() {
    let mut cfg = OsConfig::default();
    cfg.dns_servers.clear();
    cfg.sysctl = StringMap::new();
    assert_eq!(cfg.resolv_conf(), "");
    assert_eq!(cfg.sysctl_conf(), "");
}

#[test]
fn sysctl_order_ignores_insertion_order() {
    let mut cfg = OsConfig::default();
    let mut m = StringMap::new();
    m.insert("zeta".to_string(), "1".to_string());
    m.insert("alpha.b".to_string(), "2".to_string());
    m.insert("alpha".to_string(), "3".to_string());
    m.insert("Beta".to_string(), "4".to_string());
    cfg.sysctl = m;
    assert_eq!(cfg.sysctl_conf(), "Beta = 4\nalpha = 3\nalpha.b = 2\nzeta = 1");
}

#[test]
fn string_map_insert_replaces_and_reads_back() {
    let mut m = StringMap::new();
    assert_eq!(m.insert("k".to_string(), "v1".to_string()), None);
    assert_eq!(m.insert("k".to_string(), "v2".to_string()), Some("v1".to_string()));
    assert_eq!(m.get("k").map(|s| s.as_str()), Some("v2"));
    assert_eq!(m.get("missing"), None);
    assert_eq!(m.len(), 1);
    let c = m.clone();
    assert_eq!(c.get("k").map(|s| s.as_str()), Some("v2"));
    let sorted = {
        let mut n = StringMap::new();
        n.insert("b".to_string(), "2".to_string());
        n.insert("a".to_string(), "1".to_string());
        n.sorted_pairs()
    };
    assert_eq!(sorted, vec![("a".to_string(), "1".to_string()), ("b".to_string(), "2".to_string())]);
}
