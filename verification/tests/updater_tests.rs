use plaza_os::{OsUpdate, OsUpdater, PlazaError, UpdateState};

fn update(v: &str) -> OsUpdate {
    OsUpdate {
        version: v.to_string(),
        release_notes: "notes".to_string(),
        size_bytes: 1024,
        sha256: "00".to_string(),
        mandatory: false,
    }
}

#[test]
fn new_updater_is_idle() {
    let u = OsUpdater::new("1.0.0");
    assert_eq!(*u.state(), UpdateState::Idle);
    assert_eq!(u.current_version(), "1.0.0");
}

#[test]
fn full_lifecycle_installs_version() {
    let mut u = OsUpdater::new("1.0.0");
    u.stage_update(update("1.1.0")).unwrap();
    assert_eq!(*u.state(), UpdateState::Downloading { progress_percent: 0 });
    u.simulate_download_progress(42);
    assert_eq!(*u.state(), UpdateState::Downloading { progress_percent: 42 });
    u.simulate_download_progress(100);
    assert_eq!(*u.state(), UpdateState::PendingReboot);
    u.apply().unwrap();
    assert_eq!(*u.state(), UpdateState::Idle);
    assert_eq!(u.current_version(), "1.1.0");
}

#[test]
fn stage_refused_while_busy() {
    let mut u = OsUpdater::new("1.0.0");
    u.stage_update(update("1.1.0")).unwrap();
    match u.stage_update(update("2.0.0")) {
        Err(PlazaError::Internal(m)) => assert_eq!(m, "Update already in progress"),
        _ => panic!("staging should be refused"),
    }
    assert_eq!(*u.state(), UpdateState::Downloading { progress_percent: 0 });
    u.simulate_download_progress(255);
    u.apply().unwrap();
    assert_eq!(u.current_version(), "1.1.0");
}

#[test]
fn apply_refused_without_pending_reboot() {
    let mut u = OsUpdater::new("1.0.0");
    match u.apply() {
        Err(PlazaError::Internal(m)) => assert_eq!(m, "No update pending reboot"),
        _ => panic!("apply should be refused"),
    }
    u.stage_update(update("1.1.0")).unwrap();
    u.simulate_download_progress(99);
    assert!(u.apply().is_err());
    assert_eq!(u.current_version(), "1.0.0");
}

#[test]
fn rollback_undoes_staging() {
    let mut u = OsUpdater::new("1.0.0");
    u.stage_update(update("1.1.0")).unwrap();
    u.simulate_download_progress(100);
    u.rollback().unwrap();
    assert_eq!(*u.state(), UpdateState::Idle);
    // nothing pending any more: a completed download applies no version
    u.simulate_download_progress(100);
    u.apply().unwrap();
    assert_eq!(u.current_version(), "1.0.0");
}

#[test]
fn check_for_update_finds_nothing_and_idles() {
    let mut u = OsUpdater::new("1.0.0");
    assert!(matches!(u.check_for_update(), Ok(None)));
    assert_eq!(*u.state(), UpdateState::Idle);
    u.stage_update(update("1.1.0")).unwrap();
    assert!(matches!(u.check_for_update(), Ok(None)));
    assert_eq!(*u.state(), UpdateState::Idle);
}
