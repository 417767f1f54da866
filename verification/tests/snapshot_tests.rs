use plaza_os::{PlazaError, SnapshotManager};

#[test]
fn create_then_get_returns_same_snapshot() {
    let mut m = SnapshotManager::new();
    let s = m.create_snapshot("ws", "base", None).unwrap();
    assert_eq!(s.id.len(), 36);
    assert_eq!(s.id.as_bytes()[8], b'-');
    assert_eq!(s.id.as_bytes()[13], b'-');
    assert_eq!(s.id.as_bytes()[18], b'-');
    assert_eq!(s.id.as_bytes()[23], b'-');
    assert_eq!(s.workspace_id, "ws");
    assert_eq!(s.name, "base");
    assert!(s.description.is_none());
    assert_eq!(s.size_bytes, 0);
    assert!(s.parent_id.is_none());
    assert_eq!(s.tags.len(), 0);
    let g = m.get_snapshot(&s.id).unwrap();
    assert_eq!(g.id, s.id);
    assert_eq!(g.name, "base");
    assert_eq!(g.created_at, s.created_at);
}

#[test]
fn get_missing_is_not_found() {
    let m = SnapshotManager::new();
    match m.get_snapshot("nope") {
        Err(PlazaError::NotFound(msg)) => assert_eq!(msg, "Snapshot nope"),
        _ => panic!("expected NotFound"),
    }
}

#[test]
fn create_with_id_replaces_same_id() {
    let mut m = SnapshotManager::new();
    m.create_snapshot_with("a".into(), "t0".into(), "ws", "first", None);
    m.create_snapshot_with("a".into(), "t1".into(), "ws2", "second", Some("p".into()));
    let g = m.get_snapshot("a").unwrap();
    assert_eq!(g.name, "second");
    assert_eq!(g.workspace_id, "ws2");
    assert_eq!(g.created_at, "t1");
    assert_eq!(g.parent_id.as_deref(), Some("p"));
    assert_eq!(m.list_by_workspace("ws").len(), 0);
    assert_eq!(m.list_by_workspace("ws2").len(), 1);
}

#[test]
fn delete_errors() {
    let mut m = SnapshotManager::new();
    m.create_snapshot_with("a".into(), "t".into(), "ws", "a", None);
    m.create_snapshot_with("b".into(), "t".into(), "ws", "b", Some("a".into()));
    match m.delete_snapshot("a") {
        Err(PlazaError::Internal(msg)) => assert_eq!(msg, "Cannot delete snapshot with children"),
        _ => panic!("expected refusal"),
    }
    assert!(m.get_snapshot("a").is_ok());
    match m.delete_snapshot("zzz") {
        Err(PlazaError::NotFound(msg)) => assert_eq!(msg, "Snapshot zzz"),
        _ => panic!("expected NotFound"),
    }
    m.delete_snapshot("b").unwrap();
    assert!(m.get_snapshot("b").is_err());
    m.delete_snapshot("a").unwrap();
    assert!(m.get_snapshot("a").is_err());
    // a dangling parent reference also blocks deletion of a missing id
    m.create_snapshot_with("c".into(), "t".into(), "ws", "c", Some("gone".into()));
    assert!(matches!(m.delete_snapshot("gone"), Err(PlazaError::Internal(_))));
}

#[test]
fn list_by_workspace_filters_in_order() {
    let mut m = SnapshotManager::new();
    m.create_snapshot_with("a".into(), "t".into(), "ws1", "a", None);
    m.create_snapshot_with("b".into(), "t".into(), "ws2", "b", None);
    m.create_snapshot_with("c".into(), "t".into(), "ws1", "c", None);
    let l: Vec<String> = m.list_by_workspace("ws1").into_iter().map(|s| s.id).collect();
    assert_eq!(l, vec!["a".to_string(), "c".to_string()]);
    assert!(m.list_by_workspace("none").is_empty());
}

#[test]
fn lineage_follows_parents() {
    let mut m = SnapshotManager::new();
    m.create_snapshot_with("root".into(), "t".into(), "ws", "r", None);
    m.create_snapshot_with("mid".into(), "t".into(), "ws", "m", Some("root".into()));
    m.create_snapshot_with("leaf".into(), "t".into(), "ws", "l", Some("mid".into()));
    m.create_snapshot_with("orphan".into(), "t".into(), "ws", "o", Some("missing".into()));
    assert!(m.has_finite_lineage("leaf"));
    let ids: Vec<String> = m.lineage("leaf").into_iter().map(|s| s.id).collect();
    assert_eq!(ids, vec!["leaf".to_string(), "mid".to_string(), "root".to_string()]);
    let ids: Vec<String> = m.lineage("orphan").into_iter().map(|s| s.id).collect();
    assert_eq!(ids, vec!["orphan".to_string()]);
    assert!(m.lineage("missing").is_empty());
}

#[test]
fn cyclic_lineage_is_detected() {
    let mut m = SnapshotManager::new();
    m.create_snapshot_with("x".into(), "t".into(), "ws", "x", Some("y".into()));
    m.create_snapshot_with("y".into(), "t".into(), "ws", "y", Some("x".into()));
    m.create_snapshot_with("z".into(), "t".into(), "ws", "z", Some("x".into()));
    m.create_snapshot_with("w".into(), "t".into(), "ws", "w", None);
    assert!(!m.has_finite_lineage("x"));
    assert!(!m.has_finite_lineage("y"));
    assert!(!m.has_finite_lineage("z"));
    assert!(m.has_finite_lineage("w"));
    assert!(m.has_finite_lineage("absent"));
    let ids: Vec<String> = m.lineage("w").into_iter().map(|s| s.id).collect();
    assert_eq!(ids, vec!["w".to_string()]);
}

#[test]
fn self_parent_is_a_cycle() {
    let mut m = SnapshotManager::new();
    m.create_snapshot_with("s".into(), "t".into(), "ws", "s", Some("s".into()));
    assert!(!m.has_finite_lineage("s"));
}

#[test]
fn created_at_is_an_rfc3339_utc_stamp() {
    let mut m = SnapshotManager::new();
    let s = m.create_snapshot("ws", "n", None).unwrap();
    assert!(s.created_at.len() >= 25);
    assert!(s.created_at.ends_with("+00:00"));
    assert_eq!(s.created_at.as_bytes()[10], b'T');
}

#[test]
fn lineage_entries_are_distinct_and_bounded() {
    let mut m = SnapshotManager::new();
    m.create_snapshot_with("a".into(), "t".into(), "ws", "a", None);
    m.create_snapshot_with("b".into(), "t".into(), "ws", "b", Some("a".into()));
    m.create_snapshot_with("c".into(), "t".into(), "ws", "c", Some("b".into()));
    let l = m.lineage("c");
    assert!(l.len() <= 3);
    for i in 0..l.len() {
        for j in (i + 1)..l.len() {
            assert_ne!(l[i].id, l[j].id);
        }
    }
    assert!(l.last().unwrap().parent_id.is_none());
}
