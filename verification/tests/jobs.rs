use rexymcp::jobs::{new_run_id, JobRegistry, RunState};

#[test]
fn new_run_ids_are_unique() {
    let id1 = new_run_id();
    let id2 = new_run_id();
    assert_ne!(id1, id2, "run ids should differ");
    assert_eq!(id1.split('-').count(), 5, "UUID should have four hyphens (5 segments)");
    assert_eq!(id2.split('-').count(), 5, "UUID should have four hyphens (5 segments)");
}

#[test]
fn new_run_id_is_hyphenated_v4() {
    let id = new_run_id();
    assert_eq!(id.len(), 36);
    assert_eq!(&id[14..15], "4");
    assert!(id.chars().all(|c| c == '-' || c.is_ascii_digit() || ('a'..='f').contains(&c)));
}

#[test]
fn snapshot_unknown_id_is_none() {
    let registry = JobRegistry::new();
    assert!(registry.snapshot("nonexistent").is_none());
}

#[test]
fn insert_then_snapshot_is_running() {
    let mut registry = JobRegistry::new();
    registry.insert("r1");
    assert!(matches!(registry.snapshot("r1"), Some(RunState::Running)));
}

#[test]
fn publish_sets_terminal_snapshot() {
    let mut registry = JobRegistry::new();
    registry.insert("r1");
    registry.publish("r1", RunState::Complete("{\"status\":\"ok\"}".to_string()));
    assert!(matches!(registry.snapshot("r1"), Some(RunState::Complete(_))));
    assert!(registry.snapshot("r1").unwrap().is_terminal());
}

#[test]
fn publish_to_unknown_id_changes_nothing() {
    let mut registry = JobRegistry::new();
    registry.insert("r1");
    registry.publish("r2", RunState::Failed("boom".to_string()));
    assert!(registry.snapshot("r2").is_none());
    assert!(matches!(registry.snapshot("r1"), Some(RunState::Running)));
}

#[test]
fn read_after_write_keeps_other_runs() {
    let mut registry = JobRegistry::new();
    registry.insert("a");
    registry.insert("b");
    registry.publish("a", RunState::Failed("boom".to_string()));
    match registry.snapshot("a") {
        Some(RunState::Failed(e)) => assert_eq!(e, "boom"),
        _ => panic!("expected Failed"),
    }
    assert!(matches!(registry.snapshot("b"), Some(RunState::Running)));
    assert!(!RunState::Running.is_terminal());
}

#[test]
fn reinsert_resets_to_running() {
    let mut registry = JobRegistry::new();
    registry.insert("r1");
    registry.publish("r1", RunState::Complete("{}".to_string()));
    registry.insert("r1");
    assert!(matches!(registry.snapshot("r1"), Some(RunState::Running)));
}

#[test]
fn new_run_id_is_lowercase_hex_uuid() {
    let id = new_run_id();
    for (i, c) in id.chars().enumerate() {
        if [8, 13, 18, 23].contains(&i) {
            assert_eq!(c, '-');
        } else {
            assert!(c.is_ascii_digit() || ('a'..='f').contains(&c), "{id}");
        }
    }
}
