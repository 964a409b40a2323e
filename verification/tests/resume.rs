use rexymcp::dashboard::panels::TaskState;
use rexymcp::resume::{render_preamble, restore_task_states, resume_diff, MAX_RESUME_DIFF_CHARS};

fn state_of(states: &[(String, TaskState)], id: &str) -> Option<TaskState> {
    states.iter().find(|(k, _)| k == id).map(|(_, s)| *s)
}

#[test]
fn restore_task_states_folds_last_write_wins() {
    // The task updates of a prior log, in log order.
    let updates = vec![
        ("1".to_string(), TaskState::Pending),
        ("1".to_string(), TaskState::Done),
        ("2".to_string(), TaskState::Active),
    ];
    let states = restore_task_states(&updates);
    assert_eq!(states.len(), 2);
    assert_eq!(state_of(&states, "1"), Some(TaskState::Done), "later record should win");
    assert_eq!(state_of(&states, "2"), Some(TaskState::Active));
}

#[test]
fn restore_task_states_empty_for_missing_log() {
    // A missing or unreadable log yields no updates.
    let states = restore_task_states(&vec![]);
    assert!(states.is_empty());
}

#[test]
fn resume_preamble_seeds_no_tasks() {
    let states = vec![("1".to_string(), TaskState::Done), ("2".to_string(), TaskState::Active)];
    let preamble = render_preamble(
        "1. do a thing\n2. **bold task** — should not seed\n- plain bullet",
        "some diff content",
        &states,
    );
    // The preamble itself adds no numbered bold items and no `###` headings.
    for line in preamble.lines() {
        assert!(!line.starts_with("###"), "heading that seeds a task: {}", line);
    }
    assert_eq!(preamble.matches(". **").count(), 1, "only the guidance's own bold item");
    assert!(preamble.contains("- 1 (done)\n- 2 (active)"));
}

#[test]
fn render_preamble_includes_all_sections() {
    let states = vec![("1".to_string(), TaskState::Done)];
    let preamble = render_preamble("fix the bug", "diff here", &states);
    assert!(preamble.contains("# Resume context"));
    assert!(preamble.contains("## Architect guidance"));
    assert!(preamble.contains("fix the bug"));
    assert!(preamble.contains("## Work already on disk"));
    assert!(preamble.contains("diff here"));
    assert!(preamble.contains("## Prior task progress"));
    assert!(preamble.contains("- 1 (done)"));
}

#[test]
fn render_preamble_empty_diff_shows_placeholder() {
    let preamble = render_preamble("guidance", "", &vec![]);
    assert!(preamble.contains("(no uncommitted changes)"));
}

#[test]
fn render_preamble_empty_states_shows_placeholder() {
    let preamble = render_preamble("guidance", "diff", &vec![]);
    assert!(preamble.contains("(no prior task state recorded)"));
}

#[test]
fn render_preamble_sorts_task_entries() {
    let states = vec![
        ("b".to_string(), TaskState::Pending),
        ("a".to_string(), TaskState::Done),
        ("c".to_string(), TaskState::Active),
    ];
    let preamble = render_preamble("g", "d", &states);
    assert!(preamble.ends_with("## Prior task progress\n\n- a (done)\n- b (pending)\n- c (active)"));
    assert!(preamble.starts_with("\n\n# Resume context\n\nYou are RESUMING this phase."));
    assert!(preamble.contains("## Work already on disk (uncommitted diff vs HEAD)\n\n```\nd\n```"));
}

#[test]
fn resume_diff_caps_and_drops_failures() {
    assert_eq!(resume_diff(false, "something".to_string()), "");
    assert_eq!(resume_diff(true, "abc".to_string()), "abc");
    let long = "\u{e9}".repeat(MAX_RESUME_DIFF_CHARS + 5);
    let capped = resume_diff(true, long);
    assert_eq!(capped.chars().count(), MAX_RESUME_DIFF_CHARS);
}
