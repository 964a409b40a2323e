use rexymcp::session::{SessionEvent, SessionRecord};
use rexymcp::dashboard::panels::{compaction_lines, lever_lines, reclaim_counts};
use rexymcp::dashboard::summary::summarize;
use rexymcp::dashboard::panels::{
    files_lines, humanize_age, last_update_line, milestone_line, scrolled_title, session_duration_ms,
    session_lines, spinner_line, tasks_lines, trim_path_left, truncate_title, FileNumstat, StatusSummary,
    TaskRow, TaskState, FILE_LINE_MAX,
};

const FIXTURE: &str = "abcdefghijklmnopqrstuvwxyzABCD";

#[test]
fn session_duration_ms_running_uses_now() {
    let summary = StatusSummary { started_at: Some(1000), ended: None, ..StatusSummary::default() };
    assert_eq!(session_duration_ms(&summary, 4000), Some(3000));
}

#[test]
fn session_duration_ms_ended_uses_last_ts() {
    let summary = StatusSummary {
        started_at: Some(1000),
        last_ts: Some(5000),
        ended: Some("complete".into()),
        ..StatusSummary::default()
    };
    assert_eq!(session_duration_ms(&summary, 9000), Some(4000));
}

#[test]
fn session_duration_ms_none_for_empty_log() {
    assert_eq!(session_duration_ms(&StatusSummary::default(), 5000), None);
}

#[test]
fn session_duration_saturates_when_clock_lags() {
    let summary = StatusSummary { started_at: Some(9000), ..StatusSummary::default() };
    assert_eq!(session_duration_ms(&summary, 4000), Some(0));
}

#[test]
fn humanize_age_buckets() {
    assert_eq!(humanize_age(0), "0s");
    assert_eq!(humanize_age(3_000), "3s");
    assert_eq!(humanize_age(59_999), "59s");
    assert_eq!(humanize_age(192_000), "3m12s");
    assert_eq!(humanize_age(185_000), "3m05s");
    assert_eq!(humanize_age(3_840_000), "1h04m");
}

#[test]
fn dashboard_session_lines_shows_phase_session_separate_lines() {
    let summary = StatusSummary {
        phase: Some("phase-02".into()),
        session_id: Some("abc".into()),
        ended: None,
        ..StatusSummary::default()
    };
    let text = session_lines(&summary, 0);
    assert!(text.iter().any(|s| s == "Phase: phase-02"));
    assert!(text.iter().any(|s| s == "Session: abc"));
    assert!(text.iter().any(|s| s.contains("running")));
}

#[test]
fn panels_session_lines_shows_phase_session_separate_lines() {
    let summary = StatusSummary {
        phase: Some("phase-02".into()),
        session_id: Some("abc".into()),
        ended: None,
        ..StatusSummary::default()
    };
    let text = session_lines(&summary, 0);
    assert!(text.iter().any(|s| s == "Phase: phase-02"));
    assert!(text.iter().any(|s| s == "Session: abc"));
    assert!(text.iter().any(|s| s.contains("running")));
}

#[test]
fn dashboard_session_lines_shows_ended_state() {
    let summary = StatusSummary { phase: Some("phase-02".into()), ended: Some("complete".into()), ..StatusSummary::default() };
    let text = session_lines(&summary, 0);
    assert!(text.iter().any(|s| s.contains("ended (complete)")));
}

#[test]
fn panels_session_lines_shows_ended_state() {
    let summary = StatusSummary { phase: Some("phase-02".into()), ended: Some("complete".into()), ..StatusSummary::default() };
    let text = session_lines(&summary, 0);
    assert!(text.iter().any(|s| s.contains("ended (complete)")));
}

#[test]
fn session_lines_shows_duration_while_running() {
    let summary = StatusSummary { started_at: Some(1000), ended: None, ..StatusSummary::default() };
    let text = session_lines(&summary, 4000);
    assert!(text.iter().any(|s| s == "Duration: 3s"));
}

#[test]
fn session_lines_places_last_update_under_duration() {
    let summary = StatusSummary {
        session_id: Some("abc".into()),
        started_at: Some(0),
        last_ts: Some(1000),
        latest_turn: 2,
        latest_stage: Some("plan".into()),
        ..StatusSummary::default()
    };
    let text = session_lines(&summary, 4000);
    assert_eq!(
        text,
        vec![
            "Phase: <unknown>",
            "Session: abc",
            "State: running",
            "Duration: 4s",
            "Last update: 3s ago",
            "Turn 2, stage plan",
        ]
    );
}

#[test]
fn last_update_line_shows_age_and_average() {
    let summary = StatusSummary { last_ts: Some(1000), ..StatusSummary::default() };
    assert_eq!(last_update_line(&summary, 4000).unwrap(), "Last update: 3s ago");
    let summary = StatusSummary { last_ts: Some(5000), update_interval_avg_ms: Some(2000), ..StatusSummary::default() };
    assert_eq!(last_update_line(&summary, 5000).unwrap(), "Last update: 0s ago (avg: 2s)");
    assert_eq!(last_update_line(&StatusSummary::default(), 4000), None);
}

#[test]
fn milestone_line_prefixes_and_truncates() {
    let text = milestone_line("M15 \u{2014} Dashboard Polish 2", 80);
    assert_eq!(text, "Milestone: M15 \u{2014} Dashboard Polish 2");
    let text = milestone_line("M15 \u{2014} Dashboard Polish 2", 20);
    assert!(text.contains('\u{2026}'));
    assert!(text.chars().count() <= 20);
}

#[test]
fn scrolled_title_returns_whole_when_fits() {
    assert_eq!(scrolled_title("short", 20, Some(5)), "short");
}

#[test]
fn scrolled_title_pans_overflowing_title() {
    let max = 10;
    assert_eq!(scrolled_title(FIXTURE, max, Some(0)), "abcdefghij");
    assert_eq!(scrolled_title(FIXTURE, max, Some(4)), "defghijklm");
}

#[test]
fn scrolled_title_ping_pongs() {
    let max = 10;
    let overflow = FIXTURE.len() - max;
    let mut starts = Vec::new();
    for t in 0..=200usize {
        let window = scrolled_title(FIXTURE, max, Some(t));
        starts.push(FIXTURE.find(&window).unwrap_or(0));
    }
    assert_eq!(*starts.iter().max().unwrap(), overflow);
    assert!(starts.windows(2).any(|w| w[1] < w[0]));
}

#[test]
fn scrolled_title_frozen_when_tick_none() {
    let max = 10;
    let frozen = scrolled_title(FIXTURE, max, None);
    assert_eq!(frozen, truncate_title(FIXTURE, max));
    assert_eq!(frozen, "abcdefghi\u{2026}");
    assert_eq!(scrolled_title(FIXTURE, max, Some(0)), "abcdefghij");
}

#[test]
fn scrolled_title_char_indexed_multibyte() {
    let title = "日本語テスト日本語テスト日本語テスト";
    let max = 5;
    let result = scrolled_title(title, max, Some(4));
    assert_eq!(result.chars().count(), max, "should return exactly max chars for multibyte title");
}

#[test]
fn trim_path_left_tiers() {
    assert_eq!(trim_path_left("src/a.rs", 20), "src/a.rs");
    assert_eq!(trim_path_left("a/very/deep/path/chars.rs", 12), "\u{2026}/chars.rs");
    assert_eq!(trim_path_left("src/abcdefghij.rs", 6), "\u{2026}ij.rs");
}

#[test]
fn dashboard_files_lines_lists_each_numstat() {
    let summary = StatusSummary {
        files_changed: vec![
            FileNumstat { path: "src/a.rs".into(), added: 10, removed: 2 },
            FileNumstat { path: "src/b.rs".into(), added: 0, removed: 3 },
        ],
        ..StatusSummary::default()
    };
    let text = files_lines(&summary);
    assert_eq!(text, vec!["  src/a.rs +10 -2", "  src/b.rs +0 -3"]);
}

#[test]
fn panels_files_lines_lists_each_numstat() {
    let summary = StatusSummary {
        files_changed: vec![
            FileNumstat { path: "src/a.rs".into(), added: 10, removed: 2 },
            FileNumstat { path: "src/b.rs".into(), added: 0, removed: 3 },
        ],
        ..StatusSummary::default()
    };
    let text = files_lines(&summary);
    assert_eq!(text, vec!["  src/a.rs +10 -2", "  src/b.rs +0 -3"]);
}

#[test]
fn dashboard_files_lines_empty_placeholder() {
    let text = files_lines(&StatusSummary::default());
    assert!(text.iter().any(|s| s.contains("no files changed")));
}

#[test]
fn panels_files_lines_empty_placeholder() {
    let text = files_lines(&StatusSummary::default());
    assert!(text.iter().any(|s| s.contains("no files changed")));
}

#[test]
fn dashboard_files_lines_trims_long_path_left() {
    let long_path = "a/very/deeply/nested/path/that/is/definitely/longer/forty/chars.rs";
    let summary = StatusSummary {
        files_changed: vec![FileNumstat { path: long_path.into(), added: 5, removed: 1 }],
        ..StatusSummary::default()
    };
    let text = files_lines(&summary);
    let line = &text[0];
    assert!(line.ends_with(" +5 -1"));
    assert!(line.contains("chars.rs"));
    assert!(!line.contains("nested"));
    let path_part = line.strip_prefix("  ").unwrap().strip_suffix(" +5 -1").unwrap();
    assert!(path_part.chars().count() <= FILE_LINE_MAX);
}

#[test]
fn panels_files_lines_trims_long_path_left() {
    let long_path = "a/very/deeply/nested/path/that/is/definitely/longer/forty/chars.rs";
    let summary = StatusSummary {
        files_changed: vec![FileNumstat { path: long_path.into(), added: 5, removed: 1 }],
        ..StatusSummary::default()
    };
    let text = files_lines(&summary);
    let line = &text[0];
    assert!(line.ends_with(" +5 -1"));
    assert!(line.contains("chars.rs"));
    assert!(!line.contains("nested"));
    let path_part = line.strip_prefix("  ").unwrap().strip_suffix(" +5 -1").unwrap();
    assert!(path_part.chars().count() <= FILE_LINE_MAX);
}

#[test]
fn dashboard_files_lines_trims_long_filename_from_left() {
    let long_filename = "a_very_long_filename_that_definitely_exceeds_the_budget_limit.rs";
    let summary = StatusSummary {
        files_changed: vec![FileNumstat { path: format!("src/{long_filename}"), added: 2, removed: 0 }],
        ..StatusSummary::default()
    };
    let text = files_lines(&summary);
    let line = &text[0];
    assert!(line.ends_with(" +2 -0"));
    assert!(line.starts_with("  \u{2026}"));
    let path_part = line.strip_prefix("  ").unwrap().strip_suffix(" +2 -0").unwrap();
    assert!(path_part.chars().count() <= FILE_LINE_MAX);
}

#[test]
fn panels_files_lines_trims_long_filename_from_left() {
    let long_filename = "a_very_long_filename_that_definitely_exceeds_the_budget_limit.rs";
    let summary = StatusSummary {
        files_changed: vec![FileNumstat { path: format!("src/{long_filename}"), added: 2, removed: 0 }],
        ..StatusSummary::default()
    };
    let text = files_lines(&summary);
    let line = &text[0];
    assert!(line.ends_with(" +2 -0"));
    assert!(line.starts_with("  \u{2026}"));
    let path_part = line.strip_prefix("  ").unwrap().strip_suffix(" +2 -0").unwrap();
    assert!(path_part.chars().count() <= FILE_LINE_MAX);
}

fn task(id: &str, title: &str, state: TaskState) -> TaskRow {
    TaskRow { id: id.into(), title: title.into(), state }
}

#[test]
fn task_lines_placeholder_and_glyphs() {
    let text = tasks_lines(&StatusSummary::default(), 40, None);
    assert_eq!(text, vec!["(no tasks tracked yet)"]);
    let summary = StatusSummary {
        tasks_total: 3,
        tasks_done: 1,
        tasks_active: 1,
        tasks: vec![
            task("1", "Read config", TaskState::Done),
            task("2", "Write tests", TaskState::Active),
            task("3", "Refactor", TaskState::Pending),
        ],
        ..StatusSummary::default()
    };
    let text = tasks_lines(&summary, 40, None);
    assert_eq!(text, vec!["\u{2611} Read config", "\u{25b6} Write tests", "\u{2610} Refactor"]);
}

#[test]
fn task_lines_non_active_tasks_do_not_pan() {
    let long = FIXTURE;
    let summary = StatusSummary {
        tasks_total: 3,
        tasks: vec![task("a", long, TaskState::Done), task("b", long, TaskState::Active), task("c", long, TaskState::Pending)],
        ..StatusSummary::default()
    };
    let t0 = tasks_lines(&summary, 22, Some(0));
    let t4 = tasks_lines(&summary, 22, Some(4));
    assert_eq!(t0[0], t4[0]);
    assert_eq!(t0[2], t4[2]);
    assert_ne!(t0[1], t4[1]);
}

#[test]
fn spinner_line_none_when_ended() {
    assert!(spinner_line(None, 40).is_none());
}

#[test]
fn spinner_line_degenerate_narrow_width() {
    for &width in &[0_usize, 1, 2, 3, 4, 7] {
        assert_eq!(spinner_line(Some(0), width).unwrap(), "\u{1f415}\u{1f9e0}");
    }
}

#[test]
fn spinner_line_brain_starts_middle_dog_starts_left() {
    let s = spinner_line(Some(0), 40).unwrap();
    assert!(s.starts_with('\u{1f415}'));
    let lead: usize = s.chars().skip(1).take_while(|&c| c == ' ').count();
    assert_eq!(lead, 18);
}

#[test]
fn spinner_line_return_cluster_moves_left() {
    let width: usize = 40;
    let steps_a = (width - 2) - width / 2;
    let p0 = width - 6;
    let period = steps_a + p0 / 2 + 2;
    let mut prev: Option<usize> = None;
    for phase in (steps_a + 1)..period {
        let s = spinner_line(Some(phase), width).unwrap();
        assert!(s.contains("\u{1f9e0}\u{1f415}\u{1f4a8}"));
        let lead = s.chars().take_while(|&c| c == ' ').count();
        if let Some(p) = prev {
            assert!(lead < p);
        }
        prev = Some(lead);
    }
}

fn summary_with_tasks(tasks: Vec<TaskRow>, done: usize) -> StatusSummary {
    StatusSummary { tasks_total: tasks.len(), tasks_done: done, tasks, ..StatusSummary::default() }
}

#[test]
fn session_lines_shows_turn_stage() {
    let summary = StatusSummary { latest_turn: 5, latest_stage: Some("verify".into()), ..StatusSummary::default() };
    let text = session_lines(&summary, 4000);
    assert!(text.iter().any(|s| s.contains("Turn 5")));
    assert!(text.iter().any(|s| s.contains("verify")));
    assert_eq!(text.last().unwrap(), "Turn 5, stage verify");
}

#[test]
fn session_lines_shows_turn_stage_and_age() {
    let summary = StatusSummary {
        latest_turn: 5,
        latest_stage: Some("verify".into()),
        last_ts: Some(1000),
        ..StatusSummary::default()
    };
    let text = session_lines(&summary, 4000);
    assert!(text.iter().any(|s| s.contains("Turn 5")));
    assert!(text.iter().any(|s| s.contains("verify")));
    assert!(text.iter().any(|s| s.contains("3s ago")));
}

#[test]
fn session_lines_omits_duration_when_no_started_at() {
    let text = session_lines(&StatusSummary::default(), 9999);
    assert!(!text.iter().any(|s| s.contains("duration:")));
    assert!(!text.iter().any(|s| s.contains("Duration:")));
}

#[test]
fn session_lines_omits_age_when_no_ts() {
    let text = session_lines(&StatusSummary::default(), 9999);
    assert!(!text.iter().any(|s| s.contains("ago")));
    assert_eq!(text, vec!["Phase: <unknown>", "Session: <unknown>", "State: running", "Turn 0, stage <none>"]);
}

#[test]
fn session_lines_includes_last_update_when_ts_present() {
    let summary = StatusSummary { last_ts: Some(1000), update_interval_avg_ms: Some(500), ..StatusSummary::default() };
    let text = session_lines(&summary, 4000);
    assert!(
        text.iter().any(|s| s.contains("Last update:")),
        "session_lines must contain 'Last update:' when last_ts is set, got: {text:?}",
    );
}

#[test]
fn session_lines_shows_update_interval_stats() {
    let summary = StatusSummary { last_ts: Some(5000), update_interval_avg_ms: Some(2000), ..StatusSummary::default() };
    let text = session_lines(&summary, 5000);
    assert!(text.iter().any(|s| s.contains("avg:")), "expected avg in: {text:?}");
}

#[test]
fn session_lines_omits_interval_stats_without_enough_data() {
    let summary = StatusSummary { last_ts: Some(5000), update_interval_avg_ms: None, ..StatusSummary::default() };
    let text = session_lines(&summary, 5000);
    assert!(!text.iter().any(|s| s.contains("avg:")), "unexpected avg in: {text:?}");
}

#[test]
fn session_lines_shows_model_when_known() {
    let summary = StatusSummary { model: Some("qwen".into()), ..StatusSummary::default() };
    let text = session_lines(&summary, 0);
    assert_eq!(text[2], "Model: qwen");
}

#[test]
fn last_update_line_shows_age() {
    let summary = StatusSummary { last_ts: Some(1000), ..StatusSummary::default() };
    let line = last_update_line(&summary, 4000);
    assert!(line.is_some());
    assert!(line.unwrap().contains("Last update: 3s ago"));
}

#[test]
fn last_update_line_none_for_empty_log() {
    assert_eq!(last_update_line(&StatusSummary::default(), 4000), None);
}

#[test]
fn last_update_line_shows_interval_stats() {
    let summary = StatusSummary { last_ts: Some(5000), update_interval_avg_ms: Some(2000), ..StatusSummary::default() };
    let text = last_update_line(&summary, 5000).unwrap();
    assert!(text.contains("avg:"), "expected avg in: {text}");
    assert_eq!(text, "Last update: 0s ago (avg: 2s)");
}

#[test]
fn last_update_line_omits_interval_stats_without_enough_data() {
    let summary = StatusSummary { last_ts: Some(5000), update_interval_avg_ms: None, ..StatusSummary::default() };
    let text = last_update_line(&summary, 5000).unwrap();
    assert!(!text.contains("avg:"), "unexpected avg in: {text}");
}

fn short_path_summary() -> StatusSummary {
    StatusSummary {
        files_changed: vec![FileNumstat { path: "src/a.rs".into(), added: 3, removed: 0 }],
        ..StatusSummary::default()
    }
}

#[test]
fn dashboard_files_lines_keeps_short_path_untrimmed() {
    let text = files_lines(&short_path_summary());
    assert_eq!(text.len(), 1);
    assert!(!text[0].contains('\u{2026}'), "short path should not contain ellipsis: {}", text[0]);
    assert!(text[0].contains("src/a.rs"));
}

#[test]
fn panels_files_lines_keeps_short_path_untrimmed() {
    let text = files_lines(&short_path_summary());
    assert_eq!(text.len(), 1);
    assert!(!text[0].contains('\u{2026}'), "short path should not contain ellipsis: {}", text[0]);
    assert!(text[0].contains("src/a.rs"));
    assert_eq!(text[0], "  src/a.rs +3 -0");
}

#[test]
fn tasks_lines_empty_placeholder() {
    let text = tasks_lines(&StatusSummary::default(), 40, None);
    assert!(text.iter().any(|s| s.contains("no tasks tracked")));
    assert!(text.iter().all(|s| !s.contains('/') && !s.contains('\u{2588}')), "empty placeholder must not contain gauge artifacts");
}

#[test]
fn tasks_lines_lists_named_tasks_with_glyphs() {
    let summary = StatusSummary {
        tasks_active: 1,
        ..summary_with_tasks(
            vec![
                task("1", "Read config", TaskState::Done),
                task("2", "Write tests", TaskState::Active),
                task("3", "Refactor", TaskState::Pending),
            ],
            1,
        )
    };
    // The rows below the gauge (the gauge line is drawn by the caller).
    let text = tasks_lines(&summary, 40, None);
    assert!(text.iter().any(|s| s.contains('\u{2611}') && s.contains("Read config")), "done task should have check glyph: {text:?}");
    assert!(text.iter().any(|s| s.contains('\u{25b6}') && s.contains("Write tests")), "active task should have play glyph: {text:?}");
    assert!(text.iter().any(|s| s.contains('\u{2610}') && s.contains("Refactor")), "pending task should have empty box glyph: {text:?}");
}

#[test]
fn tasks_lines_truncates_long_title() {
    let long_title = "This is a very long task title that should be truncated";
    let short_title = "Short";
    let summary = summary_with_tasks(
        vec![task("1", long_title, TaskState::Pending), task("2", short_title, TaskState::Pending)],
        0,
    );
    let text = tasks_lines(&summary, 26, None);
    assert!(text.iter().any(|s| s.contains('\u{2026}')), "long title line should contain ellipsis: {text:?}");
    assert!(text.iter().any(|s| s.contains(short_title) && !s.contains('\u{2026}')), "short title line should not contain ellipsis: {text:?}");
}

#[test]
fn tasks_lines_uses_full_panel_width() {
    let title_50 = "A".repeat(50);
    let summary = summary_with_tasks(vec![task("1", &title_50, TaskState::Pending)], 0);
    let text = tasks_lines(&summary, 60, None);
    assert!(text.iter().any(|s| s.contains(&title_50) && !s.contains('\u{2026}')), "50-char title should not be truncated at width=60: {text:?}");
    let text_narrow = tasks_lines(&summary, 28, None);
    assert!(text_narrow.iter().any(|s| s.contains('\u{2026}')), "50-char title should be truncated at width=28: {text_narrow:?}");
}

#[test]
fn tasks_lines_non_active_tasks_do_not_pan() {
    let summary = summary_with_tasks(
        vec![task("a", FIXTURE, TaskState::Done), task("b", FIXTURE, TaskState::Active), task("c", FIXTURE, TaskState::Pending)],
        1,
    );
    let width = 22;
    let text_0 = tasks_lines(&summary, width, Some(0));
    let text_4 = tasks_lines(&summary, width, Some(4));
    // Rows: 0 = done task, 1 = active task, 2 = pending task.
    assert_eq!(text_0[0], text_4[0], "done task must not pan");
    assert_eq!(text_0[2], text_4[2], "pending task must not pan");
    assert_ne!(text_0[1], text_4[1], "active task must pan at tick=4");
}

const SPRITE_CELLS: usize = 2;

#[test]
fn spinner_line_contains_dog_and_brain_during_chase() {
    let s = spinner_line(Some(0), 40).unwrap();
    assert!(s.contains('\u{1f415}'), "missing dog: {s}");
    assert!(s.contains('\u{1f9e0}'), "missing brain: {s}");
}

#[test]
fn spinner_line_return_cluster_brain_left_of_dog_with_dash() {
    let width: usize = 40;
    let span = width - SPRITE_CELLS;
    let mid = width / 2;
    let steps_a = span - mid;
    let p0 = width - SPRITE_CELLS * 3;
    let steps_b = p0 / 2;
    let period = steps_a + steps_b + 2;
    let mut return_frames = 0;
    let mut prev_lead: Option<usize> = None;
    for phase in (steps_a + 1)..period {
        let s = spinner_line(Some(phase), width).unwrap();
        assert!(s.contains("\u{1f9e0}\u{1f415}\u{1f4a8}"), "return frame must show brain+dog+dash adjacent: {s:?}");
        let lead = s.chars().take_while(|&c| c == ' ').count();
        if let Some(p) = prev_lead {
            assert!(lead < p, "return cluster must move left: {lead} !< {p}");
        }
        prev_lead = Some(lead);
        return_frames += 1;
    }
    assert_eq!(return_frames, steps_b + 1, "return phase length");
}

#[test]
fn spinner_line_scales_with_width() {
    fn distinct_dog_offsets(width: usize) -> usize {
        let track = width.saturating_sub(SPRITE_CELLS * 2);
        let period = track + 2;
        let mut offsets = std::collections::HashSet::new();
        for tick in 0..period {
            let s = spinner_line(Some(tick), width).unwrap();
            let leading = s.len() - s.trim_start().len();
            offsets.insert(leading);
        }
        offsets.len()
    }
    let offsets_w20 = distinct_dog_offsets(20);
    let offsets_w60 = distinct_dog_offsets(60);
    assert!(offsets_w60 > offsets_w20, "wider panel should have more distinct dog offsets (w20={offsets_w20}, w60={offsets_w60})");
}

#[test]
fn spinner_line_never_exceeds_width() {
    for &width in &[10_usize, 20, 40, 80] {
        let track = width.saturating_sub(SPRITE_CELLS * 2);
        let period = track + 2;
        for tick in 0..period {
            let s = spinner_line(Some(tick), width).unwrap();
            let char_count = s.chars().count();
            assert!(char_count <= width, "width={width} tick={tick}: char_count={char_count} exceeds width ({s:?})");
        }
    }
}

#[test]
fn truncate_title_zero_width_is_empty() {
    assert_eq!(truncate_title("abc", 0), "");
    assert_eq!(truncate_title("", 0), "");
    assert_eq!(truncate_title("abcdefghijklmnopqrstuvwxyzABCD", 10), "abcdefghi\u{2026}");
}

#[test]
fn reclaim_lines_count_each_source() {
    let rec = |event: SessionEvent| SessionRecord { ts: 0, turn: 0, event };
    let records = vec![
        rec(SessionEvent::Compaction { tokens_before: 1000, tokens_after: 400 }),
        rec(SessionEvent::Compaction { tokens_before: 500, tokens_after: 100 }),
        rec(SessionEvent::OutputFiltered { tokens_before: 90, tokens_after: 30, filter: "cargo".to_string() }),
        rec(SessionEvent::ReadEvicted { reads_evicted: 3, tokens_reclaimed: 700 }),
        rec(SessionEvent::ReadDeduped { tokens_saved: 50, prior_turn: 2 }),
        rec(SessionEvent::ReadDeduped { tokens_saved: 25, prior_turn: 4 }),
    ];
    let c = reclaim_counts(&records);
    assert_eq!(compaction_lines(&c), vec!["Events: 2".to_string(), "Freed: 1000 tokens".to_string()]);
    assert_eq!(
        lever_lines(&c),
        vec![
            "Filter: 1 calls, 60 freed".to_string(),
            "Evict: 3 reads, 700 freed".to_string(),
            "Dedupe: 2 reads, 75 saved".to_string(),
        ]
    );
    let none = reclaim_counts(&Vec::new());
    assert!(compaction_lines(&none).is_empty() && lever_lines(&none).is_empty());
}

#[test]
fn summarize_folds_latest_fields_and_tasks() {
    let rec = |ts: u64, event: SessionEvent| SessionRecord { ts, turn: 0, event };
    let records = vec![
        rec(100, SessionEvent::SessionStart { session_id: "s1".into(), model: "m".into(), phase: "phase-01".into() }),
        rec(200, SessionEvent::TaskUpdate { id: "1".into(), title: "Read".into(), state: TaskState::Active }),
        rec(300, SessionEvent::TaskUpdate { id: "2".into(), title: "Write".into(), state: TaskState::Pending }),
        rec(400, SessionEvent::TaskUpdate { id: "1".into(), title: "ignored".into(), state: TaskState::Done }),
        rec(500, SessionEvent::Progress { turn: 3, stage: "gates".into(), files_changed: vec!["a.rs".into()], message: String::new() }),
    ];
    let s = summarize(&records);
    assert_eq!(s.phase.as_deref(), Some("phase-01"));
    assert_eq!(s.started_at, Some(100));
    assert_eq!(s.last_ts, Some(500));
    assert_eq!(s.update_interval_avg_ms, Some(100));
    assert_eq!(s.latest_turn, 3);
    assert_eq!(s.files_changed.len(), 1);
    assert_eq!(s.tasks_total, 2);
    assert_eq!(s.tasks_done, 1);
    assert_eq!(s.tasks_active, 0);
    assert_eq!(s.tasks[0].title, "Read");
    assert!(s.ended.is_none());
}
