use rexymcp::cap::{cap_command_outputs, cap_phase_result, cap_session_record, cap_string, Briefing, PhaseResult, WorkingFile, MAX_FIELD_BYTES};
use rexymcp::session::{ArgValue, SessionEvent, SessionRecord, ToolArg};
use rexymcp::finalize::CommandOutputs;

#[test]
fn cap_string_leaves_short_text() {
    assert_eq!(cap_string("short".to_string()), "short");
    let exact = "x".repeat(MAX_FIELD_BYTES);
    assert_eq!(cap_string(exact.clone()), exact);
}

#[test]
fn cap_string_cuts_long_text_with_marker() {
    let capped = cap_string("x".repeat(60_000));
    assert!(capped.len() <= MAX_FIELD_BYTES + 100);
    assert!(capped.starts_with(&"x".repeat(MAX_FIELD_BYTES)));
    assert!(capped.ends_with("\n\n[truncated: 10000 bytes elided]"));
}

#[test]
fn cap_string_cuts_on_char_boundary() {
    // 'é' is two bytes: the one starting at byte 49_999 would end past the
    // budget, so the cut falls before it.
    let s = format!("{}{}", "x".repeat(49_999), "\u{e9}".repeat(10));
    let capped = cap_string(s);
    let kept = capped.split("\n\n[truncated:").next().unwrap();
    assert_eq!(kept.len(), 49_999);
    assert!(capped.ends_with("[truncated: 20 bytes elided]"));
    // Exactly on the budget after a two-byte character.
    let s = format!("{}{}", "x".repeat(49_998), "\u{e9}".repeat(10));
    let capped = cap_string(s);
    let kept = capped.split("\n\n[truncated:").next().unwrap();
    assert_eq!(kept.len(), MAX_FIELD_BYTES);
    assert!(capped.ends_with("[truncated: 18 bytes elided]"));
}

#[test]
fn caps_all_command_outputs() {
    let o = CommandOutputs {
        format: Some("x".repeat(51_000)),
        build: Some("x".repeat(52_000)),
        lint: Some("ok".to_string()),
        test: None,
    };
    let c = cap_command_outputs(o);
    assert!(c.format.unwrap().contains("[truncated:"));
    assert!(c.build.unwrap().ends_with("[truncated: 2000 bytes elided]"));
    assert_eq!(c.lint.unwrap(), "ok");
    assert!(c.test.is_none());
}

fn long_string(len: usize) -> String {
    "x".repeat(len)
}

fn short_string() -> String {
    "short".to_string()
}

fn base_result() -> PhaseResult {
    PhaseResult {
        diff: String::new(),
        update_log: String::new(),
        command_outputs: CommandOutputs { format: None, build: None, lint: None, test: None },
        briefing: None,
    }
}

fn briefing(working_files: Vec<WorkingFile>, what_was_tried: Vec<String>) -> Briefing {
    Briefing {
        goal: "g".to_string(),
        acceptance_criteria: "ac".to_string(),
        working_files,
        what_was_tried,
        budget_remaining: "0".to_string(),
    }
}

#[test]
fn caps_long_diff() {
    let mut r = base_result();
    r.diff = long_string(60_000);
    let capped = cap_phase_result(r);
    assert!(capped.diff.len() <= MAX_FIELD_BYTES + 100);
    assert!(capped.diff.contains("[truncated:"));
    assert!(capped.diff.contains("bytes elided]"));
}

#[test]
fn caps_long_update_log() {
    let mut r = base_result();
    r.update_log = long_string(55_000);
    let capped = cap_phase_result(r);
    assert!(capped.update_log.len() <= MAX_FIELD_BYTES + 100);
    assert!(capped.update_log.contains("[truncated:"));
}

#[test]
fn caps_long_command_output_build() {
    let mut r = base_result();
    r.command_outputs.build = Some(long_string(52_000));
    let capped = cap_phase_result(r);
    let build = capped.command_outputs.build.unwrap();
    assert!(build.len() <= MAX_FIELD_BYTES + 100);
    assert!(build.contains("[truncated:"));
}

#[test]
fn caps_briefing_working_file_content() {
    let mut r = base_result();
    r.briefing = Some(briefing(
        vec![WorkingFile { path: "src/lib.rs".to_string(), content: long_string(60_000) }],
        vec![],
    ));
    let capped = cap_phase_result(r);
    let wf = &capped.briefing.as_ref().unwrap().working_files[0];
    assert_eq!(wf.path, "src/lib.rs");
    assert!(wf.content.len() <= MAX_FIELD_BYTES + 100);
    assert!(wf.content.contains("[truncated:"));
}

#[test]
fn leaves_short_field_untouched() {
    let mut r = base_result();
    r.diff = short_string();
    let capped = cap_phase_result(r);
    assert_eq!(capped.diff, "short");
}

#[test]
fn leaves_none_command_output_as_none() {
    let r = base_result();
    assert!(r.command_outputs.build.is_none());
    let capped = cap_phase_result(r);
    assert!(capped.command_outputs.build.is_none());
}

#[test]
fn leaves_none_briefing_untouched() {
    let r = base_result();
    assert!(r.briefing.is_none());
    let capped = cap_phase_result(r);
    assert!(capped.briefing.is_none());
}

#[test]
fn respects_utf8_char_boundaries() {
    let mut r = base_result();
    r.diff = "\u{e4}\u{f6}\u{fc}".repeat(20_000);
    let capped = cap_phase_result(r);
    assert!(std::str::from_utf8(capped.diff.as_bytes()).is_ok(), "capped diff must be valid UTF-8");
    assert!(capped.diff.contains("[truncated:"));
}

#[test]
fn truncation_marker_includes_elided_count() {
    let mut r = base_result();
    r.diff = long_string(52_000);
    let capped = cap_phase_result(r);
    assert!(capped.diff.contains("2000 bytes elided"));
}

#[test]
fn does_not_double_cap_what_was_tried() {
    let mut r = base_result();
    r.briefing = Some(briefing(vec![], vec!["Tried patch on src/lib.rs; succeeded.".to_string()]));
    let capped = cap_phase_result(r);
    let tried = &capped.briefing.as_ref().unwrap().what_was_tried[0];
    assert_eq!(tried, "Tried patch on src/lib.rs; succeeded.");
}

fn make_session_record(event: SessionEvent, turn: usize) -> SessionRecord {
    SessionRecord { ts: 1_717_000_000_000, turn, event }
}

#[test]
fn cap_session_record_truncates_prompt_rendered() {
    let capped = cap_session_record(make_session_record(SessionEvent::Prompt { rendered: long_string(60_000) }, 1));
    match capped.event {
        SessionEvent::Prompt { rendered } => {
            assert!(rendered.len() <= MAX_FIELD_BYTES + 100);
            assert!(rendered.contains("[truncated:"));
        }
        _ => panic!("expected Prompt"),
    }
}

#[test]
fn cap_session_record_truncates_completion_raw() {
    let capped = cap_session_record(make_session_record(SessionEvent::Completion { raw: long_string(60_000) }, 1));
    match capped.event {
        SessionEvent::Completion { raw } => {
            assert!(raw.len() <= MAX_FIELD_BYTES + 100);
            assert!(raw.contains("[truncated:"));
        }
        _ => panic!("expected Completion"),
    }
}

#[test]
fn cap_session_record_truncates_tool_result_output_preview() {
    let record = make_session_record(
        SessionEvent::ToolResult { name: "read_file".into(), succeeded: true, output_preview: long_string(60_000) },
        1,
    );
    let capped = cap_session_record(record);
    match capped.event {
        SessionEvent::ToolResult { name, succeeded, output_preview } => {
            assert_eq!(name, "read_file");
            assert!(succeeded);
            assert!(output_preview.len() <= MAX_FIELD_BYTES + 100);
            assert!(output_preview.contains("[truncated:"));
        }
        _ => panic!("expected ToolResult"),
    }
}

#[test]
fn cap_session_record_truncates_hard_fail_reason() {
    let capped = cap_session_record(make_session_record(SessionEvent::HardFail { reason: long_string(60_000) }, 1));
    match capped.event {
        SessionEvent::HardFail { reason } => {
            assert!(reason.len() <= MAX_FIELD_BYTES + 100);
            assert!(reason.contains("[truncated:"));
        }
        _ => panic!("expected HardFail"),
    }
}

#[test]
fn cap_session_record_truncates_progress_message() {
    let record = make_session_record(
        SessionEvent::Progress { turn: 1, stage: "verify".into(), files_changed: vec![], message: long_string(60_000) },
        1,
    );
    let capped = cap_session_record(record);
    match capped.event {
        SessionEvent::Progress { message, stage, .. } => {
            assert_eq!(stage, "verify");
            assert!(message.len() <= MAX_FIELD_BYTES + 100);
            assert!(message.contains("[truncated:"));
        }
        _ => panic!("expected Progress"),
    }
}

#[test]
fn cap_session_record_passes_through_session_start() {
    let record = make_session_record(
        SessionEvent::SessionStart { session_id: "s1".into(), model: "test".into(), phase: "p1".into() },
        0,
    );
    let capped = cap_session_record(record);
    assert!(matches!(capped.event, SessionEvent::SessionStart { .. }));
    assert_eq!(capped.turn, 0);
    assert_eq!(capped.ts, 1_717_000_000_000);
}

#[test]
fn cap_session_record_passes_through_parsed() {
    let record = make_session_record(
        SessionEvent::Parsed {
            tool_name: "read_file".into(),
            arguments: vec![ToolArg { key: "path".into(), value: ArgValue::Str("x.rs".into()) }],
        },
        1,
    );
    let capped = cap_session_record(record);
    assert!(matches!(capped.event, SessionEvent::Parsed { .. }));
}

#[test]
fn cap_session_record_passes_through_parse_failed() {
    let record = make_session_record(SessionEvent::ParseFailed { raw: "bad".into(), feedback: "no tool".into() }, 1);
    let capped = cap_session_record(record);
    assert!(matches!(capped.event, SessionEvent::ParseFailed { .. }));
}

#[test]
fn cap_session_record_passes_through_verify() {
    let record = make_session_record(SessionEvent::Verify { diagnostics: vec!["src/lib.rs:1: unused".into()] }, 1);
    let capped = cap_session_record(record);
    assert!(matches!(capped.event, SessionEvent::Verify { .. }));
}

#[test]
fn cap_session_record_passes_through_session_end() {
    let record = make_session_record(SessionEvent::SessionEnd { status: "ok".into(), turns: 5 }, 5);
    let capped = cap_session_record(record);
    assert!(matches!(capped.event, SessionEvent::SessionEnd { .. }));
}

#[test]
fn cap_session_record_short_fields_untouched() {
    let capped = cap_session_record(make_session_record(SessionEvent::Prompt { rendered: "short".into() }, 1));
    match capped.event {
        SessionEvent::Prompt { rendered } => assert_eq!(rendered, "short"),
        _ => panic!("expected Prompt"),
    }
}

#[test]
fn cap_session_record_passes_long_session_start_unchanged() {
    let long = long_string(60_000);
    let record = make_session_record(
        SessionEvent::SessionStart { session_id: long.clone(), model: "m".into(), phase: "p".into() },
        0,
    );
    match cap_session_record(record).event {
        SessionEvent::SessionStart { session_id, .. } => assert_eq!(session_id, long),
        _ => panic!("expected SessionStart"),
    }
}
