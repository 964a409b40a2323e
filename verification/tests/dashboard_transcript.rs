use rexymcp::dashboard::filter::{ActivityFilter, EventKind};
use rexymcp::dashboard::transcript::{pair_calls, preview, relative_ts, visible_positions, CallSite};

#[test]
fn relative_ts_formats_offset_from_base() {
    assert_eq!(relative_ts(1000, 1000), "+0s");
    assert_eq!(relative_ts(6000, 1000), "+5s");
    assert_eq!(relative_ts(193_000, 1000), "+3m12s");
    assert_eq!(relative_ts(500, 1000), "+0s");
}

#[test]
fn preview_flattens_and_truncates() {
    assert_eq!(preview("a\nb\tc"), "a b c");
    let long = "x".repeat(150);
    let p = preview(&long);
    assert_eq!(p.chars().count(), 101);
    assert!(p.ends_with('\u{2026}'));
    assert_eq!(preview(&"y".repeat(100)), "y".repeat(100));
}

fn call(name: &str, path: Option<&str>) -> CallSite {
    CallSite::Call { name: name.into(), read_path: path.map(|p| p.to_string()) }
}

fn result(name: &str) -> CallSite {
    CallSite::Result { name: name.into() }
}

#[test]
fn transcript_pairs_call_and_result() {
    let es = vec![call("read_file", Some("src/x.rs")), CallSite::Other, result("read_file")];
    let p = pair_calls(&es);
    assert_eq!(p[0], (false, None));
    assert_eq!(p[1], (false, None));
    assert_eq!(p[2], (true, Some("src/x.rs".to_string())));
}

#[test]
fn transcript_pairs_only_matching_name() {
    let es = vec![call("bash", None), result("read_file"), result("bash")];
    let p = pair_calls(&es);
    assert_eq!(p[1], (false, None));
    // The first result consumed the pending call.
    assert_eq!(p[2], (false, None));
    let es = vec![result("bash")];
    assert_eq!(pair_calls(&es)[0], (false, None));
    let es = vec![call("bash", None), result("bash")];
    assert_eq!(pair_calls(&es)[1], (true, None));
}

#[test]
fn visible_positions_follow_filter() {
    let kinds = vec![EventKind::SessionStart, EventKind::Progress, EventKind::Verify];
    assert_eq!(visible_positions(&kinds, &ActivityFilter::default()), vec![0, 2]);
    let all = ActivityFilter { progress: true, ..Default::default() };
    assert_eq!(visible_positions(&kinds, &all), vec![0, 1, 2]);
}

use rexymcp::dashboard::highlight::{body_lines, TRANSCRIPT_CONTENT_MAX_LINES};
use rexymcp::dashboard::panels::TaskState;
use rexymcp::dashboard::transcript::{
    body_text_lines, record_body, record_header, tool_arg_lines, transcript_entries, HeaderColor, RecordBody, NO_ACTIVITY,
};
use rexymcp::session::{ArgValue, SessionEvent, SessionRecord, ToolArg};

fn rec(ts: u64, turn: usize, event: SessionEvent) -> SessionRecord {
    SessionRecord { ts, turn, event }
}

fn start_event() -> SessionEvent {
    SessionEvent::SessionStart { session_id: "test-session".into(), model: "test-model".into(), phase: "phase-01".into() }
}

fn progress_event(turn: usize, stage: &str) -> SessionEvent {
    SessionEvent::Progress {
        turn,
        stage: stage.into(),
        files_changed: vec![],
        message: format!("turn={turn} stage={stage} +0/-0 files=0"),
    }
}

fn str_arg(k: &str, v: &str) -> ToolArg {
    ToolArg { key: k.into(), value: ArgValue::Str(v.into()) }
}

fn parsed(name: &str, args: Vec<ToolArg>) -> SessionEvent {
    SessionEvent::Parsed { tool_name: name.into(), arguments: args }
}

fn tool_result(name: &str, ok: bool, out: &str) -> SessionEvent {
    SessionEvent::ToolResult { name: name.into(), succeeded: ok, output_preview: out.into() }
}

// The text of a body as the plain renderer lays it out.
fn body_text(b: &RecordBody) -> Vec<String> {
    match b {
        RecordBody::Empty => vec![],
        RecordBody::Plain(t) | RecordBody::Args(t) | RecordBody::Completion(t) | RecordBody::ToolOutput(t) => body_lines(t),
    }
}

fn record_lines(r: &SessionRecord) -> Vec<String> {
    let mut out = vec![record_header(r.turn, &r.event, false).text];
    out.extend(body_text(&record_body(&r.event)));
    out
}

fn record_text(r: &SessionRecord) -> String {
    record_lines(r).join("\n")
}

fn transcript_lines(records: &Vec<SessionRecord>, filter: &ActivityFilter) -> Vec<String> {
    let entries = transcript_entries(records, filter);
    if entries.is_empty() {
        return vec![NO_ACTIVITY.to_string()];
    }
    let mut out = Vec::new();
    for e in &entries {
        out.push(format!("{}{}", e.stamp, e.header.text));
        out.extend(body_text(&e.body));
    }
    out
}

fn all_events_check() {
    let t = record_text(&rec(100, 0, start_event()));
    assert!(t.contains("[t0]") && t.contains("session start") && t.contains("phase-01"));
    let t = record_text(&rec(200, 1, SessionEvent::Completion { raw: "hello world".into() }));
    assert!(t.contains("[t1] completion:"));
    assert!(t.contains("hello world"));
    let t = record_text(&rec(300, 2, tool_result("read_file", true, "file contents")));
    assert!(t.contains("[t2] tool read_file [ok]"));
    assert!(t.contains("file contents"));
    let t = record_text(&rec(400, 3, tool_result("bash", false, "error output")));
    assert!(t.contains("[t3] tool bash [FAIL]"));
    let t = record_text(&rec(500, 5, SessionEvent::SessionEnd { status: "complete".into(), turns: 5 }));
    assert!(t.contains("[t5]") && t.contains("session end \u{2014} complete (5 turns)"));
    let t = record_text(&rec(600, 4, SessionEvent::Compaction { tokens_before: 1000, tokens_after: 600 }));
    assert!(t.contains("[t4]") && t.contains("compaction: 1000 \u{2192} 600 tokens"));
    let t = record_text(&rec(700, 3, SessionEvent::HardFail { reason: "out of memory".into() }));
    assert!(t.contains("[t3]") && t.contains("HARD FAIL: out of memory"));
    let t = record_text(&rec(800, 2, SessionEvent::Verify { diagnostics: vec![] }));
    assert!(t.contains("[t2]") && t.contains("verify: 0 diagnostic(s)"));
    let t = record_text(&rec(900, 1, SessionEvent::Metrics { input_tokens: 500, output_tokens: 100 }));
    assert!(t.contains("[t1]") && t.contains("metrics: 500 in / 100 out"));
    let t = record_text(&rec(1000, 0, SessionEvent::Prompt { rendered: "short prompt".into() }));
    assert!(t.contains("[t0]") && t.contains("prompt (12 chars)"));
    let t = record_text(&rec(1100, 1, progress_event(1, "verify")));
    assert!(t.contains("[t1]") && t.contains("progress: verify"));
    let t = record_text(&rec(1200, 2, parsed("write_file", vec![])));
    assert!(t.contains("[t2]") && t.contains("\u{2192} call write_file"));
    let t = record_text(&rec(1300, 3, SessionEvent::ParseFailed { raw: String::new(), feedback: "expected a tool call".into() }));
    assert!(t.contains("[t3]") && t.contains("parse failed: expected a tool call"));
}

#[test]
fn transcript_record_lines_renders_each_variant() {
    all_events_check();
}

#[test]
fn dashboard_record_lines_renders_each_variant() {
    all_events_check();
}

#[test]
fn record_header_renders_counter_events() {
    let h = |e: SessionEvent| record_header(7, &e, false).text;
    assert_eq!(
        h(SessionEvent::OutputFiltered { tokens_before: 900, tokens_after: 300, filter: "cargo".into() }),
        "[t7] filtered (cargo): 900 \u{2192} 300 tokens"
    );
    assert_eq!(h(SessionEvent::ReadEvicted { reads_evicted: 2, tokens_reclaimed: 450 }), "[t7] evicted 2 stale read(s): -450 tokens");
    assert_eq!(
        h(SessionEvent::ReadDeduped { tokens_saved: 120, prior_turn: 3 }),
        "[t7] deduped re-read (already read turn 3): -120 tokens"
    );
    assert_eq!(
        h(SessionEvent::TaskUpdate { id: "2".into(), title: "Write tests".into(), state: TaskState::Active }),
        "[t7] task 2 [Active]: Write tests"
    );
    assert_eq!(
        h(SessionEvent::NoveltySample { window: 8, distinct_targets: 3 }),
        "[t7] novelty: 3 distinct target(s) over 8 read-only calls"
    );
    let hf = record_header(1, &SessionEvent::HardFail { reason: "x".into() }, false);
    assert!(hf.bold);
    assert_eq!(hf.color, HeaderColor::Red);
    assert!(!record_header(1, &start_event(), false).bold);
}

fn single_line_check() {
    let lines = record_lines(&rec(100, 4, progress_event(4, "verify")));
    assert_eq!(lines.len(), 1);
    assert!(lines[0].contains("[t4] progress: verify"));
}

#[test]
fn transcript_record_lines_single_line_for_short_events() {
    single_line_check();
}

#[test]
fn dashboard_record_lines_single_line_for_short_events() {
    single_line_check();
}

fn completion_multiline_check() {
    let lines = record_lines(&rec(100, 1, SessionEvent::Completion { raw: "a\nb\nc".into() }));
    assert_eq!(lines.len(), 4);
    assert!(lines[0].contains("[t1] completion:"));
    assert!(lines.iter().any(|s| s.contains('a')));
    assert!(lines.iter().any(|s| s.contains('c')));
}

#[test]
fn transcript_record_lines_expands_completion_multiline() {
    completion_multiline_check();
}

#[test]
fn dashboard_record_lines_expands_completion_multiline() {
    completion_multiline_check();
}

fn tool_output_multiline_check() {
    let lines = record_lines(&rec(100, 2, tool_result("bash", false, "line one\nline two")));
    assert_eq!(lines.len(), 3);
    assert!(lines[0].contains("tool bash [FAIL]"));
    assert!(lines[1].contains("line one"));
    assert!(lines[2].contains("line two"));
}

#[test]
fn transcript_record_lines_expands_tool_output_multiline() {
    tool_output_multiline_check();
}

#[test]
fn dashboard_record_lines_expands_tool_output_multiline() {
    tool_output_multiline_check();
}

fn long_body() -> String {
    (0..TRANSCRIPT_CONTENT_MAX_LINES + 5).map(|i| format!("line {i}")).collect::<Vec<_>>().join("\n")
}

fn caps_long_content_check() {
    let lines = record_lines(&rec(100, 0, SessionEvent::Completion { raw: long_body() }));
    assert_eq!(lines.len(), 1 + TRANSCRIPT_CONTENT_MAX_LINES + 1);
    let last = &lines[lines.len() - 1];
    assert!(last.contains("more lines"), "last line should be the overflow marker: {last}");
}

#[test]
fn transcript_record_lines_caps_long_content() {
    caps_long_content_check();
}

#[test]
fn dashboard_record_lines_caps_long_content() {
    caps_long_content_check();
}

#[test]
fn prompt_body_caps_long_text() {
    let lines = record_lines(&rec(0, 0, SessionEvent::Prompt { rendered: long_body() }));
    assert_eq!(lines.len(), 1 + TRANSCRIPT_CONTENT_MAX_LINES + 1);
    assert!(lines[lines.len() - 1].contains("more lines"));
}

fn empty_placeholder_check() {
    let text = transcript_lines(&vec![], &ActivityFilter::default());
    assert!(text.iter().any(|s| s.contains("no activity")));
}

#[test]
fn transcript_transcript_lines_empty_placeholder() {
    empty_placeholder_check();
}

#[test]
fn dashboard_transcript_lines_empty_placeholder() {
    empty_placeholder_check();
}

fn flatmaps_check() {
    let records = vec![rec(100, 0, start_event()), rec(200, 1, SessionEvent::Completion { raw: "x\ny\nz".into() })];
    let lines = transcript_lines(&records, &ActivityFilter::default());
    assert_eq!(lines.len(), 5);
}

#[test]
fn transcript_transcript_lines_flatmaps_records() {
    flatmaps_check();
}

#[test]
fn dashboard_transcript_lines_flatmaps_records() {
    flatmaps_check();
}

#[test]
fn transcript_lines_excludes_filtered_events() {
    let records = vec![rec(0, 0, start_event()), rec(1, 1, progress_event(1, "build")), rec(2, 1, SessionEvent::HardFail { reason: "x".into() })];
    let lines = transcript_lines(&records, &ActivityFilter::default());
    assert_eq!(lines.len(), 2);
    assert!(!lines.iter().any(|l| l.contains("progress:")));
}

#[test]
fn transcript_lines_all_filtered_shows_placeholder() {
    let records = vec![rec(0, 1, progress_event(1, "build"))];
    let lines = transcript_lines(&records, &ActivityFilter::default());
    assert_eq!(lines, vec!["(no activity yet)".to_string()]);
}

#[test]
fn prompt_header_uses_soft_white() {
    let h = record_header(0, &SessionEvent::Prompt { rendered: "hi".into() }, false);
    assert_eq!(h.color, HeaderColor::SoftWhite);
}

#[test]
fn progress_header_uses_soft_white() {
    assert_eq!(record_header(0, &progress_event(0, "build"), false).color, HeaderColor::SoftWhite);
}

#[test]
fn metrics_header_uses_soft_white() {
    let e = SessionEvent::Metrics { input_tokens: 10, output_tokens: 5 };
    assert_eq!(record_header(0, &e, false).color, HeaderColor::SoftWhite);
}

#[test]
fn prompt_body_shows_rendered_text_soft_white() {
    let r = rec(0, 0, SessionEvent::Prompt { rendered: "injected ctx".into() });
    let lines = record_lines(&r);
    assert!(lines.len() >= 2, "expected header + body, got {} lines", lines.len());
    assert!(lines[1].contains("injected ctx"));
    assert!(matches!(record_body(&r.event), RecordBody::Plain(_)), "prompt body is drawn in soft white");
}

#[test]
fn tool_call_args_render_dimmed() {
    let e = || parsed("read_file", vec![str_arg("path", "x.rs")]);
    let lines = record_lines(&rec(0, 0, e()));
    assert!(lines.len() >= 2, "expected header + body, got {} lines", lines.len());
    let full_body = lines[1..].join("\n");
    assert!(full_body.contains("path"), "body should contain arg key: {full_body}");
    assert!(full_body.contains("x.rs"), "body should contain arg value: {full_body}");
    assert!(matches!(record_body(&e()), RecordBody::Args(_)), "argument lines are drawn dimmed");
}

#[test]
fn tool_call_patch_shows_only_path() {
    let e = parsed("patch", vec![str_arg("new_str", "fn new() {}"), str_arg("old_str", "fn old() {}"), str_arg("path", "src/foo.rs")]);
    let lines = record_lines(&rec(0, 0, e));
    assert_eq!(lines.len(), 2, "patch call should render header + one path line, got {} lines", lines.len());
    let body = &lines[1];
    assert!(body.contains("src/foo.rs"), "body should show path: {body}");
    assert!(!body.contains("old()") && !body.contains("new()"), "patch body must not echo old_str/new_str: {body}");
}

#[test]
fn tool_call_args_flatten_multiline_values() {
    let lines = record_lines(&rec(0, 0, parsed("bash", vec![str_arg("command", "echo a\necho b")])));
    assert_eq!(lines.len(), 2, "header + one flattened command line, got {} lines", lines.len());
    let body = &lines[1];
    assert!(body.contains("command:"), "body should label command: {body}");
    assert!(body.contains("echo a") && body.contains("echo b"), "{body}");
}

#[test]
fn tool_call_empty_args_render_header_only() {
    // An empty object and a null both arrive as no arguments.
    let lines = record_lines(&rec(0, 0, parsed("read_file", vec![])));
    assert_eq!(lines.len(), 1, "empty args should render header only, got {} lines", lines.len());
}

#[test]
fn tool_arg_lines_render_json_values_compactly() {
    let args = vec![ToolArg { key: "limit".into(), value: ArgValue::Json("20".into()) }, str_arg("path", "a.rs")];
    assert_eq!(tool_arg_lines("read_file", &args), vec!["limit: 20".to_string(), "path: a.rs".to_string()]);
    let non_str_path = vec![ToolArg { key: "path".into(), value: ArgValue::Json("1".into()) }];
    assert!(tool_arg_lines("patch", &non_str_path).is_empty());
}

#[test]
fn transcript_lines_prefixes_relative_timestamp() {
    let records = vec![rec(1000, 0, start_event()), rec(4000, 1, progress_event(1, "verify"))];
    let filter = ActivityFilter { progress: true, ..Default::default() };
    let lines = transcript_lines(&records, &filter);
    assert!(lines[0].contains("[+0s]"), "first record should have [+0s]: {}", lines[0]);
    assert!(lines[0].contains("[t0]"));
    assert!(lines[1].contains("[+3s]"), "second record should have [+3s]: {}", lines[1]);
    assert!(lines[1].contains("[t1]"));
}

#[test]
fn transcript_lines_timestamp_relative_to_first_record_not_first_visible() {
    let records = vec![rec(1000, 0, SessionEvent::Prompt { rendered: "ctx".into() }), rec(5000, 1, progress_event(1, "build"))];
    let filter = ActivityFilter { prompt: false, progress: true, ..Default::default() };
    let lines = transcript_lines(&records, &filter);
    assert_eq!(lines.len(), 1, "only the progress record should be visible");
    assert!(lines[0].contains("[+4s]"), "visible record should show [+4s]: {}", lines[0]);
}

#[test]
fn transcript_lines_timestamp_only_on_header_not_body() {
    let records = vec![rec(1000, 0, SessionEvent::Completion { raw: "alpha\nbeta".into() })];
    let lines = transcript_lines(&records, &ActivityFilter::default());
    let ts_count = lines.iter().filter(|l| l.contains("[+0s]")).count();
    assert_eq!(ts_count, 1);
    for line in &lines[1..] {
        assert!(!line.contains("+0s"), "body line should not contain timestamp: {line}");
    }
}

#[test]
fn transcript_lines_pairs_call_and_result() {
    let records = vec![
        rec(0, 0, parsed("read_file", vec![str_arg("path", "foo.rs")])),
        rec(1, 0, tool_result("read_file", true, "fn x(){}")),
    ];
    let entries = transcript_entries(&records, &ActivityFilter::default());
    assert_eq!(entries[1].path_hint.as_deref(), Some("foo.rs"));
    let lines = transcript_lines(&records, &ActivityFilter::default());
    assert!(lines.iter().any(|l| l.contains("\u{2192} call read_file")));
    let result_header = lines.iter().find(|l| l.contains("\u{2570} [ok]")).expect("should have a paired result header line");
    assert!(!result_header.contains("tool read_file"));
}

#[test]
fn transcript_lines_orphan_result_is_standalone() {
    let records = vec![rec(0, 0, tool_result("read_file", true, "content"))];
    let lines = transcript_lines(&records, &ActivityFilter::default());
    assert!(lines[0].contains("tool read_file [ok]"));
    assert!(!lines[0].contains('\u{2570}'));
}

#[test]
fn transcript_lines_pairs_only_matching_name() {
    let records = vec![
        rec(0, 0, parsed("read_file", vec![str_arg("path", "foo.rs")])),
        rec(1, 0, tool_result("bash", false, "error")),
    ];
    let lines = transcript_lines(&records, &ActivityFilter::default());
    let result_header = lines.iter().find(|l| l.contains("tool bash [FAIL]")).expect("standalone bash result");
    assert!(!result_header.contains('\u{2570}'));
}

#[test]
fn record_lines_tool_result_unpaired_unchanged() {
    let lines = record_lines(&rec(0, 0, tool_result("bash", false, "error")));
    assert!(lines[0].contains("tool bash [FAIL]"));
}

#[test]
fn transcript_lines_read_file_without_call_falls_back() {
    let records = vec![rec(0, 0, tool_result("read_file", true, "def f():\n    pass"))];
    let entries = transcript_entries(&records, &ActivityFilter::default());
    assert!(entries[0].path_hint.is_none());
    let lines = transcript_lines(&records, &ActivityFilter::default());
    assert!(lines.iter().any(|l| l.contains("read_file")));
}

#[test]
fn task_updates_are_always_shown() {
    let records = vec![rec(0, 0, SessionEvent::TaskUpdate { id: "1".into(), title: "t".into(), state: TaskState::Done })];
    let none = ActivityFilter {
        session: false,
        prompt: false,
        completion: false,
        tool_call: false,
        parse_failed: false,
        tool_result: false,
        verify: false,
        hard_fail: false,
        progress: false,
        metrics: false,
        compaction: false,
        output_filtered: false,
        read_evicted: false,
        read_deduped: false,
    };
    assert_eq!(transcript_entries(&records, &none).len(), 1);
}

#[test]
fn completion_body_is_one_line_per_content_line() {
    let b = record_body(&SessionEvent::Completion { raw: "a\nb\nc".to_string() });
    let lines = body_text_lines(&b);
    assert_eq!(lines, vec!["    a".to_string(), "    b".to_string(), "    c".to_string()]);
    assert!(body_text_lines(&RecordBody::Empty).is_empty());
}
