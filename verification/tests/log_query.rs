use rexymcp::log_query::{
    event_type_str, get_turn, search, tail, tail_start, LogEntry, LogEventKind, SearchFilter, SEARCH_DEFAULT_LIMIT,
    SEARCH_MAX_LIMIT, TAIL_DEFAULT_N, TAIL_MAX_N,
};

fn entry(kind: LogEventKind, turn: usize, tool: Option<&str>, body: &str) -> LogEntry {
    LogEntry {
        turn,
        kind,
        tool: tool.map(|t| t.to_string()),
        json: Some(format!(
            "{{\"ts\":{},\"turn\":{},\"event\":{{\"type\":\"{}\",{}}}}}",
            1_717_000_000_000u64 + turn as u64,
            turn,
            event_type_str(kind),
            body
        )),
    }
}

fn fixture_records() -> Vec<LogEntry> {
    vec![
        entry(LogEventKind::SessionStart, 0, None, "\"session_id\":\"s1\",\"model\":\"test\",\"phase\":\"p1\""),
        entry(LogEventKind::Prompt, 1, None, "\"rendered\":\"Do something\""),
        entry(LogEventKind::Completion, 1, None, "\"raw\":\"read_file src/main.rs\""),
        entry(LogEventKind::Parsed, 1, Some("read_file"), "\"tool_call\":{\"name\":\"read_file\",\"arguments\":{\"path\":\"src/main.rs\"}}"),
        entry(LogEventKind::ToolResult, 1, Some("read_file"), "\"name\":\"read_file\",\"succeeded\":true,\"output_preview\":\"fn main() {}\""),
        entry(LogEventKind::Parsed, 2, Some("write_file"), "\"tool_call\":{\"name\":\"write_file\",\"arguments\":{\"path\":\"src/lib.rs\"}}"),
        entry(LogEventKind::ToolResult, 2, Some("write_file"), "\"name\":\"write_file\",\"succeeded\":true,\"output_preview\":\"ok\""),
        entry(LogEventKind::ParseFailed, 3, None, "\"failure\":{\"raw\":\"bad\",\"feedback\":\"no tool\"}"),
        entry(LogEventKind::Verify, 3, None, "\"diagnostics\":[{\"path\":\"src/lib.rs\",\"line\":1,\"message\":\"unused\"}]"),
        entry(LogEventKind::HardFail, 3, None, "\"reason\":\"budget exceeded\""),
        entry(LogEventKind::Progress, 3, None, "\"turn\":3,\"stage\":\"verify\",\"files_changed\":[],\"message\":\"turn 3 done\""),
        entry(LogEventKind::SessionEnd, 3, None, "\"status\":\"fail\",\"turns\":3"),
    ]
}

fn pad_to(records: &mut Vec<LogEntry>, n: usize) {
    while records.len() < n {
        let turn = records.len();
        records.push(entry(LogEventKind::Prompt, turn, None, "\"rendered\":\"pad\""));
    }
}

fn no_filter() -> SearchFilter<'static> {
    SearchFilter { event_type: None, tool_name: None, query_text: None }
}

#[test]
fn event_type_str_round_trips_all_variants() {
    let records = fixture_records();
    let expected = vec![
        "session_start",
        "prompt",
        "completion",
        "parsed",
        "tool_result",
        "parsed",
        "tool_result",
        "parse_failed",
        "verify",
        "hard_fail",
        "progress",
        "session_end",
    ];
    for (i, record) in records.iter().enumerate() {
        assert_eq!(event_type_str(record.kind), expected[i], "mismatch at record {}", i);
    }
}

#[test]
fn search_no_filters_returns_first_limit_records() {
    let records = fixture_records();
    let result = search(&records, &no_filter(), 3);
    assert_eq!(result.len(), 3);
    assert_eq!(records[result[0]].turn, 0);
    assert_eq!(records[result[1]].turn, 1);
    assert_eq!(records[result[2]].turn, 1);
}

#[test]
fn search_event_type_filter() {
    let records = fixture_records();
    let filter = SearchFilter { event_type: Some("tool_result"), tool_name: None, query_text: None };
    let result = search(&records, &filter, 50);
    assert_eq!(result.len(), 2);
    assert_eq!(records[result[0]].kind, LogEventKind::ToolResult);
    assert_eq!(records[result[1]].kind, LogEventKind::ToolResult);
}

#[test]
fn search_tool_name_filter_matches_parsed_and_tool_result() {
    let records = fixture_records();
    let filter = SearchFilter { event_type: None, tool_name: Some("read_file"), query_text: None };
    let result = search(&records, &filter, 50);
    assert_eq!(result.len(), 2);
    assert_eq!(records[result[0]].kind, LogEventKind::Parsed);
    assert_eq!(records[result[1]].kind, LogEventKind::ToolResult);
}

#[test]
fn search_tool_name_filter_rejects_non_tool_events() {
    let records = fixture_records();
    let filter = SearchFilter { event_type: None, tool_name: Some("read_file"), query_text: None };
    let result = search(&records, &filter, 50);
    for &i in &result {
        match records[i].kind {
            LogEventKind::Parsed | LogEventKind::ToolResult => {}
            other => panic!("tool_name filter should only match Parsed or ToolResult, got {:?}", other),
        }
    }
}

#[test]
fn search_query_text_substring() {
    let records = fixture_records();
    let filter = SearchFilter { event_type: None, tool_name: None, query_text: Some("fn main()") };
    let result = search(&records, &filter, 50);
    assert!(!result.is_empty());
}

#[test]
fn search_combined_filters_and() {
    let records = fixture_records();
    let filter = SearchFilter { event_type: Some("tool_result"), tool_name: Some("write_file"), query_text: None };
    let result = search(&records, &filter, 50);
    assert_eq!(result.len(), 1);
    assert_eq!(records[result[0]].kind, LogEventKind::ToolResult);
    assert_eq!(records[result[0]].tool.as_deref(), Some("write_file"));
}

#[test]
fn search_limit_clamped_to_max() {
    let mut records = fixture_records();
    pad_to(&mut records, 60);
    let result = search(&records, &no_filter(), 1000);
    assert_eq!(result.len(), SEARCH_MAX_LIMIT);
}

#[test]
fn search_limit_zero_uses_default() {
    let mut records = fixture_records();
    pad_to(&mut records, 30);
    let result = search(&records, &no_filter(), 0);
    assert_eq!(result.len(), SEARCH_DEFAULT_LIMIT);
}

#[test]
fn search_limit_small() {
    let records = fixture_records();
    let result = search(&records, &no_filter(), 2);
    assert_eq!(result.len(), 2);
}

#[test]
fn search_record_without_json_passes_text_filter() {
    let mut records = fixture_records();
    records[1].json = None;
    let filter = SearchFilter { event_type: None, tool_name: None, query_text: Some("no such text") };
    let result = search(&records, &filter, 50);
    assert_eq!(result, vec![1]);
}

#[test]
fn tail_returns_last_n_in_order() {
    let records = fixture_records();
    let result = tail(&records, 3);
    assert_eq!(result, vec![9, 10, 11]);
    assert_eq!(records[result[0]].turn, 3);
    assert_eq!(records[result[1]].turn, 3);
    assert_eq!(records[result[2]].turn, 3);
}

#[test]
fn tail_default_n_when_zero() {
    let records = fixture_records();
    let result = tail(&records, 0);
    assert_eq!(result.len(), TAIL_DEFAULT_N);
    assert_eq!(result[0], 2);
}

#[test]
fn tail_clamped_to_max() {
    let records = fixture_records();
    let result = tail(&records, 1000);
    assert!(result.len() <= TAIL_MAX_N);
    assert_eq!(result.len(), records.len());
    let mut many = fixture_records();
    pad_to(&mut many, 80);
    assert_eq!(tail(&many, 1000).len(), TAIL_MAX_N);
    assert_eq!(tail_start(80, 1000), 30);
}

#[test]
fn tail_more_than_available_returns_all() {
    let records = fixture_records();
    let result = tail(&records, 100);
    assert_eq!(result.len(), records.len());
}

#[test]
fn get_turn_returns_all_events_for_turn() {
    let records = fixture_records();
    let result = get_turn(&records, 3);
    assert!(result.len() > 1);
    for &i in &result {
        assert_eq!(records[i].turn, 3);
    }
    assert_eq!(result, vec![7, 8, 9, 10, 11]);
}

#[test]
fn get_turn_empty_when_no_records() {
    let records = fixture_records();
    let result = get_turn(&records, 999);
    assert!(result.is_empty());
}

#[test]
fn get_turn_turn_zero() {
    let records = fixture_records();
    let result = get_turn(&records, 0);
    assert_eq!(result.len(), 1);
    assert_eq!(records[result[0]].kind, LogEventKind::SessionStart);
}
