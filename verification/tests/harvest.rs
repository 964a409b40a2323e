use rexymcp::harvest::{days_from_civil, harvest_fold_checked, iso_in_range_exec, parse_iso_to_epoch_ms, HarvestTotals};
use rexymcp::transcript_json::{raw_usage_of, transcript_line};
use rexymcp::telemetry::{ledger_records, session_of_file};
use rexymcp::harvest::CacheCreation;
use serde_json::Value;

#[test]
fn parse_iso_epoch_ms_matches_known_instant() {
    let ms = parse_iso_to_epoch_ms("2026-07-09T16:00:56.539Z").unwrap();
    assert_eq!(ms, 1_783_612_856_539);
    assert_ne!(ms % 1000, 0);
}

#[test]
fn parse_iso_handles_missing_and_extra_fraction() {
    let ms = parse_iso_to_epoch_ms("2026-07-09T16:00:56Z").unwrap();
    assert_eq!(ms % 1000, 0);
    let ms = parse_iso_to_epoch_ms("2026-01-01T00:00:00.5Z").unwrap();
    assert_eq!(ms % 1000, 500);
}

#[test]
fn parse_iso_rejects_malformed() {
    assert!(parse_iso_to_epoch_ms("not-a-date").is_none());
    assert!(parse_iso_to_epoch_ms("2026-07-09").is_none());
    assert!(parse_iso_to_epoch_ms("2026-13-40T00:00:00Z").is_none());
}

#[test]
fn parse_iso_epoch_at_unix_epoch() {
    let ms = parse_iso_to_epoch_ms("1970-01-01T00:00:00.000Z").unwrap();
    assert_eq!(ms, 0);
}

#[test]
fn parse_iso_truncates_long_fraction_and_rejects_bad_digits() {
    assert_eq!(parse_iso_to_epoch_ms("1970-01-01T00:00:01.123456Z"), Some(1123));
    assert_eq!(parse_iso_to_epoch_ms("1970-01-01T00:00:01.1x"), None);
    assert_eq!(parse_iso_to_epoch_ms("1969-12-31T23:59:59Z"), None);
}

#[test]
fn days_from_civil_known_dates() {
    assert_eq!(days_from_civil(1970, 1, 1), 0);
    assert_eq!(days_from_civil(2000, 3, 1), 11017);
    assert_eq!(days_from_civil(1969, 12, 31), -1);
    assert_eq!(days_from_civil(1600, 2, 29), -135081);
}

fn fold_transcripts(files: &[(&str, &[&str])]) -> HarvestTotals {
    let mut lines = Vec::new();
    for (name, content) in files {
        let session = session_of_file(&format!("/tx/{}", name)).unwrap();
        for line in content.iter() {
            lines.push(transcript_line(&session, line).expect("a JSON line"));
        }
    }
    harvest_fold_checked(&lines).expect("totals fit")
}

#[test]
fn harvest_dedups_by_message_id() {
    let dup_line = r#"{"type":"assistant","timestamp":"2026-07-09T16:00:00.000Z","message":{"id":"msg_dup","role":"assistant","model":"opus-4-8","usage":{"input_tokens":6369,"cache_creation_input_tokens":16136,"cache_read_input_tokens":18456,"output_tokens":304}}}"#;
    let distinct_line = r#"{"type":"assistant","timestamp":"2026-07-09T16:01:00.000Z","message":{"id":"msg_other","role":"assistant","model":"opus-4-8","usage":{"input_tokens":100,"cache_creation_input_tokens":200,"cache_read_input_tokens":300,"output_tokens":50}}}"#;
    let outcome = fold_transcripts(&[(
        "session.jsonl",
        &[dup_line, dup_line, dup_line, dup_line, dup_line, distinct_line],
    )]);
    assert_eq!(outcome.messages, 2);
    assert_eq!(outcome.duplicates, 4);
    assert_eq!(outcome.records, 1);
    assert_eq!(outcome.buckets[0].input, 6469);
}

#[test]
fn harvest_buckets_by_session_model_skill() {
    let outcome = fold_transcripts(&[
        (
            "session_a.jsonl",
            &[
                r#"{"type":"assistant","timestamp":"2026-07-09T16:00:00.000Z","attributionSkill":"rexymcp:dispatch","message":{"id":"msg_1","role":"assistant","model":"opus-4-8","usage":{"input_tokens":1000,"cache_creation_input_tokens":0,"cache_read_input_tokens":0,"output_tokens":100}}}"#,
                r#"{"type":"assistant","timestamp":"2026-07-09T16:01:00.000Z","message":{"id":"msg_2","role":"assistant","model":"opus-4-8","usage":{"input_tokens":2000,"cache_creation_input_tokens":0,"cache_read_input_tokens":0,"output_tokens":200}}}"#,
                r#"{"type":"assistant","timestamp":"2026-07-09T16:02:00.000Z","attributionSkill":"rexymcp:dispatch","message":{"id":"msg_3","role":"assistant","model":"sonnet-4-8","usage":{"input_tokens":3000,"cache_creation_input_tokens":0,"cache_read_input_tokens":0,"output_tokens":300}}}"#,
            ],
        ),
        (
            "session_b.jsonl",
            &[
                r#"{"type":"assistant","timestamp":"2026-07-09T17:00:00.000Z","attributionSkill":"rexymcp:dispatch","message":{"id":"msg_4","role":"assistant","model":"opus-4-8","usage":{"input_tokens":4000,"cache_creation_input_tokens":0,"cache_read_input_tokens":0,"output_tokens":400}}}"#,
            ],
        ),
    ]);
    assert_eq!(outcome.messages, 4);
    assert_eq!(outcome.duplicates, 0);
    assert_eq!(outcome.records, 4);
    assert_eq!(outcome.sessions, 2);
    assert!(outcome.buckets.iter().any(|b| b.skill == "other" && b.session_id == "session_a"));
    let records = ledger_records(&outcome.buckets, &Some("p".to_string()));
    assert_eq!(records.len(), 4);
    assert!(records.iter().all(|r| r.project_id.as_deref() == Some("p")));
}

#[test]
fn harvest_last_ts_is_max_message_timestamp() {
    let outcome = fold_transcripts(&[(
        "session.jsonl",
        &[
            r#"{"type":"assistant","timestamp":"2026-07-09T16:00:00.000Z","attributionSkill":"rexymcp:dispatch","message":{"id":"a","role":"assistant","model":"opus-4-8","usage":{"input_tokens":10,"cache_creation_input_tokens":0,"cache_read_input_tokens":0,"output_tokens":1}}}"#,
            r#"{"type":"assistant","timestamp":"2026-07-09T16:01:00.000Z","attributionSkill":"rexymcp:dispatch","message":{"id":"b","role":"assistant","model":"opus-4-8","usage":{"input_tokens":10,"cache_creation_input_tokens":0,"cache_read_input_tokens":0,"output_tokens":1}}}"#,
        ],
    )]);
    assert_eq!(outcome.records, 1);
    // 2026-07-09T16:01:00.000Z == 1_783_612_860_000 ms
    assert_eq!(outcome.buckets[0].last_ts, 1_783_612_860_000);
}

#[test]
fn harvest_splits_cache_creation_5m_1h() {
    let line_with_split = r#"{"type":"assistant","timestamp":"2026-07-09T16:00:00.000Z","message":{"id":"msg_1","role":"assistant","model":"opus-4-8","usage":{"input_tokens":1000,"cache_read_input_tokens":3000,"output_tokens":400,"cache_creation":{"ephemeral_5m_input_tokens":500,"ephemeral_1h_input_tokens":1500}}}}"#;
    let line_fallback = r#"{"type":"assistant","timestamp":"2026-07-09T16:01:00.000Z","message":{"id":"msg_2","role":"assistant","model":"opus-4-8","usage":{"input_tokens":100,"cache_creation_input_tokens":900,"cache_read_input_tokens":200,"output_tokens":50}}}"#;
    let outcome = fold_transcripts(&[("session.jsonl", &[line_with_split, line_fallback])]);
    assert_eq!(outcome.messages, 2);
    assert_eq!(outcome.duplicates, 0);
    assert_eq!(outcome.buckets.len(), 1);
    let ledger = &outcome.buckets[0];
    assert_eq!(ledger.cache_creation_5m, 1400);
    assert_eq!(ledger.cache_creation_1h, 1500);
    assert_eq!(ledger.cache_creation, 2900);
    assert_eq!(ledger.cache_creation_5m + ledger.cache_creation_1h, ledger.cache_creation);
}

#[test]
fn harvest_is_idempotent() {
    let files: &[(&str, &[&str])] = &[(
        "session.jsonl",
        &[
            r#"{"type":"assistant","timestamp":"2026-07-09T16:00:00.000Z","attributionSkill":"rexymcp:dispatch","message":{"id":"msg_1","role":"assistant","model":"opus-4-8","usage":{"input_tokens":1000,"cache_creation_input_tokens":2000,"cache_read_input_tokens":3000,"output_tokens":400}}}"#,
        ],
    )];
    let outcome1 = fold_transcripts(files);
    assert_eq!(outcome1.messages, 1);
    let outcome2 = fold_transcripts(files);
    assert_eq!(outcome2.messages, 1);
    assert_eq!(outcome2.buckets.len(), 1);
    let ledger = &outcome2.buckets[0];
    assert_eq!(ledger.input, 1000);
    assert_eq!(ledger.cache_creation, 2000);
    assert_eq!(ledger.messages, 1);
    assert_eq!(ledger.skill, "rexymcp:dispatch");
}

#[test]
fn harvest_ignores_non_assistant_lines() {
    let outcome = fold_transcripts(&[(
        "s.jsonl",
        &[
            r#"{"type":"user","message":{"id":"u1","usage":{"input_tokens":5}}}"#,
            r#"{"type":"assistant","timestamp":"2026-07-09T16:00:00.000Z","message":{"id":"m","model":"x","usage":{"input_tokens":7,"output_tokens":1}}}"#,
        ],
    )]);
    assert_eq!(outcome.messages, 1);
    assert_eq!(outcome.buckets[0].input, 7);
    assert_eq!(outcome.buckets[0].model, "x");
}

#[test]
fn transcript_line_skips_non_json() {
    assert!(transcript_line(&"s".to_string(), "not json").is_none());
    let l = transcript_line(&"s".to_string(), r#"{"type":"user"}"#).unwrap();
    assert!(l.usage.is_none());
}

#[test]
fn raw_usage_reads_cache_split_and_guards_its_sum() {
    let v: Value = serde_json::from_str(
        r#"{"message":{"id":"m","usage":{"cache_creation":{"ephemeral_5m_input_tokens":500,"ephemeral_1h_input_tokens":1500}}}}"#,
    )
    .unwrap();
    let r = raw_usage_of(&v);
    assert!(r.has_usage);
    assert!(matches!(r.cache_creation, CacheCreation::Split { ephemeral_5m: Some(500), ephemeral_1h: Some(1500) }));
    let big: Value = serde_json::from_str(
        r#"{"message":{"id":"m","usage":{"cache_creation":{"ephemeral_5m_input_tokens":18446744073709551615,"ephemeral_1h_input_tokens":1}}}}"#,
    )
    .unwrap();
    assert!(matches!(raw_usage_of(&big).cache_creation, CacheCreation::Other));
}

#[test]
fn timestamp_range_check() {
    assert!(iso_in_range_exec("2026-07-09T16:00:56.539Z"));
    assert!(iso_in_range_exec("not a timestamp"));
    assert!(!iso_in_range_exec("9223372036854775807-01-01T00:00:00Z"));
}

#[test]
fn harvest_fold_checked_refuses_overflow() {
    let a = r#"{"type":"assistant","message":{"id":"a","model":"m","usage":{"input_tokens":18446744073709551615}}}"#;
    let b = r#"{"type":"assistant","message":{"id":"b","model":"m","usage":{"input_tokens":1}}}"#;
    let lines = vec![
        transcript_line(&"s".to_string(), a).unwrap(),
        transcript_line(&"s".to_string(), b).unwrap(),
    ];
    assert!(harvest_fold_checked(&lines).is_none());
}
