use rexymcp::finalize::{
    append_entry, baseline_entry, command_output_tails, files_changed_list, flip_readme_row,
    flip_status_to_review, gate_line, git_add_command, head_from_output, is_pre_review_status,
    status_is_pre_review, CommandOutputs, FileChange,
};

#[test]
fn pre_review_predicate_accepts_todo() {
    assert!(is_pre_review_status("**Status:** todo"));
    assert!(is_pre_review_status("**Status:** todo with a note"));
}

#[test]
fn pre_review_predicate_accepts_in_progress() {
    assert!(is_pre_review_status("**Status:** in-progress"));
    assert!(is_pre_review_status(
        "**Status:** in-progress (bounced — see bugs/bug-04-1.md)"
    ));
}

#[test]
fn pre_review_predicate_rejects_review_and_done() {
    assert!(!is_pre_review_status("**Status:** review"));
    assert!(!is_pre_review_status("**Status:** done"));
    assert!(!is_pre_review_status("**Status:** review (bounced — …)"));
    assert!(!is_pre_review_status("**Status:** done (bounced — …)"));
}

#[test]
fn pre_review_predicate_rejects_lookalikes() {
    assert!(!is_pre_review_status("**Status:** todoish"));
    assert!(!is_pre_review_status("**Status:** in-progressish"));
    assert!(!is_pre_review_status("**Status:** todo-"));
    assert!(!is_pre_review_status("**Status:** in-progress-"));
}

#[test]
fn pre_review_predicate_ignores_prose() {
    let doc = "This work is in-progress as of today.\n\n**Status:** review\n";
    assert!(!status_is_pre_review(doc));
}

#[test]
fn pre_review_predicate_matches_todo_in_doc() {
    let doc = "# Phase 01\n\n**Status:** todo\n\n## Goal\n\nDo it.\n";
    assert!(status_is_pre_review(doc));
}

#[test]
fn pre_review_predicate_matches_in_progress_in_doc() {
    let doc = "# Phase 01\n\n**Status:** in-progress\n\n## Goal\n\nDo it.\n";
    assert!(status_is_pre_review(doc));
}

#[test]
fn flip_status_to_review_flips_todo() {
    let doc = "# Phase 01\n\n**Status:** todo\n\n## Goal\n\nDo it.\n";
    let result = flip_status_to_review(doc);
    assert!(result.contains("**Status:** review"));
    assert!(!result.contains("**Status:** todo"));
    assert!(result.contains("## Goal"));
}

#[test]
fn flip_status_to_review_changes_only_status_line() {
    let doc = "# Phase 01\n\n**Status:** in-progress\n\n## Goal\n\nDo it.\n";
    let result = flip_status_to_review(doc);
    assert!(result.contains("**Status:** review"));
    assert!(!result.contains("**Status:** in-progress"));
    assert!(result.contains("## Goal"));
}

#[test]
fn flip_status_to_review_leaves_other_lines_byte_identical() {
    let doc = "# Phase 01\n\n**Status:** in-progress\n\n## Goal\n\nDo it.\n";
    let expected = "# Phase 01\n\n**Status:** review\n\n## Goal\n\nDo it.\n";
    assert_eq!(flip_status_to_review(doc), expected);
}

#[test]
fn flip_status_to_review_drops_bounce_note() {
    let doc = "# Phase 04\n\n**Status:** in-progress (bounced — see bugs/bug-04-1.md)\n\n## Goal\n\nDo it.\n";
    let expected = "# Phase 04\n\n**Status:** review\n\n## Goal\n\nDo it.\n";
    assert_eq!(flip_status_to_review(doc), expected);
}

#[test]
fn flip_status_to_review_keeps_indent_and_replaces_first_only() {
    let doc = "  **Status:** todo\n**Status:** todo";
    assert_eq!(flip_status_to_review(doc), "  **Status:** review\n**Status:** todo");
}

#[test]
fn flip_readme_row_flips_matching_row_only() {
    let readme = "| 03a | Server-authored finalize ([phase-03a-server-authored-finalize.md](phase-03a-server-authored-finalize.md)) | in-progress |\n| 03b | Retire executor gate ([phase-03b-retire-gate.md](phase-03b-retire-gate.md)) | in-progress |\n";
    let result = flip_readme_row(readme, "phase-03a-server-authored-finalize.md");
    let updated = result.expect("should have found and flipped the row");
    let lines: Vec<&str> = updated.lines().collect();
    assert_eq!(
        lines[0],
        "| 03a | Server-authored finalize ([phase-03a-server-authored-finalize.md](phase-03a-server-authored-finalize.md)) | review      |"
    );
    assert!(!lines[0].contains("||"));
    assert!(!lines[0].contains("in-progress"));
    assert!(lines[1].contains("| in-progress |"));
}

#[test]
fn flip_readme_row_flips_todo_cell() {
    let readme = "| 01 | Phase ([phase-01.md](phase-01.md)) | todo |\n";
    let result = flip_readme_row(readme, "phase-01.md");
    assert!(result.is_some());
    let new = result.unwrap();
    assert_eq!(
        new.lines().next().unwrap(),
        "| 01 | Phase ([phase-01.md](phase-01.md)) | review |"
    );
    assert!(!new.contains("||"));
    assert!(!new.contains("| todo |"));
}

#[test]
fn flip_readme_row_returns_none_when_already_review() {
    let readme = "| 03a | Phase ([phase-03a.md](phase-03a.md)) | review |\n";
    let result = flip_readme_row(readme, "phase-03a.md");
    assert!(result.is_none());
}

fn last_cell_of(line: &str) -> &str {
    line.rsplit('|').nth(1).unwrap_or("").trim()
}

#[test]
fn flip_readme_row_returns_none_when_row_absent() {
    let readme = "| 01 | Phase ([phase-01.md](phase-01.md)) | in-progress |\n";
    let result = flip_readme_row(readme, "phase-99.md");
    assert!(result.is_none());
}

#[test]
fn flip_readme_row_flips_bounced_row() {
    let readme = "| 04 | Fix ([phase-04.md](phase-04.md)) | in-progress (bounced, bug-04-1) |\n| 05 | Next ([phase-05.md](phase-05.md)) | review |\n";
    let result = flip_readme_row(readme, "phase-04.md");
    let updated = result.expect("should have found and flipped the bounced row");
    assert!(updated.contains("phase-04.md"));
    let lines: Vec<&str> = updated.lines().collect();
    assert_eq!(last_cell_of(lines[0]), "review", "{lines:?}");
    assert!(!lines[0].contains("||"));
    assert_eq!(lines[1], "| 05 | Next ([phase-05.md](phase-05.md)) | review |");
}

#[test]
fn flip_readme_row_emits_single_trailing_pipe() {
    let readme = "| 02 | Structured output ([phase-02-structured-tool-output.md](phase-02-structured-tool-output.md)) | in-progress |\n";
    let result = flip_readme_row(readme, "phase-02-structured-tool-output.md");
    let updated = result.expect("row should flip");
    assert_eq!(
        updated.lines().next().unwrap(),
        "| 02 | Structured output ([phase-02-structured-tool-output.md](phase-02-structured-tool-output.md)) | review      |"
    );
    assert!(!updated.contains("||"), "{updated}");
}

#[test]
fn flip_readme_row_skips_mentioning_row_without_pending_cell() {
    let readme = "| a | phase-01.md | done |\n| b | phase-01.md | todo |";
    assert_eq!(
        flip_readme_row(readme, "phase-01.md").unwrap(),
        "| a | phase-01.md | done |\n| b | phase-01.md | review |"
    );
}

#[test]
fn append_entry_separates_with_blank_line() {
    assert_eq!(append_entry("a\n", "### E\n"), "a\n\n### E\n");
}

#[test]
fn append_entry_ends_with_single_newline() {
    let result = append_entry("a\n", "### E\n");
    assert!(result.ends_with('\n'));
    assert!(!result.ends_with("\n\n"));
}

#[test]
fn append_entry_collapses_existing_trailing_blanks() {
    assert_eq!(append_entry("a\n\n\n", "### E\n"), "a\n\n### E\n");
}

#[test]
fn flip_readme_row_preserves_cell_width() {
    let row = "| 02  | lexer (source → `Token[]`, scan errors)                 | todo        |\n";
    let result = flip_readme_row(row, "lexer");
    let updated = result.expect("should find and flip the row");
    let line = updated.lines().next().unwrap();
    assert_eq!(line.chars().count(), row.trim_end().chars().count());
    let last_cell = line.rsplit('|').nth(1).unwrap().trim();
    assert_eq!(last_cell, "review");
}

#[test]
fn flip_readme_row_preserves_wide_in_progress_width() {
    let row = "| 03a | Server-authored finalize | in-progress |\n";
    let result = flip_readme_row(row, "Server-authored");
    let updated = result.expect("should find and flip the row");
    let line = updated.lines().next().unwrap();
    assert_eq!(line.chars().count(), row.trim_end().chars().count());
    let last_cell = line.rsplit('|').nth(1).unwrap().trim();
    assert_eq!(last_cell, "review");
}

#[test]
fn flip_readme_row_narrow_cell_does_not_truncate() {
    let row = "|04|thing|todo|\n";
    let result = flip_readme_row(row, "thing");
    let updated = result.expect("should find and flip the row");
    let line = updated.lines().next().unwrap();
    let last_cell = line.rsplit('|').nth(1).unwrap().trim();
    assert_eq!(last_cell, "review", "got '{last_cell}'");
}

#[test]
fn flip_readme_row_preserves_trailing_newline() {
    let row = "| 01 | Phase | todo |\n";
    let result = flip_readme_row(row, "Phase");
    let updated = result.expect("should find and flip the row");
    assert!(updated.ends_with('\n'));
}

#[test]
fn flip_readme_row_without_trailing_newline_stays_without() {
    let row = "| 01 | Phase | todo |";
    let result = flip_readme_row(row, "Phase");
    let updated = result.expect("should find and flip the row");
    assert!(!updated.ends_with('\n'));
}

#[test]
fn golden_roundtrip_flip_then_append_produces_wellformed_doc() {
    let doc = "# Phase 01: Well-formed bookkeeping output\n\n**Milestone:** M42 — Bookkeeping Format Hygiene\n**Status:** in-progress\n**Depends on:** none\n\n## Update Log\n\n<!-- entries appended below this line -->\n\n### Update — 2026-07-24 23:09 (started)\n\nStarted implementation by AI executor.\n";
    let entry = "### Update — 2026-07-24 23:16 (complete, server-authored)\n\n**Summary:** Done.\n\n**Acceptance criteria:** all ticked above.\n\n**Notes:** server-authored completion entry.\n";

    let after_flip = flip_status_to_review(doc);
    assert!(after_flip.contains("**Status:** review"));
    assert!(!after_flip.contains("**Status:** in-progress"));

    let final_doc = append_entry(&after_flip, entry);
    assert!(final_doc.contains("by AI executor.\n\n### Update — 2026-07-24 23:16"));
    assert!(final_doc.ends_with('\n'));
    assert!(!final_doc.ends_with("\n\n"));
    assert!(final_doc.contains("**Status:** review\n"));
    let expected = "# Phase 01: Well-formed bookkeeping output\n\n**Milestone:** M42 — Bookkeeping Format Hygiene\n**Status:** review\n**Depends on:** none\n\n## Update Log\n\n<!-- entries appended below this line -->\n\n### Update — 2026-07-24 23:09 (started)\n\nStarted implementation by AI executor.\n\n### Update — 2026-07-24 23:16 (complete, server-authored)\n\n**Summary:** Done.\n\n**Acceptance criteria:** all ticked above.\n\n**Notes:** server-authored completion entry.\n";
    assert_eq!(final_doc, expected);
}

fn outputs(format: Option<&str>, build: Option<&str>, lint: Option<&str>, test: Option<&str>) -> CommandOutputs {
    CommandOutputs {
        format: format.map(str::to_string),
        build: build.map(str::to_string),
        lint: lint.map(str::to_string),
        test: test.map(str::to_string),
    }
}

#[test]
fn gate_line_marks_skipped_gates() {
    let o = outputs(Some("clean"), Some("ok"), None, Some("ok"));
    assert_eq!(gate_line(&o), "format=run, build=run, lint=skipped, test=run");
}

#[test]
fn command_output_tails_labels_sections() {
    let o = outputs(Some("clean"), None, None, Some("running 5 tests\nok"));
    assert_eq!(command_output_tails(&o), "FORMAT\nclean\n\nTEST\nrunning 5 tests\nok");
    assert_eq!(command_output_tails(&CommandOutputs::default()), "(no command output captured)");
}

#[test]
fn files_changed_list_renders_bullets() {
    let files = vec![
        FileChange { path: "src/lib.rs".into(), change_summary: "+5 -2".into() },
        FileChange { path: "src/util.rs".into(), change_summary: "+10 -0".into() },
    ];
    assert_eq!(files_changed_list(&files), "- `src/lib.rs` — +5 -2\n- `src/util.rs` — +10 -0");
    assert_eq!(files_changed_list(&vec![]), "(none)");
}

#[test]
fn baseline_entry_includes_executor_line_from_model() {
    let entry = baseline_entry("Phase complete.", &CommandOutputs::default(), &vec![], "1970-01-01 00:00", "abc123", "Qwen/Qwen3.6-27B-FP8");
    assert!(entry.contains("**Executor:** Qwen/Qwen3.6-27B-FP8"), "{entry}");
}

#[test]
fn baseline_entry_executor_line_ignores_self_report() {
    let entry = baseline_entry("**Executor:** Sonnet-4.5 self-report — all done", &CommandOutputs::default(), &vec![], "1970-01-01 00:00", "abc123", "Qwen/Qwen3.6-27B-FP8");
    let executor_line = entry.lines().find(|l| l.starts_with("**Executor:**")).unwrap();
    assert!(executor_line.contains("Qwen/Qwen3.6-27B-FP8"));
    for line in entry.lines().filter(|l| !l.contains("**Summary:**")) {
        assert!(!line.contains("Sonnet-4.5 self-report"), "{line}");
    }
}

#[test]
fn baseline_entry_blank_line_before_files_list() {
    let files = vec![FileChange { path: "src/lib.rs".into(), change_summary: "+5 -2".into() }];
    let entry = baseline_entry("Done.", &CommandOutputs::default(), &files, "1970-01-01 00:00", "abc123", "test-model");
    assert!(entry.contains("**Files changed:**\n\n- "), "{entry:?}");
}

#[test]
fn baseline_entry_full_text() {
    let entry = baseline_entry("  ", &outputs(None, Some("ok"), None, None), &vec![], "1970-01-01 00:16", "abcdef", "m");
    assert_eq!(entry, "### Update — 1970-01-01 00:16 (complete, server-authored)\n\n**Summary:** (no summary provided by executor)\n\n**Executor:** m\n\n**Gates:** format=skipped, build=run, lint=skipped, test=skipped\n\n**Command output tails:**\n\n```\nBUILD\nok\n```\n\n**Files changed:**\n\n(none)\n\n**Commit:** abcdef\n\n**Notes:** server-authored completion entry (executor no longer owns the bookkeeping tail; see M27 phase-03).\n");
}

#[test]
fn head_from_output_trims_or_reports_unknown() {
    assert_eq!(head_from_output(true, "abcdef1234567890\n"), "abcdef1234567890");
    assert_eq!(head_from_output(false, "fatal"), "unknown");
}

#[test]
fn git_add_command_names_each_doc() {
    let paths = vec!["a/phase-03a.md".to_string(), "a/README.md".to_string()];
    assert_eq!(git_add_command(&paths), "git add -- a/phase-03a.md a/README.md");
}

#[test]
fn flip_status_keeps_crlf_line_endings() {
    let doc = "# Phase\r\n\r\n  **Status:** todo\r\n\r\nBody\r\n";
    assert_eq!(flip_status_to_review(doc), "# Phase\r\n\r\n  **Status:** review\r\n\r\nBody\r\n");
}

#[test]
fn flip_status_leaves_doc_without_pre_review_line_untouched() {
    let doc = "# Phase\r\n**Status:** review\r\nno trailing newline";
    assert_eq!(flip_status_to_review(doc), doc);
}
