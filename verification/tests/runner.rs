use rexymcp::runner::{
    collect_input_warnings, derive_phase_id, extract_section, milestone_id_from_path, parse_phase_doc,
};

#[test]
fn parse_positive_fixture() {
    let md = "# Phase 01: Example\n\n**Tags:** language=rust, kind=feature, size=m\n\n## Goal\n\nDo the thing.\n\n## Acceptance criteria\n\n- [ ] It works.\n\n## Out of scope\n\nNothing.\n";

    let fields = parse_phase_doc(md);
    assert_eq!(fields.goal, "Do the thing.");
    assert_eq!(fields.acceptance_criteria, "- [ ] It works.");
    assert_eq!(fields.tags, vec!["language=rust", "kind=feature", "size=m"]);
}

#[test]
fn parse_missing_goal_yields_empty() {
    let md = "# Phase 01\n\n## Acceptance criteria\n\n- [ ] It works.\n";
    let fields = parse_phase_doc(md);
    assert_eq!(fields.goal, "");
    assert_eq!(fields.acceptance_criteria, "- [ ] It works.");
}

#[test]
fn parse_missing_tags_yields_empty_vec() {
    let md = "# Phase 01\n\n## Goal\n\nDo it.\n";
    let fields = parse_phase_doc(md);
    assert_eq!(fields.tags, Vec::<String>::new());
}

#[test]
fn parse_spaced_tags_line_splits_cleanly() {
    let md = "**Tags:**   language=rust  ,   kind=feature  ,  size=m  \n\n## Goal\n\nDo it.\n";
    let fields = parse_phase_doc(md);
    assert_eq!(fields.tags, vec!["language=rust", "kind=feature", "size=m"]);
}

#[test]
fn parse_goal_followed_immediately_by_next_heading() {
    let md = "## Goal\n\n## Acceptance criteria\n\n- [ ] It works.\n";
    let fields = parse_phase_doc(md);
    assert_eq!(fields.goal, "");
}

#[test]
fn extract_section_stops_at_next_heading_and_trims() {
    let md = "## Goal\n\n  first line\nsecond\n\n## Other\nignored\n";
    assert_eq!(extract_section(md, "Goal"), "first line\nsecond");
    assert_eq!(extract_section(md, "Missing"), "");
}

#[test]
fn derive_phase_id_standard() {
    assert_eq!(derive_phase_id("phase-01-phase-runner.md"), "phase-01");
}

#[test]
fn derive_phase_id_non_matching() {
    assert_eq!(derive_phase_id("weird-name.md"), "weird-name");
}

#[test]
fn milestone_id_from_path_takes_parent_dir_prefix() {
    assert_eq!(
        milestone_id_from_path("docs/dev/milestones/M5-mcp-server/phase-01.md"),
        Some("M5-mcp-server".to_string())
    );
    assert_eq!(milestone_id_from_path("docs/dev/scratch/phase-01.md"), None);
}

#[test]
fn collect_input_warnings_empty_when_all_present() {
    let warnings = collect_input_warnings("s", "g", "a");
    assert!(warnings.is_empty());
}

#[test]
fn collect_input_warnings_flags_blank_standards() {
    let warnings = collect_input_warnings("", "g", "a");
    assert_eq!(warnings.len(), 1);
    assert!(warnings[0].contains("STANDARDS"));
}

#[test]
fn collect_input_warnings_flags_whitespace_only_standards() {
    let warnings = collect_input_warnings("   \n", "g", "a");
    assert_eq!(warnings.len(), 1);
    assert!(warnings[0].contains("STANDARDS"));
}

#[test]
fn collect_input_warnings_flags_blank_goal() {
    let warnings = collect_input_warnings("s", "", "a");
    assert_eq!(warnings.len(), 1);
    assert!(warnings[0].contains("Goal"));
}

#[test]
fn collect_input_warnings_flags_blank_criteria() {
    let warnings = collect_input_warnings("s", "g", "");
    assert_eq!(warnings.len(), 1);
    assert!(warnings[0].contains("Acceptance criteria"));
}

#[test]
fn collect_input_warnings_multiple_blank_inputs() {
    let warnings = collect_input_warnings("", "", "");
    assert_eq!(warnings.len(), 3);
}

#[test]
fn resolve_telemetry_dir_defers_to_config_when_flag_absent() {
    assert_eq!(rexymcp::runner::resolve_telemetry_dir(Some("/tmp/telemetry"), false), Some("/tmp/telemetry"));
    assert_eq!(rexymcp::runner::resolve_telemetry_dir(None, false), None);
}

#[test]
fn resolve_telemetry_dir_forces_none_when_flag_present() {
    assert_eq!(rexymcp::runner::resolve_telemetry_dir(Some("/tmp/telemetry"), true), None);
    assert_eq!(rexymcp::runner::resolve_telemetry_dir(None, true), None);
}
