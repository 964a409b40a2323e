use rexymcp::doctor::{build_report, command_binary, format_report, CommandConfig};

fn no_commands() -> CommandConfig {
    CommandConfig { format: None, build: None, lint: None, test: None, lint_fix: None, format_fix: None }
}

#[test]
fn command_binary_returns_first_token() {
    assert_eq!(command_binary("cargo +nightly fmt --all"), Some("cargo"));
}

#[test]
fn command_binary_none_for_blank() {
    assert_eq!(command_binary("   "), None);
    assert_eq!(command_binary(""), None);
}

#[test]
fn command_binary_skips_leading_whitespace() {
    assert_eq!(command_binary("  \tnpm test"), Some("npm"));
}

#[test]
fn build_report_emits_three_tier1_rows() {
    let commands = no_commands();
    let report = build_report(&commands, &[]);

    assert_eq!(report.tier1.len(), 3);
    assert_eq!(report.tier1[0].binary, "cargo");
    assert_eq!(report.tier1[1].binary, "tsc");
    assert_eq!(report.tier1[2].binary, "ruff");
}

#[test]
fn build_report_skips_unset_commands_without_paths() {
    let report = build_report(&no_commands(), &[]);
    assert!(report.tier0.is_empty());
    assert!(report.tier0_ok());
}

#[test]
fn tier1_note_contains_language_and_remedy() {
    let commands = no_commands();
    let report = build_report(&commands, &[]);

    assert!(report.tier1[0].note.contains("Rust"));
    assert!(report.tier1[0].note.contains("install the Rust toolchain via https://rustup.rs"));
    assert!(report.tier1[1].note.contains("TypeScript"));
    assert!(report.tier1[1].note.contains("npm install -g typescript"));
    assert!(report.tier1[2].note.contains("Python"));
    assert!(report.tier1[2].note.contains("pip install ruff"));
}

#[test]
fn format_report_missing_tier0_shows_warning() {
    let commands = CommandConfig {
        format: None,
        build: Some("nonexistent-build-tool".into()),
        lint: None,
        test: None,
        lint_fix: None,
        format_fix: None,
    };

    let report = build_report(&commands, &[]);
    assert!(!report.tier0_ok());
    let rendered = format_report(&report);
    assert!(rendered.contains("required tool is missing"));
    assert!(rendered.contains("MISSING"));
    assert!(rendered.contains("Tier 0"));
    assert!(rendered.contains("Tier 1"));
}

#[test]
fn tier0_rows_merge_roles_for_same_binary_when_missing() {
    let commands = CommandConfig {
        format: Some("cargo fmt --all --check".into()),
        build: Some("cargo build".into()),
        lint: Some("cargo clippy".into()),
        test: Some("cargo test".into()),
        lint_fix: None,
        format_fix: None,
    };
    let report = build_report(&commands, &[]);
    assert_eq!(report.tier0.len(), 1);
    assert_eq!(report.tier0[0].binary, "cargo");
    let note = &report.tier0[0].note;
    assert!(note.starts_with("format"));
    assert!(note.contains(", build"));
    assert!(note.contains(", lint"));
    assert!(note.contains(", test"));
}

use rexymcp::doctor::{first_resolved, resolve_binary};

// The tests look tools up in system directories that every Unix has:
// `/bin` holds the `sh` shell, and `/` holds the `bin` directory.

fn dirs(v: &[&str]) -> Vec<String> {
    v.iter().map(|s| s.to_string()).collect()
}

fn sh_commands(format: Option<&str>, build: Option<&str>, lint: Option<&str>, test: Option<&str>) -> CommandConfig {
    CommandConfig {
        format: format.map(|s| s.to_string()),
        build: build.map(|s| s.to_string()),
        lint: lint.map(|s| s.to_string()),
        test: test.map(|s| s.to_string()),
        lint_fix: None,
        format_fix: None,
    }
}

#[test]
fn resolve_binary_finds_file_in_search_dir() {
    assert!(resolve_binary("sh", &dirs(&["/bin"])).is_some());
}

#[test]
fn resolve_binary_rejects_directory_of_same_name() {
    assert!(resolve_binary("bin", &dirs(&["/"])).is_none());
}

#[test]
fn resolve_binary_is_exact_not_substring() {
    assert!(resolve_binary("s", &dirs(&["/bin"])).is_none());
}

#[test]
fn resolve_binary_absolute_path_checked_directly() {
    assert_eq!(resolve_binary("/bin/sh", &[]), Some("/bin/sh".to_string()));
}

#[test]
fn resolve_binary_returns_first_matching_dir() {
    let result = resolve_binary("sh", &dirs(&["/nonexistent-dir", "/bin", "/usr/bin"]));
    assert_eq!(result, Some("/bin/sh".to_string()));
}

#[test]
fn resolve_binary_nonexistent_returns_none() {
    assert!(resolve_binary("does-not-exist", &dirs(&["/bin"])).is_none());
}

#[test]
fn build_report_dedupes_tier0_by_binary() {
    let commands = sh_commands(Some("sh -c fmt"), Some("sh -c build"), Some("sh -c lint"), Some("sh -c test"));
    let report = build_report(&commands, &dirs(&["/bin"]));
    assert_eq!(report.tier0.len(), 1);
    assert_eq!(report.tier0[0].binary, "sh");
    assert!(report.tier0[0].found);
}

#[test]
fn build_report_skips_unset_commands() {
    let report = build_report(&sh_commands(None, Some("sh -c build"), None, None), &dirs(&["/bin"]));
    assert_eq!(report.tier0.len(), 1);
    assert_eq!(report.tier0[0].binary, "sh");
}

#[test]
fn tier0_ok_true_when_all_present_ignoring_tier1() {
    let report = build_report(&sh_commands(Some("sh -c fmt"), Some("sh -c build"), None, None), &dirs(&["/bin"]));
    assert!(report.tier0_ok());
}

#[test]
fn tier0_ok_false_when_a_required_tool_missing() {
    let report = build_report(&sh_commands(None, Some("cargo build"), None, None), &dirs(&["/nonexistent-dir"]));
    assert!(!report.tier0_ok());
}

#[test]
fn format_report_contains_binary_names_and_markers() {
    let report = build_report(&sh_commands(Some("sh -c fmt"), Some("sh -c build"), None, None), &dirs(&["/bin"]));
    let rendered = format_report(&report);
    for s in ["sh", "tsc", "ruff", "ok", "MISSING", "Tier 0", "Tier 1"] {
        assert!(rendered.contains(s), "missing {s} in {rendered}");
    }
}

#[test]
fn format_report_all_present_shows_success() {
    let report = build_report(&sh_commands(Some("sh -c fmt"), Some("sh -c build"), None, None), &dirs(&["/bin"]));
    assert!(format_report(&report).contains("All required tools are present"));
}

#[test]
fn tier0_note_merges_roles_for_same_binary() {
    let commands = sh_commands(Some("sh -c fmt"), Some("sh -c build"), Some("sh -c lint"), Some("sh -c test"));
    let report = build_report(&commands, &dirs(&["/bin"]));
    assert_eq!(report.tier0.len(), 1);
    let note = &report.tier0[0].note;
    assert!(note.starts_with("format"));
    assert!(note.contains(", build"));
    assert!(note.contains(", lint"));
    assert!(note.contains(", test"));
}

#[test]
fn first_resolved_takes_first_yes_in_dir_order() {
    let ds = dirs(&["/a", "/b", "/c"]);
    assert_eq!(first_resolved("sh", &ds, false, &vec![false, true, true]), Some("/b/sh".to_string()));
    assert_eq!(first_resolved("sh", &ds, false, &vec![false, false, false]), None);
    assert_eq!(first_resolved("sh", &ds, false, &vec![false]), None);
    assert_eq!(first_resolved("sh", &[], false, &vec![true]), None);
}

#[test]
fn first_resolved_with_separator_checks_the_name_itself() {
    let ds = dirs(&["/a"]);
    assert_eq!(first_resolved("/bin/sh", &ds, true, &vec![true]), Some("/bin/sh".to_string()));
    assert_eq!(first_resolved("/bin/sh", &ds, true, &vec![false]), None);
}
