use rexymcp::dashboard::highlight::{
    body_lines, detect_syntax, diff_body_lines, first_found, syntax_for_path, is_diff_content, syntax_candidates, DiffLineKind,
};
use syntect::parsing::SyntaxSet;

#[test]
fn highlight_is_diff_content_detects_hunk_marker() {
    assert!(is_diff_content("@@ -1,3 +1,4 @@\n fn foo() {}"));
}

#[test]
fn highlight_is_diff_content_detects_classic_unified() {
    let diff = "--- a/src/main.rs\n+++ b/src/main.rs\n@@ -1 +1 @@\n-old\n+new";
    assert!(is_diff_content(diff));
}

#[test]
fn highlight_is_diff_content_detects_git_diff_header() {
    assert!(is_diff_content("diff --git a/foo.rs b/foo.rs\n--- a/foo.rs\n+++ b/foo.rs"));
}

#[test]
fn highlight_is_diff_content_rejects_plain_text() {
    assert!(!is_diff_content("just some output\nno diff markers here"));
}

#[test]
fn dashboard_is_diff_content_detects_hunk_marker() {
    assert!(is_diff_content("@@ -1,3 +1,4 @@\n fn foo() {}"));
}

#[test]
fn dashboard_is_diff_content_detects_classic_unified() {
    let diff = "--- a/src/main.rs\n+++ b/src/main.rs\n@@ -1 +1 @@\n-old\n+new";
    assert!(is_diff_content(diff));
}

#[test]
fn dashboard_is_diff_content_detects_git_diff_header() {
    assert!(is_diff_content("diff --git a/foo.rs b/foo.rs\n--- a/foo.rs\n+++ b/foo.rs"));
}

#[test]
fn dashboard_is_diff_content_rejects_plain_text() {
    assert!(!is_diff_content("just some output\nno diff markers here"));
}

#[test]
fn is_diff_content_needs_both_headers() {
    assert!(!is_diff_content("--- only the old side\nnothing else"));
    assert!(is_diff_content("  diff --git a b"));
}

#[test]
fn dashboard_diff_body_lines_renders_patch_tool_output() {
    let output = "\u{2713} patched src/main.rs (1 hunk)\n\n--- src/main.rs\n+++ src/main.rs\n@@ -1,3 +1,3 @@\n fn main() {\n-    old();\n+    new();\n }";
    let lines = diff_body_lines(output);
    assert!(lines.iter().any(|(t, k)| t.contains("+    new()") && *k == DiffLineKind::Added));
    assert!(lines.iter().any(|(t, k)| t.contains("-    old()") && *k == DiffLineKind::Removed));
    assert!(lines.iter().any(|(t, k)| t.contains("@@ -1,3 +1,3 @@") && *k == DiffLineKind::Hunk));
}

#[test]
fn highlight_diff_body_lines_renders_patch_tool_output() {
    let output = "\u{2713} patched src/main.rs (1 hunk)\n\n--- src/main.rs\n+++ src/main.rs\n@@ -1,3 +1,3 @@\n fn main() {\n-    old();\n+    new();\n }";
    let lines = diff_body_lines(output);
    assert!(lines.iter().any(|(t, k)| t.contains("+    new()") && *k == DiffLineKind::Added));
    assert!(lines.iter().any(|(t, k)| t.contains("-    old()") && *k == DiffLineKind::Removed));
    assert!(lines.iter().any(|(t, k)| t.contains("@@ -1,3 +1,3 @@") && *k == DiffLineKind::Hunk));
}

#[test]
fn dashboard_diff_body_lines_does_not_highlight_triple_plus_minus_as_change() {
    let diff = "--- a/foo.rs\n+++ b/foo.rs\n@@ -1 +1 @@\n-old\n+new";
    let lines = diff_body_lines(diff);
    assert_eq!(lines[0], ("    --- a/foo.rs".to_string(), DiffLineKind::Context));
    assert_eq!(lines[1], ("    +++ b/foo.rs".to_string(), DiffLineKind::Context));
    assert_eq!(lines.len(), 5);
}

#[test]
fn highlight_diff_body_lines_does_not_highlight_triple_plus_minus_as_change() {
    let diff = "--- a/foo.rs\n+++ b/foo.rs\n@@ -1 +1 @@\n-old\n+new";
    let lines = diff_body_lines(diff);
    assert_eq!(lines[0], ("    --- a/foo.rs".to_string(), DiffLineKind::Context));
    assert_eq!(lines[1], ("    +++ b/foo.rs".to_string(), DiffLineKind::Context));
    assert_eq!(lines.len(), 5);
}

#[test]
fn diff_body_lines_caps_and_counts_the_rest() {
    let body: Vec<String> = (0..25).map(|i| format!("+l{i}")).collect();
    let lines = diff_body_lines(&body.join("\n"));
    assert_eq!(lines.len(), 21);
    assert_eq!(lines[20], ("    \u{2026} (5 more lines)".to_string(), DiffLineKind::More));
}

#[test]
fn body_lines_indents_and_caps() {
    assert_eq!(body_lines("a\nb"), vec!["    a", "    b"]);
    assert_eq!(body_lines(""), vec!["    "]);
    let long: Vec<String> = (0..23).map(|i| i.to_string()).collect();
    let out = body_lines(&long.join("\n"));
    assert_eq!(out.len(), 21);
    assert_eq!(out[19], "    19");
    assert_eq!(out[20], "    \u{2026} (3 more lines)");
}

#[test]
fn syntax_candidates_follow_content_markers() {
    assert_eq!(syntax_candidates("{\"a\": 1}"), vec!["json"]);
    assert_eq!(syntax_candidates("[package]\nname = \"x\""), vec!["json", "toml"]);
    assert_eq!(syntax_candidates("pub fn main() { let mut x = 1; }"), vec!["rs"]);
    assert!(syntax_candidates("just some plain text output").is_empty());
}

#[test]
fn dashboard_detect_syntax_identifies_json() {
    let ss = SyntaxSet::load_defaults_newlines();
    let syntax = detect_syntax(r#"{"key": "value", "n": 42}"#, &ss);
    assert!(syntax.is_some(), "should detect JSON");
    assert!(syntax.unwrap().name.to_lowercase().contains("json"));
}

#[test]
fn highlight_detect_syntax_identifies_json() {
    let ss = SyntaxSet::load_defaults_newlines();
    let syntax = detect_syntax(r#"{"key": "value", "n": 42}"#, &ss);
    assert!(syntax.is_some(), "should detect JSON");
    assert!(syntax.unwrap().name.to_lowercase().contains("json"));
}

#[test]
fn dashboard_detect_syntax_identifies_rust() {
    let ss = SyntaxSet::load_defaults_newlines();
    let rust = "pub fn main() {\n    let x = 1;\n    match x {\n        _ => {}\n    }\n}";
    let syntax = detect_syntax(rust, &ss);
    assert!(syntax.is_some(), "should detect Rust");
    assert!(syntax.unwrap().name.to_lowercase().contains("rust"));
}

#[test]
fn highlight_detect_syntax_identifies_rust() {
    let ss = SyntaxSet::load_defaults_newlines();
    let rust = "pub fn main() {\n    let x = 1;\n    match x {\n        _ => {}\n    }\n}";
    let syntax = detect_syntax(rust, &ss);
    assert!(syntax.is_some(), "should detect Rust");
    assert!(syntax.unwrap().name.to_lowercase().contains("rust"));
}

#[test]
fn dashboard_detect_syntax_returns_none_for_plain_text() {
    let ss = SyntaxSet::load_defaults_newlines();
    assert!(detect_syntax("just some plain text output", &ss).is_none());
}

#[test]
fn highlight_detect_syntax_returns_none_for_plain_text() {
    let ss = SyntaxSet::load_defaults_newlines();
    assert!(detect_syntax("just some plain text output", &ss).is_none());
}

#[test]
fn first_found_prefers_first_line_lookup() {
    assert_eq!(first_found(Some(1), &vec![Some(2), Some(3)]), Some(1));
}

#[test]
fn first_found_takes_earliest_extension_hit() {
    assert_eq!(first_found(None, &vec![None, Some(2), Some(3)]), Some(2));
    assert_eq!(first_found::<u8>(None, &vec![None, None]), None);
    assert_eq!(first_found::<u8>(None, &Vec::new()), None);
}

#[test]
fn detect_syntax_uses_shebang_first_line() {
    let ss = SyntaxSet::load_defaults_newlines();
    let syntax = detect_syntax("#!/usr/bin/env python3\nx = 1\n", &ss).expect("shebang detected");
    assert!(syntax.name.to_lowercase().contains("python"), "detected: {}", syntax.name);
}

#[test]
fn syntax_for_path_goes_by_extension() {
    let ss = SyntaxSet::load_defaults_newlines();
    let s = syntax_for_path("src/main.rs", &ss).expect("rust by extension");
    assert!(s.name.to_lowercase().contains("rust"), "detected: {}", s.name);
    assert!(syntax_for_path("Makefile-without-ext", &ss).is_none());
}
