use rexymcp::dashboard::milestone::{
    capitalize_word, choose_milestone_dir, format_milestone_name, is_phase_doc_for, milestone_number,
    milestone_savings, phase_doc_is_done, project_savings, resolve_milestone_dir, DirFile, MilestoneCandidate,
    MilestoneDir, RunTokens,
};

#[test]
fn format_milestone_name_capitalizes_words() {
    assert_eq!(format_milestone_name("M15-dashboard-polish-2"), "M15 \u{2014} Dashboard Polish 2");
    assert_eq!(format_milestone_name("M7-scorecard"), "M7 \u{2014} Scorecard");
}

#[test]
fn format_milestone_name_passthrough_for_nonstandard() {
    assert_eq!(format_milestone_name("scratch"), "scratch");
    assert_eq!(format_milestone_name("no-match"), "no-match");
}

#[test]
fn milestone_number_parses_and_rejects() {
    assert_eq!(milestone_number("M15-dashboard-polish-2"), Some(15));
    assert_eq!(milestone_number("M7-scorecard"), Some(7));
    assert_eq!(milestone_number("scratch"), None);
    assert_eq!(milestone_number("MX-foo"), None);
}

#[test]
fn milestone_number_rejects_overflow() {
    assert_eq!(milestone_number("M99999999999-big"), None);
    assert_eq!(milestone_number("M4294967295"), Some(u32::MAX));
}

#[test]
fn capitalize_word_upper_cases_first_char_only() {
    let w: Vec<char> = "polish".chars().collect();
    assert_eq!(capitalize_word(&w).into_iter().collect::<String>(), "Polish");
    let w: Vec<char> = "\u{df}x".chars().collect();
    assert_eq!(capitalize_word(&w).into_iter().collect::<String>(), "SSx");
    assert!(capitalize_word(&Vec::new()).is_empty());
}

#[test]
fn phase_doc_is_done_reads_first_status_line() {
    assert!(phase_doc_is_done("# Phase\n\n**Status:** done\n"));
    assert!(!phase_doc_is_done("# Phase\n\n**Status:** in-progress\n"));
    assert!(!phase_doc_is_done("# Phase\n\n**Status:** review\n\nStatus: done\n"));
    assert!(!phase_doc_is_done("no status here, done"));
}

#[test]
fn is_phase_doc_for_matches_prefix_and_extension() {
    assert!(is_phase_doc_for("phase-03-x.md", "phase-03"));
    assert!(!is_phase_doc_for("phase-030-x.md", "phase-03"));
    assert!(!is_phase_doc_for("phase-03-x.txt", "phase-03"));
}

fn cand(number: u32, dir: &str, active: bool) -> MilestoneCandidate {
    MilestoneCandidate { number, dir: dir.to_string(), active }
}

#[test]
fn choose_milestone_prefers_active() {
    let cs = vec![cand(15, "M15-foo-bar", false), cand(16, "M16-baz", true)];
    assert_eq!(choose_milestone_dir(&cs), Some("M16-baz".to_string()));
}

#[test]
fn choose_milestone_falls_back_to_highest_when_none_active() {
    let cs = vec![cand(16, "M16-baz", false), cand(15, "M15-foo-bar", false)];
    assert_eq!(choose_milestone_dir(&cs), Some("M16-baz".to_string()));
}

#[test]
fn choose_milestone_active_lower_number_wins() {
    let cs = vec![cand(20, "M20-old", false), cand(16, "M16-cur", true)];
    let d = choose_milestone_dir(&cs).unwrap();
    assert_eq!(format_milestone_name(&d), "M16 \u{2014} Cur");
}

#[test]
fn choose_milestone_ties_go_to_the_last() {
    let cs = vec![cand(16, "M16-a", true), cand(16, "M16-b", true)];
    assert_eq!(choose_milestone_dir(&cs), Some("M16-b".to_string()));
    assert_eq!(choose_milestone_dir(&Vec::new()), None);
}

fn run(project: Option<&str>, milestone: Option<&str>, i: u32, o: u32) -> RunTokens {
    RunTokens {
        project_id: project.map(|s| s.to_string()),
        milestone_id: milestone.map(|s| s.to_string()),
        input_tokens: i,
        output_tokens: o,
    }
}

#[test]
fn project_savings_sums_matching_runs() {
    let runs = vec![run(Some("p"), None, 1000, 500), run(Some("p"), None, 2000, 800)];
    assert_eq!(project_savings(&runs, Some("p")), (3000, 1300));
}

#[test]
fn project_savings_excludes_other_projects_and_legacy() {
    let runs = vec![run(Some("p"), None, 1000, 500), run(Some("q"), None, 9000, 4000), run(None, None, 500, 200)];
    assert_eq!(project_savings(&runs, Some("p")), (1000, 500));
    assert_eq!(project_savings(&runs, None), (0, 0));
}

#[test]
fn project_savings_saturates() {
    let runs = vec![run(Some("p"), None, u32::MAX, 1), run(Some("p"), None, 5, 1)];
    assert_eq!(project_savings(&runs, Some("p")), (u32::MAX, 2));
}

#[test]
fn milestone_savings_filters_by_milestone() {
    let runs = vec![run(Some("p"), Some("M1-a"), 10, 5), run(Some("p"), Some("M2-b"), 7, 7)];
    assert_eq!(milestone_savings(&runs, Some("M1-a"), Some("p")), Some((10, 5)));
    assert_eq!(milestone_savings(&runs, Some("M3-c"), Some("p")), None);
    assert_eq!(milestone_savings(&runs, None, Some("p")), None);
    assert_eq!(milestone_savings(&runs, Some("M1-a"), None), None);
}

// The milestone label for the running phase, from the milestone
// directories (name, phase docs as (file name, body)) the command lists.
fn resolve_milestone(dirs: &[(&str, &[(&str, &str)])], phase: Option<&str>) -> Option<String> {
    let listed: Vec<MilestoneDir> = dirs
        .iter()
        .map(|(name, docs)| MilestoneDir {
            name: name.to_string(),
            files: docs.iter().map(|(f, b)| DirFile { name: f.to_string(), body: Some(b.to_string()) }).collect(),
        })
        .collect();
    resolve_milestone_dir(&listed, phase).map(|d| format_milestone_name(&d))
}

#[test]
fn resolve_milestone_dir_unreadable_doc_is_inactive() {
    let listed = vec![
        MilestoneDir {
            name: "M15-a".to_string(),
            files: vec![DirFile { name: "phase-03-x.md".to_string(), body: Some("**Status:** open\n".to_string()) }],
        },
        MilestoneDir {
            name: "M16-b".to_string(),
            files: vec![
                DirFile { name: "notes.md".to_string(), body: None },
                DirFile { name: "phase-03-y.md".to_string(), body: None },
            ],
        },
    ];
    assert_eq!(resolve_milestone_dir(&listed, Some("phase-03")), Some("M15-a".to_string()));
}

#[test]
fn resolve_milestone_prefers_active_milestone() {
    let dirs: &[(&str, &[(&str, &str)])] = &[
        ("M15-foo-bar", &[("phase-03-x.md", "# Phase\n\n**Status:** done\n")]),
        ("M16-baz", &[("phase-03-y.md", "# Phase\n\n**Status:** in-progress\n")]),
    ];
    assert_eq!(resolve_milestone(dirs, Some("phase-03")), Some("M16 \u{2014} Baz".to_string()));
}

#[test]
fn resolve_milestone_falls_back_to_highest_when_none_active() {
    let dirs: &[(&str, &[(&str, &str)])] = &[
        ("M15-foo-bar", &[("phase-03-x.md", "# Phase\n\n**Status:** done\n")]),
        ("M16-baz", &[("phase-03-y.md", "# Phase\n\n**Status:** done\n")]),
    ];
    assert_eq!(resolve_milestone(dirs, Some("phase-03")), Some("M16 \u{2014} Baz".to_string()));
}

#[test]
fn resolve_milestone_active_lower_number_wins() {
    let dirs: &[(&str, &[(&str, &str)])] = &[
        ("M20-old", &[("phase-03-x.md", "# Phase\n\n**Status:** done\n")]),
        ("M16-cur", &[("phase-03-y.md", "# Phase\n\n**Status:** in-progress\n")]),
    ];
    assert_eq!(resolve_milestone(dirs, Some("phase-03")), Some("M16 \u{2014} Cur".to_string()));
}

#[test]
fn resolve_milestone_none_when_no_match() {
    assert_eq!(resolve_milestone(&[], Some("phase-03")), None);
    assert_eq!(resolve_milestone(&[], None), None);
    let dirs: &[(&str, &[(&str, &str)])] = &[("M16-baz", &[("phase-04-y.md", "**Status:** done")]), ("scratch", &[("phase-03-a.md", "")])];
    assert_eq!(resolve_milestone(dirs, Some("phase-03")), None);
}

// The phase runs of the store, as the dashboard reads them.
const PID: &str = "aaaaaaaa-bbbb-cccc-dddd-eeeeeeeeeeee";

#[test]
fn load_data_reads_project_savings_from_phase_runs() {
    let runs = vec![run(Some(PID), None, 1000, 500), run(Some(PID), None, 2000, 800)];
    assert_eq!(project_savings(&runs, Some(PID)), (3000, 1300), "project savings must sum phase runs with matching project_id");
    // No session phase id, so no milestone to match.
    assert!(milestone_savings(&runs, None, Some(PID)).is_none());
}

#[test]
fn load_data_project_savings_excludes_other_projects() {
    let this_pid = "11111111-1111-1111-1111-111111111111";
    let other_pid = "22222222-2222-2222-2222-222222222222";
    let runs = vec![run(Some(this_pid), None, 1000, 500), run(Some(other_pid), None, 9000, 4000), run(None, None, 500, 200)];
    assert_eq!(project_savings(&runs, Some(this_pid)), (1000, 500), "project savings must exclude runs from other project UUIDs and legacy records");
}

#[test]
fn load_data_project_savings_zero_when_no_project_id() {
    let runs = vec![run(Some(PID), None, 1000, 500)];
    assert_eq!(project_savings(&runs, None), (0, 0), "project savings must be (0,0) when no project_id is configured");
}
