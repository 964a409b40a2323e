use rexymcp::costs::{
    assist_count, display_skill, latest_milestone_id, ledger_header, make_row, paren, scope_tokens,
    token_total, ActivityRow, ExecRun, LedgerUnits,
};

#[test]
fn display_skill_maps_other_to_architect_chat() {
    assert_eq!(display_skill("other"), "architect chat");
}

#[test]
fn display_skill_passes_through_named_skills() {
    assert_eq!(display_skill("rexymcp:dispatch"), "rexymcp:dispatch");
    assert_eq!(display_skill("rexymcp:auto"), "rexymcp:auto");
}

#[test]
fn ledger_units_default_is_dollars() {
    assert_eq!(LedgerUnits::default(), LedgerUnits::Dollars);
}

#[test]
fn paren_wraps_debits() {
    assert_eq!(paren("$1.00".to_string()), "($1.00)");
    assert_eq!(paren("\u{2014}".to_string()), "(\u{2014})  ");
}

#[test]
fn make_row_aligns_columns() {
    assert_eq!(
        make_row("Net:", "a".into(), "b".into(), "c".into(), true),
        format!("  {:<10}{:>10}{:>10}{:>10}", "Net:", "a", "b", "c")
    );
    assert_eq!(
        make_row("Executor:", "$1.00".into(), "x".into(), "$2.00".into(), false),
        format!("  {:<10}{:>9}{:>9}", "Executor:", "$1.00", "$2.00")
    );
}

#[test]
fn ledger_header_has_no_baseline_column() {
    assert_eq!(
        ledger_header(LedgerUnits::Dollars, true),
        format!("{:<12}{:>10}{:>10}{:>10}", "Spend", "Session", "Milestone", "Project")
    );
    assert_eq!(ledger_header(LedgerUnits::Tokens, false), format!("{:<12}{:>9}{:>9}", "Spend (tok)", "Session", "Project"));
}

#[test]
fn token_total_saturates() {
    assert_eq!(token_total(1, 2, 3, 4), 10);
    assert_eq!(token_total(u64::MAX, 1, 0, 0), u64::MAX);
}

fn run(p: Option<&str>, m: Option<&str>, ts: u64, i: u32) -> ExecRun {
    ExecRun {
        project_id: p.map(|s| s.into()),
        milestone_id: m.map(|s| s.into()),
        ts,
        input_tokens: i,
        output_tokens: 2 * i,
        cache_read_tokens: 3,
        cache_write_tokens: 4,
    }
}

#[test]
fn scope_tokens_sum_project_and_milestone() {
    let runs = vec![run(Some("P"), Some("M1"), 1, 10), run(Some("P"), Some("M2"), 2, 20), run(Some("Q"), Some("M1"), 3, 99)];
    assert_eq!(scope_tokens(&runs, "P", None), (30, 60, 6, 8));
    assert_eq!(scope_tokens(&runs, "P", Some("M1")), (10, 20, 3, 4));
    assert_eq!(scope_tokens(&runs, "Z", None), (0, 0, 0, 0));
}

#[test]
fn latest_milestone_is_the_latest_run_that_names_one() {
    let runs = vec![run(Some("P"), Some("M1"), 5, 1), run(Some("P"), None, 9, 1), run(Some("P"), Some("M2"), 7, 1), run(Some("Q"), Some("M9"), 99, 1)];
    assert_eq!(latest_milestone_id(&runs, "P"), Some("M2".to_string()));
    assert_eq!(latest_milestone_id(&runs, "R"), None);
}

#[test]
fn assists_count_project_assists() {
    let acts = vec![
        ActivityRow { project_id: Some("P".into()), activity: "assist".into() },
        ActivityRow { project_id: Some("P".into()), activity: "review".into() },
        ActivityRow { project_id: Some("Q".into()), activity: "assist".into() },
        ActivityRow { project_id: Some("P".into()), activity: "assist".into() },
    ];
    assert_eq!(assist_count(&acts, "P"), 2);
}

fn run4(p: &str, m: Option<&str>, i: u32, o: u32, cr: u32, cw: u32) -> ExecRun {
    ExecRun {
        project_id: Some(p.to_string()),
        milestone_id: m.map(|s| s.to_string()),
        ts: 1,
        input_tokens: i,
        output_tokens: o,
        cache_read_tokens: cr,
        cache_write_tokens: cw,
    }
}

#[test]
fn scope_costs_none_sums_all_milestones() {
    let runs = vec![run4("P", Some("mA"), 100, 10, 0, 0), run4("P", Some("mB"), 200, 20, 0, 0), run4("OTHER", Some("mA"), 999, 999, 0, 0)];
    let all = scope_tokens(&runs, "P", None);
    assert_eq!(all.0, 300);
    assert_eq!(all.1, 30);
    let just_a = scope_tokens(&runs, "P", Some("mA"));
    assert_eq!(just_a.0, 100);
    assert!(all.0 >= just_a.0);
}

#[test]
fn scope_costs_sums_cache_buckets() {
    let runs = vec![run4("P", None, 100, 10, 50, 30), run4("P", None, 200, 20, 100, 70)];
    let all = scope_tokens(&runs, "P", None);
    assert_eq!(all, (300, 30, 150, 100));
}
