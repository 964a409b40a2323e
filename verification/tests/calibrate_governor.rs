use rexymcp::governor_cells::{governor_cells, sort_samples, RunSamples};
use rexymcp::calibrate_governor::{
    empty_completion_run, format_report, identical_run, max_read_only_run, oscillation_min_distinct,
    verifier_persistence_run, CallSample, ReportRow, Signal,
};

fn call(tool: &str, path: &str) -> CallSample {
    CallSample {
        tool: tool.into(),
        args: format!("{{\"path\":\"{path}\"}}"),
        mutates: tool == "patch" || tool == "write_file",
    }
}

#[test]
fn max_read_only_run_resets_on_mutating_call() {
    let calls = vec![call("read_file", "a.rs"), call("read_file", "b.rs"), call("patch", "a.rs"), call("read_file", "c.rs")];
    assert_eq!(max_read_only_run(&calls), vec![2]);
    assert_eq!(max_read_only_run(&Vec::new()), vec![0]);
}

#[test]
fn identical_run_counts_longest_consecutive_identical() {
    let calls = vec![
        call("read_file", "a.rs"),
        call("read_file", "a.rs"),
        call("read_file", "b.rs"),
        call("read_file", "b.rs"),
        call("read_file", "b.rs"),
    ];
    assert_eq!(identical_run(&calls), vec![3]);
}

#[test]
fn identical_run_returns_no_sample_for_empty_calls() {
    assert!(identical_run(&Vec::new()).is_empty());
    assert_eq!(identical_run(&vec![call("read_file", "a.rs")]), vec![1]);
}

#[test]
fn oscillation_min_distinct_no_sample_below_window() {
    let calls = vec![call("read_file", "a.rs"), call("patch", "a.rs")];
    assert!(oscillation_min_distinct(&calls).is_empty());
}

#[test]
fn oscillation_min_distinct_finds_tightest_window() {
    let calls: Vec<CallSample> =
        (0..8).map(|i| if i % 2 == 0 { call("read_file", "a.rs") } else { call("patch", "b.rs") }).collect();
    assert_eq!(oscillation_min_distinct(&calls), vec![2]);
    let mut varied: Vec<CallSample> = (0..6).map(|i| call("read_file", &format!("{i}.rs"))).collect();
    varied.extend((0..8).map(|_| call("read_file", "same.rs")));
    assert_eq!(oscillation_min_distinct(&varied), vec![1]);
}

#[test]
fn verifier_persistence_run_matches_detector_semantics() {
    assert_eq!(verifier_persistence_run(&vec![1, 2, 2, 0, 3]), vec![3]);
}

#[test]
fn verifier_persistence_reset_on_decrease() {
    assert_eq!(verifier_persistence_run(&vec![2, 1]), vec![1]);
}

#[test]
fn verifier_persistence_no_sample_without_verify_events() {
    assert!(verifier_persistence_run(&Vec::new()).is_empty());
    assert_eq!(verifier_persistence_run(&vec![0, 0]), vec![0]);
}

#[test]
fn empty_completion_run_counts_consecutive_blanks() {
    assert_eq!(empty_completion_run(&vec![false, true, true, false]), vec![2]);
    assert_eq!(empty_completion_run(&vec![true]), vec![1]);
}

#[test]
fn signal_labels() {
    assert_eq!(Signal::NoveltyDistinct.label(), "novelty_distinct_targets");
    assert_eq!(Signal::EmptyCompletionRun.label(), "empty_completion_run");
}

fn row(signal: &str, model: &str) -> ReportRow {
    ReportRow { signal: signal.into(), model: model.into(), outcome: "complete".into(), runs: 3, n: 10, p50: 2, p90: 5, p99: 7 }
}

#[test]
fn format_report_sections_in_signal_order() {
    assert_eq!(format_report(&Vec::new()), "(no data)");
    let rows = vec![row("empty_completion_run", "m1"), row("identical_run", "(all)")];
    let text = format_report(&rows);
    let expected = [
        "signal: identical_run".to_string(),
        "MODEL  OUTCOME  RUNS  N  P50  P90  P99".to_string(),
        format!("{:<8} {:<10} {:>4}  {:>4}  {:>4}  {:>4}  {:>4}", "(all)", "complete", 3, 10, 2, 5, 7),
        String::new(),
        "signal: empty_completion_run  (lower bound \u{2014} excludes length-truncated turns)".to_string(),
        "MODEL  OUTCOME  RUNS  N  P50  P90  P99".to_string(),
        format!("{:<8} {:<10} {:>4}  {:>4}  {:>4}  {:>4}  {:>4}", "m1", "complete", 3, 10, 2, 5, 7),
        String::new(),
    ]
    .join("\n");
    assert_eq!(text, expected);
}

fn run_samples(model: &str, outcome: &str, samples: &[usize]) -> RunSamples {
    RunSamples { model: model.into(), outcome: outcome.into(), samples: samples.to_vec() }
}

#[test]
fn governor_cells_drop_thin_model_cells_into_global() {
    let runs = vec![
        run_samples("a", "ok", &[3, 1]),
        run_samples("a", "ok", &[2]),
        run_samples("b", "ok", &[9]),
        run_samples("b", "failed", &[]),
    ];
    let cells = governor_cells(&runs, 2);
    // One (all) cell for "ok"; "failed" had no samples; only model a has 2 runs.
    assert_eq!(cells.len(), 2);
    assert_eq!((cells[0].model.as_str(), cells[0].outcome.as_str(), cells[0].runs), ("(all)", "ok", 3));
    assert_eq!(cells[0].samples, vec![1, 2, 3, 9]);
    assert_eq!((cells[1].model.as_str(), cells[1].runs), ("a", 2));
    assert_eq!(cells[1].samples, vec![1, 2, 3]);
}

#[test]
fn governor_cells_one_run_many_samples_is_dropped_by_min_runs() {
    let runs = vec![run_samples("a", "ok", &[5, 4, 3, 2, 1])];
    let cells = governor_cells(&runs, 2);
    assert_eq!(cells.len(), 1);
    assert_eq!(cells[0].model, "(all)");
    assert_eq!(cells[0].runs, 1);
    assert_eq!(cells[0].samples, vec![1, 2, 3, 4, 5]);
    assert_eq!(governor_cells(&runs, 1).len(), 2);
}

#[test]
fn sort_samples_orders_with_duplicates() {
    assert_eq!(sort_samples(&vec![3, 1, 2, 1]), vec![1, 1, 2, 3]);
    assert!(sort_samples(&Vec::new()).is_empty());
}
