use rexymcp::runner::resolve_telemetry_dir;
use rexymcp::telemetry::{
    plan_activity, plan_review, project_id_or, store_path, telemetry_dir, JournalArgs,
    ReviewArgs,
};

const CFG_DIR: &str = "/tmp/proj/telemetry";
const CFG_PROJECT: &str = "test-project";

fn journal_args<'a>(phase_doc: Option<&'a str>, phase_id: &'a str, project_id: Option<&'a str>, activity: &'a str) -> JournalArgs<'a> {
    JournalArgs { phase_doc, phase_id, project_id, milestone_id: None, activity, outcome: None, model: None }
}

#[test]
fn records_and_reads_back_activity() {
    let args = JournalArgs {
        phase_doc: Some("/abs/path/to/phase-02.md"),
        phase_id: "phase-02",
        project_id: None,
        milestone_id: Some("M27-autonomous-escalation-loop"),
        activity: "assist",
        outcome: Some("complete"),
        model: Some("opus-4-8"),
    };
    let plan = plan_activity(None, Some(CFG_DIR), Some(CFG_PROJECT), 1_717_000_000_000, &args, true).unwrap();
    assert_eq!(store_path(&plan.dir), "/tmp/proj/telemetry/phase_runs.jsonl");
    assert!(plan.unknown_activity.is_none());
    let a = &plan.record;
    assert_eq!(a.activity, "assist");
    assert_eq!(a.outcome, Some("complete".to_string()));
    assert_eq!(a.phase_doc_path, Some("/abs/path/to/phase-02.md".to_string()));
    assert_eq!(a.milestone_id, Some("M27-autonomous-escalation-loop".to_string()));
    assert_eq!(a.model, Some("opus-4-8".to_string()));
    assert_eq!(a.record, "architect_activity");
    assert_eq!(a.ts, 1_717_000_000_000);
    assert_eq!((a.architect_input_tokens, a.architect_output_tokens), (0, 0));
}

#[test]
fn unknown_activity_is_recorded_not_rejected() {
    let args = journal_args(None, "phase-02", None, "frobnicate");
    let plan = plan_activity(None, Some(CFG_DIR), Some(CFG_PROJECT), 1_717_000_001_000, &args, false).unwrap();
    assert_eq!(plan.unknown_activity, Some("frobnicate".to_string()));
    assert_eq!(plan.record.activity, "frobnicate");
}

#[test]
fn journal_project_id_defaults_from_config() {
    let args = journal_args(None, "phase-03", None, "draft");
    let plan = plan_activity(None, Some(CFG_DIR), Some(CFG_PROJECT), 1_717_000_002_000, &args, true).unwrap();
    assert_eq!(plan.record.project_id, Some("test-project".to_string()));
    let args2 = journal_args(None, "phase-04", Some("override-project"), "draft");
    let plan2 = plan_activity(None, Some(CFG_DIR), Some(CFG_PROJECT), 1_717_000_003_000, &args2, true).unwrap();
    assert_eq!(plan2.record.project_id, Some("override-project".to_string()));
}

#[test]
fn records_and_reads_back_review() {
    let classes = ["none".to_string()];
    let args = ReviewArgs {
        phase_doc: Some("/abs/path/to/phase-01.md"),
        phase_id: "phase-01",
        project_id: None,
        verdict: "approved_first_try",
        failure_class: &classes,
        bounces: Some(0),
        bugs_filed: Some(0),
        warnings: Some(0),
    };
    let plan = plan_review(None, Some(CFG_DIR), Some(CFG_PROJECT), 1_717_000_000_000, &args, &vec![true]).unwrap();
    assert_eq!(store_path(&plan.dir), "/tmp/proj/telemetry/phase_runs.jsonl");
    assert!(plan.unknown_classes.is_empty());
    let r = &plan.record;
    assert_eq!(r.architect_verdict, "approved_first_try");
    assert_eq!(r.phase_doc_path, Some("/abs/path/to/phase-01.md".to_string()));
    assert_eq!(r.failure_class, ["none"]);
    assert_eq!(r.record, "review");
    assert_eq!((r.bounces_to_approval, r.bugs_filed, r.warnings), (Some(0), Some(0), Some(0)));
}

#[test]
fn unknown_failure_class_is_recorded_not_rejected() {
    let classes = ["made_up_class".to_string()];
    let args = ReviewArgs {
        phase_doc: None,
        phase_id: "phase-02",
        project_id: None,
        verdict: "bounced",
        failure_class: &classes,
        bounces: None,
        bugs_filed: None,
        warnings: None,
    };
    let plan = plan_review(None, Some(CFG_DIR), Some(CFG_PROJECT), 1_717_000_001_000, &args, &vec![false]).unwrap();
    assert_eq!(plan.unknown_classes, vec!["made_up_class".to_string()]);
    assert_eq!(plan.record.failure_class, vec!["made_up_class".to_string()]);
    assert_eq!(plan.record.architect_verdict, "bounced");
}

#[test]
fn review_project_id_defaults_from_config() {
    let none: [String; 0] = [];
    let mut args = ReviewArgs {
        phase_doc: None,
        phase_id: "phase-03",
        project_id: None,
        verdict: "approved_first_try",
        failure_class: &none,
        bounces: None,
        bugs_filed: None,
        warnings: None,
    };
    let plan = plan_review(None, Some(CFG_DIR), Some(CFG_PROJECT), 1_717_000_002_000, &args, &vec![]).unwrap();
    assert_eq!(plan.record.project_id, Some("test-project".to_string()));
    args.phase_id = "phase-04";
    args.project_id = Some("override-project");
    let plan2 = plan_review(None, Some(CFG_DIR), Some(CFG_PROJECT), 1_717_000_003_000, &args, &vec![]).unwrap();
    assert_eq!(plan2.record.project_id, Some("override-project".to_string()));
}

#[test]
fn unknown_classes_keep_order_and_skip_known() {
    let classes = ["a".to_string(), "b".to_string(), "c".to_string()];
    let args = ReviewArgs {
        phase_doc: None,
        phase_id: "p",
        project_id: None,
        verdict: "bounced",
        failure_class: &classes,
        bounces: None,
        bugs_filed: None,
        warnings: None,
    };
    let plan = plan_review(None, Some(CFG_DIR), None, 1, &args, &vec![false, true, false]).unwrap();
    assert_eq!(plan.unknown_classes, vec!["a".to_string(), "c".to_string()]);
    assert_eq!(plan.record.project_id, None);
}

#[test]
fn telemetry_dir_prefers_explicit_path_parent() {
    assert_eq!(telemetry_dir(Some("/x/y/runs.jsonl"), Some(CFG_DIR)), Ok("/x/y".to_string()));
    assert_eq!(telemetry_dir(None, Some(CFG_DIR)), Ok(CFG_DIR.to_string()));
}

#[test]
fn telemetry_dir_errors() {
    assert_eq!(
        telemetry_dir(None, None),
        Err("telemetry disabled: cfg.telemetry.dir not set and no --telemetry-path provided".to_string())
    );
    assert_eq!(telemetry_dir(Some("/"), None), Err("invalid --telemetry-path: no parent directory".to_string()));
    let args = journal_args(None, "p", None, "draft");
    assert!(plan_activity(None, None, None, 1, &args, true).is_err());
}

#[test]
fn project_id_and_telemetry_switch() {
    assert_eq!(project_id_or(Some("a"), Some("b")), Some("a".to_string()));
    assert_eq!(project_id_or(None, Some("b")), Some("b".to_string()));
    assert_eq!(project_id_or(None, None), None);
    assert_eq!(resolve_telemetry_dir(Some("/t"), true), None);
    assert_eq!(resolve_telemetry_dir(Some("/t"), false), Some("/t"));
}
