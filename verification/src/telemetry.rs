//! Telemetry write-back: where the store is, which project a record is
//! filed under, the records that `journal`, `review` and `harvest` append,
//! and what each reports back. Appending to the store is the caller's.
use vstd::prelude::*;
use crate::doctor::{join_path, joined_path};
use crate::harvest::{extract_usage, raw_usage_fits, usage_ok, HarvestLine, HarvestTotals, LedgerBucket, RawUsage};
use crate::runner::{file_stem_of, path_file_stem};
use crate::text::{chars_eq_str, chars_of};

verus! {

/// Name of the store file inside the telemetry directory.
pub const STORE_FILE: &'static str = "phase_runs.jsonl";

/// `Path::parent` of a path, as text.
pub uninterp spec fn parent_of(path: Seq<char>) -> Option<Seq<char>>;

/// `std::path::Path::parent`: the path without its final component; `None`
/// for a root or an empty path. Believed: a function of the path text.
#[verifier::external_body]
fn path_parent(path: &str) -> (r: Option<String>)
    ensures
        match r {
            Some(p) => parent_of(path@) == Some(p@),
            None => parent_of(path@) is None,
        },
{
    std::path::Path::new(path).parent().map(|p| p.to_string_lossy().into_owned())
}

pub open spec fn no_parent_error() -> Seq<char> {
    "invalid --telemetry-path: no parent directory"@
}

pub open spec fn telemetry_disabled_error() -> Seq<char> {
    "telemetry disabled: cfg.telemetry.dir not set and no --telemetry-path provided"@
}

/// The telemetry directory: the parent of an explicit store path when one
/// is given (an error when it has none), else the configured directory,
/// else an error saying telemetry is disabled.
pub open spec fn telemetry_dir_s(telemetry_path: Option<Seq<char>>, cfg_dir: Option<Seq<char>>) -> Result<Seq<char>, Seq<char>> {
    match telemetry_path {
        Some(p) => match parent_of(p) {
            Some(d) => Ok(d),
            None => Err(no_parent_error()),
        },
        None => match cfg_dir {
            Some(d) => Ok(d),
            None => Err(telemetry_disabled_error()),
        },
    }
}

pub open spec fn opt_str(o: Option<&str>) -> Option<Seq<char>> {
    match o {
        Some(s) => Some(s@),
        None => None,
    }
}

pub open spec fn result_view(r: Result<String, String>) -> Result<Seq<char>, Seq<char>> {
    match r {
        Ok(s) => Ok(s@),
        Err(e) => Err(e@),
    }
}

/// Resolve the telemetry directory for a write-back command.
pub fn telemetry_dir(telemetry_path: Option<&str>, cfg_dir: Option<&str>) -> (r: Result<String, String>)
    ensures
        result_view(r) == telemetry_dir_s(opt_str(telemetry_path), opt_str(cfg_dir)),
{
    proof {
        reveal_strlit("invalid --telemetry-path: no parent directory");
        reveal_strlit("telemetry disabled: cfg.telemetry.dir not set and no --telemetry-path provided");
    }
    match telemetry_path {
        Some(p) => match path_parent(p) {
            Some(d) => Ok(d),
            None => Err("invalid --telemetry-path: no parent directory".to_string()),
        },
        None => match cfg_dir {
            Some(d) => Ok(d.to_string()),
            None => Err("telemetry disabled: cfg.telemetry.dir not set and no --telemetry-path provided".to_string()),
        },
    }
}

/// The store file inside the telemetry directory.
pub fn store_path(dir: &str) -> (r: String)
    ensures
        r@ == joined_path(dir@, STORE_FILE@),
{
    join_path(dir, STORE_FILE)
}

/// The project a record is filed under: the command-line override, else
/// the configured project id.
pub fn project_id_or(arg: Option<&str>, cfg_project: Option<&str>) -> (r: Option<String>)
    ensures
        match r {
            Some(s) => match arg {
                Some(a) => s@ == a@,
                None => cfg_project matches Some(c) && s@ == c@,
            },
            None => arg is None && cfg_project is None,
        },
{
    match arg {
        Some(a) => Some(a.to_string()),
        None => match cfg_project {
            Some(c) => Some(c.to_string()),
            None => None,
        },
    }
}

pub open spec fn opt_string(o: Option<String>) -> Option<Seq<char>> {
    match o {
        Some(s) => Some(s@),
        None => None,
    }
}

fn own(o: Option<&str>) -> (r: Option<String>)
    ensures
        opt_string(r) == opt_str(o),
{
    match o {
        Some(s) => Some(s.to_string()),
        None => None,
    }
}

// ---------------------------------------------------------------------------
// journal
// ---------------------------------------------------------------------------

/// Borrowed journal inputs from the command line.
pub struct JournalArgs<'a> {
    pub phase_doc: Option<&'a str>,
    pub phase_id: &'a str,
    pub project_id: Option<&'a str>,
    pub milestone_id: Option<&'a str>,
    pub activity: &'a str,
    pub outcome: Option<&'a str>,
    pub model: Option<&'a str>,
}

/// Result of recording an activity: the store path, and the activity kind
/// when it was outside the canonical vocabulary (recorded anyway).
pub struct JournalOutcome {
    pub path: String,
    pub unknown_activity: Option<String>,
}

/// Record tag of an architect-activity line in the store.
pub const ARCHITECT_ACTIVITY_RECORD_TAG: &'static str = "architect_activity";

/// Record tag of a review line in the store.
pub const REVIEW_RECORD_TAG: &'static str = "review";

/// The architect-activity record appended by `journal`.
pub struct ActivityRecord {
    pub record: String,
    pub ts: u64,
    pub phase_doc_path: Option<String>,
    pub phase_id: String,
    pub project_id: Option<String>,
    pub milestone_id: Option<String>,
    pub activity: String,
    pub outcome: Option<String>,
    pub model: Option<String>,
    pub architect_input_tokens: u64,
    pub architect_output_tokens: u64,
}

/// The activity record for the arguments, stamped `ts`, filed under
/// `project_id`; architect tokens start at zero.
pub fn build_activity(args: &JournalArgs, ts: u64, project_id: Option<String>) -> (r: ActivityRecord)
    ensures
        r.record@ == ARCHITECT_ACTIVITY_RECORD_TAG@,
        r.ts == ts,
        opt_string(r.phase_doc_path) == opt_str(args.phase_doc),
        r.phase_id@ == args.phase_id@,
        r.project_id == project_id,
        opt_string(r.milestone_id) == opt_str(args.milestone_id),
        r.activity@ == args.activity@,
        opt_string(r.outcome) == opt_str(args.outcome),
        opt_string(r.model) == opt_str(args.model),
        r.architect_input_tokens == 0,
        r.architect_output_tokens == 0,
{
    ActivityRecord {
        record: ARCHITECT_ACTIVITY_RECORD_TAG.to_string(),
        ts,
        phase_doc_path: own(args.phase_doc),
        phase_id: args.phase_id.to_string(),
        project_id,
        milestone_id: own(args.milestone_id),
        activity: args.activity.to_string(),
        outcome: own(args.outcome),
        model: own(args.model),
        architect_input_tokens: 0,
        architect_output_tokens: 0,
    }
}

/// Validation is advisory: an activity outside the vocabulary is reported
/// back, not rejected.
pub fn unknown_activity(activity: &str, known: bool) -> (r: Option<String>)
    ensures
        match r {
            Some(s) => !known && s@ == activity@,
            None => known,
        },
{
    if known {
        None
    } else {
        Some(activity.to_string())
    }
}

// ---------------------------------------------------------------------------
// review
// ---------------------------------------------------------------------------

/// Borrowed review inputs from the command line.
pub struct ReviewArgs<'a> {
    pub phase_doc: Option<&'a str>,
    pub phase_id: &'a str,
    pub project_id: Option<&'a str>,
    pub verdict: &'a str,
    pub failure_class: &'a [String],
    pub bounces: Option<u32>,
    pub bugs_filed: Option<u32>,
    pub warnings: Option<u32>,
}

/// Result of recording a review: the store path and the failure classes
/// outside the canonical vocabulary (recorded anyway).
pub struct ReviewOutcome {
    pub path: String,
    pub unknown_classes: Vec<String>,
}

/// The review record appended by `review`.
pub struct ReviewRecord {
    pub record: String,
    pub ts: u64,
    pub phase_doc_path: Option<String>,
    pub phase_id: String,
    pub project_id: Option<String>,
    pub architect_verdict: String,
    pub bounces_to_approval: Option<u32>,
    pub bugs_filed: Option<u32>,
    pub warnings: Option<u32>,
    pub failure_class: Vec<String>,
}

pub open spec fn strings_view(v: Seq<String>) -> Seq<Seq<char>> {
    v.map_values(|s: String| s@)
}

fn copy_strings(v: &[String]) -> (r: Vec<String>)
    ensures
        strings_view(r@) == strings_view(v@),
{
    let mut r: Vec<String> = Vec::new();
    let mut k: usize = 0;
    while k < v.len()
        invariant
            k <= v@.len(),
            strings_view(r@) == strings_view(v@.take(k as int)),
        decreases v@.len() - k,
    {
        let ghost before = strings_view(r@);
        r.push(v[k].clone());
        assert(strings_view(r@) =~= before.push(strings_view(v@)[k as int]));
        assert(strings_view(v@.take(k + 1)) =~= strings_view(v@.take(k as int)).push(strings_view(v@)[k as int]));
        k += 1;
    }
    assert(v@.take(v@.len() as int) =~= v@);
    r
}

/// The review record for the arguments, stamped `ts`, filed under
/// `project_id`.
pub fn build_review(args: &ReviewArgs, ts: u64, project_id: Option<String>) -> (r: ReviewRecord)
    ensures
        r.record@ == REVIEW_RECORD_TAG@,
        r.ts == ts,
        opt_string(r.phase_doc_path) == opt_str(args.phase_doc),
        r.phase_id@ == args.phase_id@,
        r.project_id == project_id,
        r.architect_verdict@ == args.verdict@,
        r.bounces_to_approval == args.bounces,
        r.bugs_filed == args.bugs_filed,
        r.warnings == args.warnings,
        strings_view(r.failure_class@) == strings_view(args.failure_class@),
{
    ReviewRecord {
        record: REVIEW_RECORD_TAG.to_string(),
        ts,
        phase_doc_path: own(args.phase_doc),
        phase_id: args.phase_id.to_string(),
        project_id,
        architect_verdict: args.verdict.to_string(),
        bounces_to_approval: args.bounces,
        bugs_filed: args.bugs_filed,
        warnings: args.warnings,
        failure_class: copy_strings(args.failure_class),
    }
}

/// The classes whose vocabulary check failed (`known[i]` for `classes[i]`),
/// in order.
pub open spec fn unknown_classes_s(classes: Seq<Seq<char>>, known: Seq<bool>, n: int) -> Seq<Seq<char>>
    decreases n,
{
    if n <= 0 || n > classes.len() {
        Seq::empty()
    } else if !known[n - 1] {
        unknown_classes_s(classes, known, n - 1).push(classes[n - 1])
    } else {
        unknown_classes_s(classes, known, n - 1)
    }
}

pub fn unknown_classes(classes: &[String], known: &Vec<bool>) -> (r: Vec<String>)
    requires
        known@.len() == classes@.len(),
    ensures
        strings_view(r@) == unknown_classes_s(strings_view(classes@), known@, classes@.len() as int),
{
    let mut r: Vec<String> = Vec::new();
    let mut k: usize = 0;
    while k < classes.len()
        invariant
            k <= classes@.len(),
            known@.len() == classes@.len(),
            strings_view(r@) == unknown_classes_s(strings_view(classes@), known@, k as int),
        decreases classes@.len() - k,
    {
        if !known[k] {
            let ghost before = strings_view(r@);
            r.push(classes[k].clone());
            assert(strings_view(r@) =~= before.push(strings_view(classes@)[k as int]));
        }
        k += 1;
    }
    r
}

/// Where a journal entry goes and what it is: the telemetry directory, the
/// record, and the activity kind when it is outside the vocabulary.
pub struct ActivityPlan {
    pub dir: String,
    pub record: ActivityRecord,
    pub unknown_activity: Option<String>,
}

pub open spec fn project_id_s(arg: Option<&str>, cfg_project: Option<&str>) -> Option<Seq<char>> {
    match arg {
        Some(a) => Some(a@),
        None => opt_str(cfg_project),
    }
}

/// The `journal` write-back short of the append: the directory resolved as
/// `telemetry_dir` does (its errors are this function's), the project from
/// the argument or the config, and the record stamped `ts`. `known` is the
/// vocabulary check of the activity kind.
pub fn plan_activity(
    telemetry_path: Option<&str>,
    cfg_dir: Option<&str>,
    cfg_project: Option<&str>,
    ts: u64,
    args: &JournalArgs,
    known: bool,
) -> (r: Result<ActivityPlan, String>)
    ensures
        match (r, telemetry_dir_s(opt_str(telemetry_path), opt_str(cfg_dir))) {
            (Ok(p), Ok(d)) => {
                &&& p.dir@ == d
                &&& p.record.record@ == ARCHITECT_ACTIVITY_RECORD_TAG@
                &&& p.record.ts == ts
                &&& opt_string(p.record.phase_doc_path) == opt_str(args.phase_doc)
                &&& p.record.phase_id@ == args.phase_id@
                &&& opt_string(p.record.project_id) == project_id_s(args.project_id, cfg_project)
                &&& opt_string(p.record.milestone_id) == opt_str(args.milestone_id)
                &&& p.record.activity@ == args.activity@
                &&& opt_string(p.record.outcome) == opt_str(args.outcome)
                &&& opt_string(p.record.model) == opt_str(args.model)
                &&& p.record.architect_input_tokens == 0 && p.record.architect_output_tokens == 0
                &&& match p.unknown_activity {
                    Some(s) => !known && s@ == args.activity@,
                    None => known,
                }
            },
            (Err(e), Err(f)) => e@ == f,
            _ => false,
        },
{
    let dir = match telemetry_dir(telemetry_path, cfg_dir) {
        Ok(d) => d,
        Err(e) => return Err(e),
    };
    let project_id = project_id_or(args.project_id, cfg_project);
    let record = build_activity(args, ts, project_id);
    Ok(ActivityPlan { dir, record, unknown_activity: unknown_activity(args.activity, known) })
}

/// Where a review goes and what it is: the telemetry directory, the record,
/// and the failure classes outside the vocabulary.
pub struct ReviewPlan {
    pub dir: String,
    pub record: ReviewRecord,
    pub unknown_classes: Vec<String>,
}

/// The `review` write-back short of the append; `known[i]` is the
/// vocabulary check of `args.failure_class[i]`.
pub fn plan_review(
    telemetry_path: Option<&str>,
    cfg_dir: Option<&str>,
    cfg_project: Option<&str>,
    ts: u64,
    args: &ReviewArgs,
    known: &Vec<bool>,
) -> (r: Result<ReviewPlan, String>)
    requires
        known@.len() == args.failure_class@.len(),
    ensures
        match (r, telemetry_dir_s(opt_str(telemetry_path), opt_str(cfg_dir))) {
            (Ok(p), Ok(d)) => {
                &&& p.dir@ == d
                &&& p.record.record@ == REVIEW_RECORD_TAG@
                &&& p.record.ts == ts
                &&& opt_string(p.record.phase_doc_path) == opt_str(args.phase_doc)
                &&& p.record.phase_id@ == args.phase_id@
                &&& opt_string(p.record.project_id) == project_id_s(args.project_id, cfg_project)
                &&& p.record.architect_verdict@ == args.verdict@
                &&& p.record.bounces_to_approval == args.bounces
                &&& p.record.bugs_filed == args.bugs_filed
                &&& p.record.warnings == args.warnings
                &&& strings_view(p.record.failure_class@) == strings_view(args.failure_class@)
                &&& strings_view(p.unknown_classes@) == unknown_classes_s(
                    strings_view(args.failure_class@),
                    known@,
                    args.failure_class@.len() as int,
                )
            },
            (Err(e), Err(f)) => e@ == f,
            _ => false,
        },
{
    let dir = match telemetry_dir(telemetry_path, cfg_dir) {
        Ok(d) => d,
        Err(e) => return Err(e),
    };
    let project_id = project_id_or(args.project_id, cfg_project);
    let record = build_review(args, ts, project_id);
    Ok(ReviewPlan { dir, record, unknown_classes: unknown_classes(args.failure_class, known) })
}

// ---------------------------------------------------------------------------
// harvest
// ---------------------------------------------------------------------------

/// Borrowed harvest inputs from the command line.
pub struct HarvestArgs<'a> {
    /// Directory of session transcripts (`*.jsonl`).
    pub transcript_dir: &'a str,
    /// Project id override (defaults to the configured project).
    pub project_id: Option<&'a str>,
}

/// Result of a harvest run.
pub struct HarvestOutcome {
    pub path: String,
    pub messages: usize,
    pub duplicates: usize,
    pub sessions: usize,
    pub records: usize,
}

/// The session a transcript file belongs to: its file stem.
pub fn session_of_file(path: &str) -> (r: Option<String>)
    ensures
        match r {
            Some(s) => file_stem_of(path@) == Some(s@),
            None => file_stem_of(path@) is None,
        },
{
    path_file_stem(path)
}

/// One transcript line: only assistant lines carry usage.
pub fn harvest_line(session_id: &String, line_type: Option<&str>, raw: &RawUsage) -> (r: HarvestLine)
    requires
        raw_usage_fits(*raw),
    ensures
        r.session_id@ == session_id@,
        (line_type matches Some(t) && t@ == "assistant"@) ==> match r.usage {
            Some(u) => raw.has_usage && usage_ok(*raw, u),
            None => !raw.has_usage || raw.message_id is None,
        },
        !(line_type matches Some(t) && t@ == "assistant"@) ==> r.usage is None,
{
    let usage = match line_type {
        Some(t) => if chars_eq_str(&chars_of(t), "assistant") {
            extract_usage(raw)
        } else {
            None
        },
        None => None,
    };
    proof {
        reveal_strlit("assistant");
    }
    HarvestLine { session_id: session_id.clone(), usage }
}

/// The ledger record of one bucket, filed under `project_id`.
pub struct LedgerRecord {
    pub project_id: Option<String>,
    pub session_id: String,
    pub model: String,
    pub skill: String,
    pub input: u64,
    pub cache_creation: u64,
    pub cache_read: u64,
    pub output: u64,
    pub cache_creation_5m: u64,
    pub cache_creation_1h: u64,
    pub messages: u64,
    pub last_ts: u64,
}

/// One ledger record per bucket, in bucket order.
pub fn ledger_records(buckets: &Vec<LedgerBucket>, project_id: &Option<String>) -> (r: Vec<LedgerRecord>)
    ensures
        r@.len() == buckets@.len(),
        forall|k: int|
            0 <= k < r@.len() ==> {
                let (l, b) = (#[trigger] r@[k], buckets@[k]);
                &&& l.project_id == *project_id
                &&& l.session_id@ == b.session_id@ && l.model@ == b.model@ && l.skill@ == b.skill@
                &&& l.input == b.input && l.cache_creation == b.cache_creation && l.cache_read == b.cache_read
                &&& l.output == b.output && l.cache_creation_5m == b.cache_creation_5m
                &&& l.cache_creation_1h == b.cache_creation_1h && l.messages == b.messages && l.last_ts == b.last_ts
            },
{
    let mut r: Vec<LedgerRecord> = Vec::new();
    let mut k: usize = 0;
    while k < buckets.len()
        invariant
            k <= buckets@.len(),
            r@.len() == k,
            forall|m: int|
                0 <= m < k ==> {
                    let (l, b) = (#[trigger] r@[m], buckets@[m]);
                    &&& l.project_id == *project_id
                    &&& l.session_id@ == b.session_id@ && l.model@ == b.model@ && l.skill@ == b.skill@
                    &&& l.input == b.input && l.cache_creation == b.cache_creation && l.cache_read == b.cache_read
                    &&& l.output == b.output && l.cache_creation_5m == b.cache_creation_5m
                    &&& l.cache_creation_1h == b.cache_creation_1h && l.messages == b.messages && l.last_ts == b.last_ts
                },
        decreases buckets@.len() - k,
    {
        let b = &buckets[k];
        r.push(
            LedgerRecord {
                project_id: project_id.clone(),
                session_id: b.session_id.clone(),
                model: b.model.clone(),
                skill: b.skill.clone(),
                input: b.input,
                cache_creation: b.cache_creation,
                cache_read: b.cache_read,
                output: b.output,
                cache_creation_5m: b.cache_creation_5m,
                cache_creation_1h: b.cache_creation_1h,
                messages: b.messages,
                last_ts: b.last_ts,
            },
        );
        k += 1;
    }
    r
}

/// What a harvest reports: the store path and the fold's counts.
pub fn harvest_outcome(path: String, totals: &HarvestTotals) -> (r: HarvestOutcome)
    ensures
        r.path == path,
        r.messages == totals.messages,
        r.duplicates == totals.duplicates,
        r.sessions == totals.sessions,
        r.records == totals.records,
{
    HarvestOutcome {
        path,
        messages: totals.messages,
        duplicates: totals.duplicates,
        sessions: totals.sessions,
        records: totals.records,
    }
}

} // verus!
