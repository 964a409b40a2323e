//! Output capping: long text fields are cut on a character boundary to a
//! byte budget, with a marker saying how many bytes were left out.
use vstd::prelude::*;
use crate::finalize::CommandOutputs;
use crate::session::{SessionEvent, SessionRecord};
use crate::num::{dec_s, push_decimal};
use crate::text::{char_len_utf8, char_utf8_len, chars_of, extend_str, string_of, utf8_len, utf8_len_prefix};

verus! {

/// Per-field byte budget for output capping.
pub const MAX_FIELD_BYTES: usize = 50_000;

/// Where the cut falls: from position `i` on, the first position whose
/// character would take the kept text past `max` bytes (the whole text if
/// none would). What comes before it is the longest prefix that fits.
pub open spec fn cut_from(s: Seq<char>, i: int, max: int) -> int
    decreases s.len() - i,
{
    if i < 0 || i >= s.len() {
        s.len() as int
    } else if utf8_len(s.take(i + 1)) > max {
        i
    } else {
        cut_from(s, i + 1, max)
    }
}

/// The capped text: unchanged within the budget; else the longest prefix
/// that fits in the budget (cut on a character boundary), two newlines, and
/// `[truncated: N bytes elided]` with N the bytes left out.
pub open spec fn cap_s(s: Seq<char>) -> Seq<char> {
    let total = utf8_len(s);
    if total <= MAX_FIELD_BYTES {
        s
    } else {
        let kept = s.take(cut_from(s, 0, MAX_FIELD_BYTES as int));
        kept + "\n\n[truncated: "@ + dec_s((total - utf8_len(kept)) as nat) + " bytes elided]"@
    }
}

proof fn lemma_utf8_take_step(s: Seq<char>, i: int)
    requires
        0 <= i < s.len(),
    ensures
        utf8_len(s.take(i + 1)) == utf8_len(s.take(i)) + char_utf8_len(s[i]),
        1 <= char_utf8_len(s[i]) <= 4,
{
    assert(s.take(i + 1).drop_last() =~= s.take(i));
}

/// Truncate a string to the byte budget on a character boundary, appending
/// the truncation marker when something was cut.
pub fn cap_string(s: String) -> (r: String)
    requires
        utf8_len(s@) <= isize::MAX,
    ensures
        r@ == cap_s(s@),
{
    proof {
        reveal_strlit("\n\n[truncated: ");
        reveal_strlit(" bytes elided]");
    }
    let v = chars_of(s.as_str());
    let total = utf8_len_prefix(&v, v.len());
    assert(v@.take(v.len() as int) =~= v@);
    if total <= MAX_FIELD_BYTES as u128 {
        return s;
    }
    let mut kept: Vec<char> = Vec::new();
    let mut b: u128 = 0;
    let mut i: usize = 0;
    assert(v@.take(0) =~= Seq::<char>::empty());
    while i < v.len() && b + char_len_utf8(v[i]) as u128 <= MAX_FIELD_BYTES as u128
        invariant
            i <= v.len(),
            b == utf8_len(v@.take(i as int)),
            b <= MAX_FIELD_BYTES,
            total > MAX_FIELD_BYTES,
            total == utf8_len(v@),
            kept@ == v@.take(i as int),
            cut_from(v@, 0, MAX_FIELD_BYTES as int) == cut_from(v@, i as int, MAX_FIELD_BYTES as int),
        decreases v.len() - i,
    {
        proof {
            lemma_utf8_take_step(v@, i as int);
        }
        let c = v[i];
        kept.push(c);
        b = b + char_len_utf8(c) as u128;
        assert(v@.take(i + 1) =~= v@.take(i as int).push(c));
        i += 1;
    }
    proof {
        if i < v.len() {
            lemma_utf8_take_step(v@, i as int);
        } else {
            assert(v@.take(i as int) =~= v@);
        }
    }
    assert(cut_from(v@, i as int, MAX_FIELD_BYTES as int) == i);
    extend_str(&mut kept, "\n\n[truncated: ");
    push_decimal(&mut kept, (total - b) as u64);
    extend_str(&mut kept, " bytes elided]");
    string_of(&kept)
}

proof fn lemma_cut_bounds(s: Seq<char>, i: int, max: int)
    requires
        0 <= i <= s.len(),
        utf8_len(s.take(i)) <= max,
        utf8_len(s) > max,
    ensures
        i <= cut_from(s, i, max) < s.len(),
        utf8_len(s.take(cut_from(s, i, max))) <= max,
        utf8_len(s.take(cut_from(s, i, max) + 1)) > max,
    decreases s.len() - i,
{
    if i == s.len() {
        assert(s.take(i) =~= s);
    } else {
        lemma_utf8_take_step(s, i);
        if utf8_len(s.take(i + 1)) <= max {
            lemma_cut_bounds(s, i + 1, max);
        }
    }
}

/// When text is cut, what is kept is the longest prefix that fits in the
/// budget: it fits, it falls short of the budget by less than one character
/// (under 4 bytes), and one more character would not fit.
pub proof fn lemma_cap_kept_size(s: Seq<char>)
    requires
        utf8_len(s) > MAX_FIELD_BYTES,
    ensures
        ({
            let c = cut_from(s, 0, MAX_FIELD_BYTES as int);
            &&& 0 <= c < s.len()
            &&& MAX_FIELD_BYTES - 4 < utf8_len(s.take(c)) <= MAX_FIELD_BYTES
            &&& utf8_len(s.take(c + 1)) > MAX_FIELD_BYTES
            &&& cap_s(s).take(c) == s.take(c)
        }),
{
    assert(s.take(0) =~= Seq::<char>::empty());
    lemma_cut_bounds(s, 0, MAX_FIELD_BYTES as int);
    let c = cut_from(s, 0, MAX_FIELD_BYTES as int);
    lemma_utf8_take_step(s, c);
    assert(cap_s(s).take(c) =~= s.take(c));
}

/// Cap each gate output.
pub fn cap_command_outputs(o: CommandOutputs) -> (r: CommandOutputs)
    requires
        outputs_fit(o),
    ensures
        outputs_capped(o, r),
{
    CommandOutputs {
        format: match o.format {
            Some(x) => Some(cap_string(x)),
            None => None,
        },
        build: match o.build {
            Some(x) => Some(cap_string(x)),
            None => None,
        },
        lint: match o.lint {
            Some(x) => Some(cap_string(x)),
            None => None,
        },
        test: match o.test {
            Some(x) => Some(cap_string(x)),
            None => None,
        },
    }
}


/// A file handed back in a failure briefing.
pub struct WorkingFile {
    pub path: String,
    pub content: String,
}

/// The failure briefing of a phase result: what the model was asked, the
/// files it worked on, and one line per attempt (already short).
pub struct Briefing {
    pub goal: String,
    pub acceptance_criteria: String,
    pub working_files: Vec<WorkingFile>,
    pub what_was_tried: Vec<String>,
    pub budget_remaining: String,
}

/// The text a phase run hands back: its diff, update log, gate outputs and
/// failure briefing.
pub struct PhaseResult {
    pub diff: String,
    pub update_log: String,
    pub command_outputs: CommandOutputs,
    pub briefing: Option<Briefing>,
}

pub open spec fn fits(s: String) -> bool {
    utf8_len(s@) <= isize::MAX
}

pub open spec fn opt_fits(o: Option<String>) -> bool {
    o matches Some(x) ==> fits(x)
}

pub open spec fn outputs_fit(o: CommandOutputs) -> bool {
    opt_fits(o.format) && opt_fits(o.build) && opt_fits(o.lint) && opt_fits(o.test)
}

pub open spec fn opt_capped(a: Option<String>, b: Option<String>) -> bool {
    match (a, b) {
        (Some(x), Some(y)) => y@ == cap_s(x@),
        (None, None) => true,
        _ => false,
    }
}

pub open spec fn outputs_capped(a: CommandOutputs, b: CommandOutputs) -> bool {
    &&& opt_capped(a.format, b.format)
    &&& opt_capped(a.build, b.build)
    &&& opt_capped(a.lint, b.lint)
    &&& opt_capped(a.test, b.test)
}

pub open spec fn files_capped(a: Seq<WorkingFile>, b: Seq<WorkingFile>) -> bool {
    &&& b.len() == a.len()
    &&& forall|i: int| 0 <= i < a.len() ==> (#[trigger] b[i]).path@ == a[i].path@ && b[i].content@ == cap_s(a[i].content@)
}

pub open spec fn strings_eq(a: Seq<String>, b: Seq<String>) -> bool {
    b.len() == a.len() && forall|i: int| 0 <= i < a.len() ==> (#[trigger] b[i])@ == a[i]@
}

/// The briefing with each working file's content capped; the rest as it was.
pub open spec fn briefing_capped(a: Briefing, b: Briefing) -> bool {
    &&& b.goal@ == a.goal@
    &&& b.acceptance_criteria@ == a.acceptance_criteria@
    &&& files_capped(a.working_files@, b.working_files@)
    &&& strings_eq(a.what_was_tried@, b.what_was_tried@)
    &&& b.budget_remaining@ == a.budget_remaining@
}

pub open spec fn result_fits(r: PhaseResult) -> bool {
    &&& fits(r.diff)
    &&& fits(r.update_log)
    &&& outputs_fit(r.command_outputs)
    &&& (r.briefing matches Some(b) ==> forall|i: int| 0 <= i < b.working_files@.len() ==> fits(#[trigger] b.working_files@[i].content))
}

fn cap_files(files: &Vec<WorkingFile>) -> (r: Vec<WorkingFile>)
    requires
        forall|i: int| 0 <= i < files@.len() ==> fits(#[trigger] files@[i].content),
    ensures
        files_capped(files@, r@),
{
    let mut r: Vec<WorkingFile> = Vec::new();
    let mut k: usize = 0;
    while k < files.len()
        invariant
            k <= files@.len(),
            r@.len() == k,
            forall|i: int| 0 <= i < files@.len() ==> fits(#[trigger] files@[i].content),
            forall|i: int| 0 <= i < k ==> (#[trigger] r@[i]).path@ == files@[i].path@ && r@[i].content@ == cap_s(files@[i].content@),
        decreases files@.len() - k,
    {
        let f = &files[k];
        assert(fits(files@[k as int].content));
        r.push(WorkingFile { path: f.path.clone(), content: cap_string(f.content.clone()) });
        k += 1;
    }
    r
}

fn copy_lines(v: &Vec<String>) -> (r: Vec<String>)
    ensures
        strings_eq(v@, r@),
{
    let mut r: Vec<String> = Vec::new();
    let mut k: usize = 0;
    while k < v.len()
        invariant
            k <= v@.len(),
            r@.len() == k,
            forall|i: int| 0 <= i < k ==> (#[trigger] r@[i])@ == v@[i]@,
        decreases v@.len() - k,
    {
        r.push(v[k].clone());
        k += 1;
    }
    r
}

/// Cap every long text field of a phase result: the diff, the update log,
/// each gate output and each briefing file's content. Attempt lines are
/// short already and are left as they are.
pub fn cap_phase_result(result: PhaseResult) -> (r: PhaseResult)
    requires
        result_fits(result),
    ensures
        r.diff@ == cap_s(result.diff@),
        r.update_log@ == cap_s(result.update_log@),
        outputs_capped(result.command_outputs, r.command_outputs),
        match (result.briefing, r.briefing) {
            (Some(a), Some(b)) => briefing_capped(a, b),
            (None, None) => true,
            _ => false,
        },
{
    let briefing = match result.briefing {
        Some(b) => Some(
            Briefing {
                goal: b.goal,
                acceptance_criteria: b.acceptance_criteria,
                working_files: cap_files(&b.working_files),
                what_was_tried: copy_lines(&b.what_was_tried),
                budget_remaining: b.budget_remaining,
            },
        ),
        None => None,
    };
    PhaseResult {
        diff: cap_string(result.diff),
        update_log: cap_string(result.update_log),
        command_outputs: cap_command_outputs(result.command_outputs),
        briefing,
    }
}

/// The event's long text fits a string (a prompt's rendering, a
/// completion, a tool output, a failure reason, a progress message).
pub open spec fn event_fits(e: SessionEvent) -> bool {
    match e {
        SessionEvent::Prompt { rendered } => fits(rendered),
        SessionEvent::Completion { raw } => fits(raw),
        SessionEvent::ToolResult { output_preview, .. } => fits(output_preview),
        SessionEvent::HardFail { reason } => fits(reason),
        SessionEvent::Progress { message, .. } => fits(message),
        _ => true,
    }
}

/// The event after capping: the long text field of a prompt, completion,
/// tool result, hard failure or progress report is capped, every other
/// field and every other event is unchanged.
pub open spec fn event_capped(a: SessionEvent, b: SessionEvent) -> bool {
    match (a, b) {
        (SessionEvent::Prompt { rendered: x }, SessionEvent::Prompt { rendered: y }) => y@ == cap_s(x@),
        (SessionEvent::Completion { raw: x }, SessionEvent::Completion { raw: y }) => y@ == cap_s(x@),
        (
            SessionEvent::ToolResult { name: n1, succeeded: s1, output_preview: x },
            SessionEvent::ToolResult { name: n2, succeeded: s2, output_preview: y },
        ) => n2 == n1 && s2 == s1 && y@ == cap_s(x@),
        (SessionEvent::HardFail { reason: x }, SessionEvent::HardFail { reason: y }) => y@ == cap_s(x@),
        (
            SessionEvent::Progress { turn: t1, stage: g1, files_changed: f1, message: x },
            SessionEvent::Progress { turn: t2, stage: g2, files_changed: f2, message: y },
        ) => t2 == t1 && g2 == g1 && f2 == f1 && y@ == cap_s(x@),
        (
            SessionEvent::Prompt { .. },
            _,
        ) | (SessionEvent::Completion { .. }, _) | (SessionEvent::ToolResult { .. }, _) | (
            SessionEvent::HardFail { .. },
            _,
        ) | (SessionEvent::Progress { .. }, _) => false,
        (x, y) => y == x,
    }
}

/// Cap the long text field of a session-log record's event.
pub fn cap_session_record(record: SessionRecord) -> (r: SessionRecord)
    requires
        event_fits(record.event),
    ensures
        r.ts == record.ts,
        r.turn == record.turn,
        event_capped(record.event, r.event),
{
    let event = match record.event {
        SessionEvent::Prompt { rendered } => SessionEvent::Prompt { rendered: cap_string(rendered) },
        SessionEvent::Completion { raw } => SessionEvent::Completion { raw: cap_string(raw) },
        SessionEvent::ToolResult { name, succeeded, output_preview } => SessionEvent::ToolResult {
            name,
            succeeded,
            output_preview: cap_string(output_preview),
        },
        SessionEvent::HardFail { reason } => SessionEvent::HardFail { reason: cap_string(reason) },
        SessionEvent::Progress { turn, stage, files_changed, message } => SessionEvent::Progress {
            turn,
            stage,
            files_changed,
            message: cap_string(message),
        },
        other => other,
    };
    SessionRecord { ts: record.ts, turn: record.turn, event }
}

} // verus!
