//! The Activity transcript: relative timestamps, one-line previews, and the
//! pairing of a tool call with the result that answers it.
use vstd::prelude::*;
use crate::dashboard::filter::{enabled_s, kind_index, ActivityFilter, EventKind};
use crate::dashboard::panels::{ellipsis, humanize_age, humanize_age_s, sat_sub_u64};
use crate::dashboard::panels::TaskState;
use crate::num::{dec_s, push_decimal};
use crate::dashboard::highlight::{body_lines, body_lines_s};
use crate::session::{ArgValue, SessionEvent, SessionRecord, ToolArg};
use crate::text::{chars_eq_str, chars_of, extend_str, join_chars, join_s, string_of, views};

verus! {

/// Shown in place of the transcript when no record passes the filter.
pub const NO_ACTIVITY: &'static str = "(no activity yet)";

/// Max characters of free text shown in a one-line preview.
pub const TRANSCRIPT_PREVIEW_MAX: usize = 100;

/// `+<age>` elapsed since the session's first record, `+0s` at (or, for a
/// record stamped earlier, before) the base.
pub open spec fn relative_ts_s(ts: int, base_ts: int) -> Seq<char> {
    "+"@ + humanize_age_s(sat_sub_u64(ts, base_ts) as nat)
}

/// Relative timestamp for a transcript record.
pub fn relative_ts(ts: u64, base_ts: u64) -> (r: String)
    ensures
        r@ == relative_ts_s(ts as int, base_ts as int),
{
    proof {
        reveal_strlit("+");
    }
    let d = if ts >= base_ts { ts - base_ts } else { 0 };
    let mut v = chars_of("+");
    extend_str(&mut v, humanize_age(d).as_str());
    string_of(&v)
}

pub open spec fn flatten_ws(c: char) -> char {
    if c == '\n' || c == '\t' {
        ' '
    } else {
        c
    }
}

/// Newlines and tabs become spaces; past the limit, the first
/// `TRANSCRIPT_PREVIEW_MAX` characters and `…`.
pub open spec fn preview_s(s: Seq<char>) -> Seq<char> {
    let cleaned = s.map_values(|c: char| flatten_ws(c));
    if cleaned.len() <= TRANSCRIPT_PREVIEW_MAX {
        cleaned
    } else {
        cleaned.take(TRANSCRIPT_PREVIEW_MAX as int) + ellipsis()
    }
}

/// One-line preview of free text, counted in characters.
pub fn preview(s: &str) -> (r: String)
    ensures
        r@ == preview_s(s@),
{
    let v = chars_of(s);
    let mut out: Vec<char> = Vec::new();
    let mut k: usize = 0;
    let n = if v.len() <= TRANSCRIPT_PREVIEW_MAX { v.len() } else { TRANSCRIPT_PREVIEW_MAX };
    while k < n
        invariant
            k <= n <= v.len(),
            out@ == v@.take(k as int).map_values(|c: char| flatten_ws(c)),
        decreases n - k,
    {
        let c = v[k];
        out.push(if c == '\n' || c == '\t' { ' ' } else { c });
        assert(v@.take(k + 1).map_values(|c: char| flatten_ws(c)) =~= v@.take(k as int).map_values(
            |c: char| flatten_ws(c),
        ).push(flatten_ws(v@[k as int])));
        k += 1;
    }
    if v.len() > TRANSCRIPT_PREVIEW_MAX {
        out.push('\u{2026}');
        assert(out@ =~= preview_s(s@));
    } else {
        assert(out@ =~= preview_s(s@));
    }
    string_of(&out)
}

/// What pairing needs of a transcript record: a tool call (its tool, and
/// the `path` argument when the tool is `read_file`), a tool result (its
/// tool), or anything else.
pub enum CallSite {
    Call { name: String, read_path: Option<String> },
    Result { name: String },
    Other,
}

pub open spec fn is_site(e: CallSite) -> bool {
    !(e is Other)
}

/// Index of the latest call or result before position `i`, or -1.
pub open spec fn last_site(es: Seq<CallSite>, i: int) -> int
    decreases i,
{
    if i <= 0 {
        -1
    } else if is_site(es[i - 1]) {
        i - 1
    } else {
        last_site(es, i - 1)
    }
}

/// A result is paired when the latest call-or-result before it is a call
/// of the same tool.
pub open spec fn paired_s(es: Seq<CallSite>, i: int) -> bool {
    let j = last_site(es, i);
    match es[i] {
        CallSite::Result { name } => j >= 0 && (es[j] matches CallSite::Call { name: cn, .. } && cn@ == name@),
        _ => false,
    }
}

/// The path to highlight a paired `read_file` result by: the path its
/// call was given.
pub open spec fn hint_s(es: Seq<CallSite>, i: int) -> Option<Seq<char>> {
    if paired_s(es, i) {
        match (es[i], es[last_site(es, i)]) {
            (CallSite::Result { name }, CallSite::Call { read_path, .. }) => if name@ == "read_file"@ {
                match read_path {
                    Some(p) => Some(p@),
                    None => None,
                }
            } else {
                None
            },
            _ => None,
        }
    } else {
        None
    }
}

pub open spec fn pair_view(p: (bool, Option<String>)) -> (bool, Option<Seq<char>>) {
    (
        p.0,
        match p.1 {
            Some(s) => Some(s@),
            None => None,
        },
    )
}

proof fn lemma_last_site_bounds(es: Seq<CallSite>, i: int)
    requires
        0 <= i <= es.len(),
    ensures
        -1 <= last_site(es, i) < i,
        last_site(es, i) >= 0 ==> is_site(es[last_site(es, i)]),
    decreases i,
{
    if i > 0 && !is_site(es[i - 1]) {
        lemma_last_site_bounds(es, i - 1);
    }
}

/// For each record: whether it is a result paired with the call before
/// it, and the `read_file` path hint of such a pair.
pub fn pair_calls(es: &Vec<CallSite>) -> (r: Vec<(bool, Option<String>)>)
    ensures
        r@.len() == es@.len(),
        forall|i: int| 0 <= i < es@.len() ==> pair_view(#[trigger] r@[i]) == (paired_s(es@, i), hint_s(es@, i)),
{
    proof {
        reveal_strlit("read_file");
    }
    let mut out: Vec<(bool, Option<String>)> = Vec::new();
    let mut pending: Option<usize> = None;
    let mut i: usize = 0;
    while i < es.len()
        invariant
            i <= es.len(),
            out@.len() == i,
            match pending {
                Some(j) => j < i && last_site(es@, i as int) == j as int && es@[j as int] is Call,
                None => last_site(es@, i as int) == -1 || es@[last_site(es@, i as int)] is Result,
            },
            forall|m: int| 0 <= m < i ==> pair_view(#[trigger] out@[m]) == (paired_s(es@, m), hint_s(es@, m)),
        decreases es.len() - i,
    {
        proof {
            lemma_last_site_bounds(es@, i as int);
        }
        let mut paired = false;
        let mut hint: Option<String> = None;
        match &es[i] {
            CallSite::Call { .. } => {
                pending = Some(i);
            },
            CallSite::Result { name } => {
                match pending {
                    Some(j) => {
                        match &es[j] {
                            CallSite::Call { name: cn, read_path } => {
                                if *cn == *name {
                                    paired = true;
                                    if crate::text::chars_eq_str(&chars_of(name.as_str()), "read_file") {
                                        hint = match read_path {
                                            Some(p) => Some(p.clone()),
                                            None => None,
                                        };
                                    }
                                }
                            },
                            _ => {},
                        }
                    },
                    None => {},
                }
                pending = None;
            },
            CallSite::Other => {},
        }
        assert(pair_view((paired, hint)) == (paired_s(es@, i as int), hint_s(es@, i as int)));
        out.push((paired, hint));
        i += 1;
    }
    out
}

/// The records the filter lets through, by position.
pub fn visible_positions(kinds: &Vec<EventKind>, filter: &ActivityFilter) -> (r: Vec<usize>)
    ensures
        forall|k: int| 0 <= k < r@.len() ==> (#[trigger] r@[k]) < kinds@.len() && enabled_s(*filter, kind_index(kinds@[r@[k] as int])),
        forall|k: int, m: int| 0 <= k < m < r@.len() ==> r@[k] < r@[m],
        forall|j: int| 0 <= j < kinds@.len() && enabled_s(*filter, kind_index(#[trigger] kinds@[j])) ==> r@.contains(j as usize),
{
    let mut out: Vec<usize> = Vec::new();
    let mut i: usize = 0;
    while i < kinds.len()
        invariant
            i <= kinds.len(),
            forall|k: int| 0 <= k < out@.len() ==> (#[trigger] out@[k]) < i && enabled_s(*filter, kind_index(kinds@[out@[k] as int])),
            forall|k: int, m: int| 0 <= k < m < out@.len() ==> out@[k] < out@[m],
            forall|j: int| 0 <= j < i && enabled_s(*filter, kind_index(#[trigger] kinds@[j])) ==> out@.contains(j as usize),
        decreases kinds.len() - i,
    {
        if filter.allows(kinds[i]) {
            let ghost before = out@;
            out.push(i);
            assert forall|j: int| 0 <= j < i + 1 && enabled_s(*filter, kind_index(#[trigger] kinds@[j])) implies out@.contains(j as usize) by {
                if j < i {
                    assert(before.contains(j as usize));
                    let w = choose|w: int| 0 <= w < before.len() && before[w] == j as usize;
                    assert(out@[w] == j as usize);
                } else {
                    assert(out@[out@.len() - 1] == j as usize);
                }
            }
        }
        i += 1;
    }
    out
}


// ---------------------------------------------------------------------------
// Record headers
// ---------------------------------------------------------------------------

/// The colour a record's header is drawn in.
#[derive(Clone, Copy, Debug, PartialEq, Eq, Structural)]
pub enum HeaderColor {
    Cyan,
    SoftWhite,
    Reset,
    Blue,
    Red,
    Green,
    Magenta,
    Yellow,
}

/// A record's header line: its text, colour and weight.
pub struct RecordHeader {
    pub text: String,
    pub color: HeaderColor,
    pub bold: bool,
}

pub open spec fn task_state_debug(s: TaskState) -> Seq<char> {
    match s {
        TaskState::Pending => "Pending"@,
        TaskState::Active => "Active"@,
        TaskState::Done => "Done"@,
    }
}

pub open spec fn status_word(ok: bool) -> Seq<char> {
    if ok {
        "ok"@
    } else {
        "FAIL"@
    }
}

/// The header's summary of an event; a tool result answering the call just
/// above it shows only its status, as a connector.
pub open spec fn header_summary_s(e: SessionEvent, paired: bool) -> Seq<char> {
    match e {
        SessionEvent::SessionStart { model, phase, .. } => "session start \u{2014} phase "@ + phase@ + ", model "@
            + model@,
        SessionEvent::Prompt { rendered } => "prompt ("@ + dec_s(rendered@.len()) + " chars)"@,
        SessionEvent::Completion { .. } => "completion:"@,
        SessionEvent::Parsed { tool_name, .. } => "\u{2192} call "@ + tool_name@,
        SessionEvent::ParseFailed { feedback, .. } => "parse failed: "@ + preview_s(feedback@),
        SessionEvent::ToolResult { name, succeeded, .. } => if paired {
            "\u{2570} ["@ + status_word(succeeded) + "]"@
        } else {
            "tool "@ + name@ + " ["@ + status_word(succeeded) + "]"@
        },
        SessionEvent::Verify { diagnostics } => "verify: "@ + dec_s(diagnostics@.len()) + " diagnostic(s)"@,
        SessionEvent::HardFail { reason } => "HARD FAIL: "@ + reason@,
        SessionEvent::Progress { stage, .. } => "progress: "@ + stage@,
        SessionEvent::SessionEnd { status, turns } => "session end \u{2014} "@ + status@ + " ("@ + dec_s(turns as nat)
            + " turns)"@,
        SessionEvent::Metrics { input_tokens, output_tokens } => "metrics: "@ + dec_s(input_tokens as nat) + " in / "@
            + dec_s(output_tokens as nat) + " out"@,
        SessionEvent::Compaction { tokens_before, tokens_after } => "compaction: "@ + dec_s(tokens_before as nat)
            + " \u{2192} "@ + dec_s(tokens_after as nat) + " tokens"@,
        SessionEvent::OutputFiltered { tokens_before, tokens_after, filter } => "filtered ("@ + filter@ + "): "@
            + dec_s(tokens_before as nat) + " \u{2192} "@ + dec_s(tokens_after as nat) + " tokens"@,
        SessionEvent::ReadEvicted { reads_evicted, tokens_reclaimed } => "evicted "@ + dec_s(reads_evicted as nat)
            + " stale read(s): -"@ + dec_s(tokens_reclaimed as nat) + " tokens"@,
        SessionEvent::ReadDeduped { tokens_saved, prior_turn } => "deduped re-read (already read turn "@ + dec_s(
            prior_turn as nat,
        ) + "): -"@ + dec_s(tokens_saved as nat) + " tokens"@,
        SessionEvent::TaskUpdate { id, title, state } => "task "@ + id@ + " ["@ + task_state_debug(state) + "]: "@
            + title@,
        SessionEvent::NoveltySample { window, distinct_targets } => "novelty: "@ + dec_s(distinct_targets as nat)
            + " distinct target(s) over "@ + dec_s(window as nat) + " read-only calls"@,
    }
}

/// The header's colour: by event type, and for results and verification by
/// success.
pub open spec fn header_color_s(e: SessionEvent) -> HeaderColor {
    match e {
        SessionEvent::SessionStart { .. } => HeaderColor::Cyan,
        SessionEvent::Prompt { .. } => HeaderColor::SoftWhite,
        SessionEvent::Completion { .. } => HeaderColor::Reset,
        SessionEvent::Parsed { .. } => HeaderColor::Blue,
        SessionEvent::ParseFailed { .. } => HeaderColor::Red,
        SessionEvent::ToolResult { succeeded, .. } => if succeeded {
            HeaderColor::Green
        } else {
            HeaderColor::Red
        },
        SessionEvent::Verify { diagnostics } => if diagnostics@.len() == 0 {
            HeaderColor::Green
        } else {
            HeaderColor::Red
        },
        SessionEvent::HardFail { .. } => HeaderColor::Red,
        SessionEvent::Progress { .. } => HeaderColor::SoftWhite,
        SessionEvent::SessionEnd { .. } => HeaderColor::Cyan,
        SessionEvent::Metrics { .. } => HeaderColor::SoftWhite,
        SessionEvent::Compaction { .. } => HeaderColor::Magenta,
        SessionEvent::OutputFiltered { .. } => HeaderColor::Cyan,
        SessionEvent::ReadEvicted { .. } => HeaderColor::Cyan,
        SessionEvent::ReadDeduped { .. } => HeaderColor::Cyan,
        SessionEvent::TaskUpdate { .. } => HeaderColor::Yellow,
        SessionEvent::NoveltySample { .. } => HeaderColor::Cyan,
    }
}

/// `[t<turn>] <summary>`.
pub open spec fn header_text_s(turn: nat, e: SessionEvent, paired: bool) -> Seq<char> {
    "[t"@ + dec_s(turn) + "] "@ + header_summary_s(e, paired)
}

#[verifier::rlimit(40)]
fn summary_text(e: &SessionEvent, paired: bool) -> (r: Vec<char>)
    ensures
        r@ == header_summary_s(*e, paired),
{
    proof {
        reveal_strlit("session start \u{2014} phase ");
        reveal_strlit(", model ");
        reveal_strlit("prompt (");
        reveal_strlit(" chars)");
        reveal_strlit("completion:");
        reveal_strlit("\u{2192} call ");
        reveal_strlit("parse failed: ");
        reveal_strlit("\u{2570} [");
        reveal_strlit("]");
        reveal_strlit("tool ");
        reveal_strlit(" [");
        reveal_strlit("ok");
        reveal_strlit("FAIL");
        reveal_strlit("verify: ");
        reveal_strlit(" diagnostic(s)");
        reveal_strlit("HARD FAIL: ");
        reveal_strlit("progress: ");
        reveal_strlit("session end \u{2014} ");
        reveal_strlit(" (");
        reveal_strlit(" turns)");
    }
    let mut v: Vec<char> = Vec::new();
    match e {
        SessionEvent::SessionStart { model, phase, .. } => {
            extend_str(&mut v, "session start \u{2014} phase ");
            extend_str(&mut v, phase.as_str());
            extend_str(&mut v, ", model ");
            extend_str(&mut v, model.as_str());
        },
        SessionEvent::Prompt { rendered } => {
            extend_str(&mut v, "prompt (");
            push_decimal(&mut v, chars_of(rendered.as_str()).len() as u64);
            extend_str(&mut v, " chars)");
        },
        SessionEvent::Completion { .. } => {
            extend_str(&mut v, "completion:");
        },
        SessionEvent::Parsed { tool_name, .. } => {
            extend_str(&mut v, "\u{2192} call ");
            extend_str(&mut v, tool_name.as_str());
        },
        SessionEvent::ParseFailed { feedback, .. } => {
            extend_str(&mut v, "parse failed: ");
            extend_str(&mut v, preview(feedback.as_str()).as_str());
        },
        SessionEvent::ToolResult { name, succeeded, .. } => {
            if paired {
                extend_str(&mut v, "\u{2570} [");
            } else {
                extend_str(&mut v, "tool ");
                extend_str(&mut v, name.as_str());
                extend_str(&mut v, " [");
            }
            extend_str(&mut v, if *succeeded { "ok" } else { "FAIL" });
            extend_str(&mut v, "]");
        },
        SessionEvent::Verify { diagnostics } => {
            extend_str(&mut v, "verify: ");
            push_decimal(&mut v, diagnostics.len() as u64);
            extend_str(&mut v, " diagnostic(s)");
        },
        SessionEvent::HardFail { reason } => {
            extend_str(&mut v, "HARD FAIL: ");
            extend_str(&mut v, reason.as_str());
        },
        SessionEvent::Progress { stage, .. } => {
            extend_str(&mut v, "progress: ");
            extend_str(&mut v, stage.as_str());
        },
        SessionEvent::SessionEnd { status, turns } => {
            extend_str(&mut v, "session end \u{2014} ");
            extend_str(&mut v, status.as_str());
            extend_str(&mut v, " (");
            push_decimal(&mut v, *turns as u64);
            extend_str(&mut v, " turns)");
        },
        _ => {
            return counter_summary_text(e);
        },
    }
    assert(v@ =~= header_summary_s(*e, paired));
    v
}

/// The summaries of the counter events (metrics, reclaim, tasks, novelty).
#[verifier::rlimit(40)]
fn counter_summary_text(e: &SessionEvent) -> (r: Vec<char>)
    requires
        e is Metrics || e is Compaction || e is OutputFiltered || e is ReadEvicted || e is ReadDeduped
            || e is TaskUpdate || e is NoveltySample,
    ensures
        r@ == header_summary_s(*e, false),
        forall|p: bool| #[trigger] header_summary_s(*e, p) == header_summary_s(*e, false),
{
    proof {
        reveal_strlit("metrics: ");
        reveal_strlit(" in / ");
        reveal_strlit(" out");
        reveal_strlit("compaction: ");
        reveal_strlit(" \u{2192} ");
        reveal_strlit(" tokens");
        reveal_strlit("filtered (");
        reveal_strlit("): ");
        reveal_strlit("evicted ");
        reveal_strlit(" stale read(s): -");
        reveal_strlit("deduped re-read (already read turn ");
        reveal_strlit("): -");
        reveal_strlit("task ");
        reveal_strlit(" [");
        reveal_strlit("]: ");
        reveal_strlit("Pending");
        reveal_strlit("Active");
        reveal_strlit("Done");
        reveal_strlit("novelty: ");
        reveal_strlit(" distinct target(s) over ");
        reveal_strlit(" read-only calls");
    }
    let mut v: Vec<char> = Vec::new();
    match e {
        SessionEvent::Metrics { input_tokens, output_tokens } => {
            extend_str(&mut v, "metrics: ");
            push_decimal(&mut v, *input_tokens);
            extend_str(&mut v, " in / ");
            push_decimal(&mut v, *output_tokens);
            extend_str(&mut v, " out");
        },
        SessionEvent::Compaction { tokens_before, tokens_after } => {
            extend_str(&mut v, "compaction: ");
            push_decimal(&mut v, *tokens_before);
            extend_str(&mut v, " \u{2192} ");
            push_decimal(&mut v, *tokens_after);
            extend_str(&mut v, " tokens");
        },
        SessionEvent::OutputFiltered { tokens_before, tokens_after, filter } => {
            extend_str(&mut v, "filtered (");
            extend_str(&mut v, filter.as_str());
            extend_str(&mut v, "): ");
            push_decimal(&mut v, *tokens_before);
            extend_str(&mut v, " \u{2192} ");
            push_decimal(&mut v, *tokens_after);
            extend_str(&mut v, " tokens");
        },
        SessionEvent::ReadEvicted { reads_evicted, tokens_reclaimed } => {
            extend_str(&mut v, "evicted ");
            push_decimal(&mut v, *reads_evicted);
            extend_str(&mut v, " stale read(s): -");
            push_decimal(&mut v, *tokens_reclaimed);
            extend_str(&mut v, " tokens");
        },
        SessionEvent::ReadDeduped { tokens_saved, prior_turn } => {
            extend_str(&mut v, "deduped re-read (already read turn ");
            push_decimal(&mut v, *prior_turn);
            extend_str(&mut v, "): -");
            push_decimal(&mut v, *tokens_saved);
            extend_str(&mut v, " tokens");
        },
        SessionEvent::TaskUpdate { id, title, state } => {
            extend_str(&mut v, "task ");
            extend_str(&mut v, id.as_str());
            extend_str(&mut v, " [");
            extend_str(
                &mut v,
                match state {
                    TaskState::Pending => "Pending",
                    TaskState::Active => "Active",
                    TaskState::Done => "Done",
                },
            );
            extend_str(&mut v, "]: ");
            extend_str(&mut v, title.as_str());
        },
        SessionEvent::NoveltySample { window, distinct_targets } => {
            extend_str(&mut v, "novelty: ");
            push_decimal(&mut v, *distinct_targets);
            extend_str(&mut v, " distinct target(s) over ");
            push_decimal(&mut v, *window);
            extend_str(&mut v, " read-only calls");
        },
        _ => {},
    }
    assert(v@ =~= header_summary_s(*e, false));
    v
}

/// A record's header line: `[t<turn>] <summary>` in the event's colour,
/// bold for a hard failure.
pub fn record_header(turn: usize, e: &SessionEvent, paired: bool) -> (r: RecordHeader)
    ensures
        r.text@ == header_text_s(turn as nat, *e, paired),
        r.color == header_color_s(*e),
        r.bold == (*e is HardFail),
{
    proof {
        reveal_strlit("[t");
        reveal_strlit("] ");
    }
    let mut v: Vec<char> = Vec::new();
    extend_str(&mut v, "[t");
    push_decimal(&mut v, turn as u64);
    extend_str(&mut v, "] ");
    let s = summary_text(e, paired);
    let ghost before = v@;
    let mut k: usize = 0;
    while k < s.len()
        invariant
            k <= s@.len(),
            v@ == before + s@.take(k as int),
        decreases s@.len() - k,
    {
        v.push(s[k]);
        assert(s@.take(k + 1) =~= s@.take(k as int).push(s@[k as int]));
        k += 1;
    }
    assert(s@.take(s@.len() as int) =~= s@);
    assert(v@ =~= header_text_s(turn as nat, *e, paired));
    let color = match e {
        SessionEvent::SessionStart { .. } => HeaderColor::Cyan,
        SessionEvent::Prompt { .. } => HeaderColor::SoftWhite,
        SessionEvent::Completion { .. } => HeaderColor::Reset,
        SessionEvent::Parsed { .. } => HeaderColor::Blue,
        SessionEvent::ParseFailed { .. } => HeaderColor::Red,
        SessionEvent::ToolResult { succeeded, .. } => if *succeeded {
            HeaderColor::Green
        } else {
            HeaderColor::Red
        },
        SessionEvent::Verify { diagnostics } => if diagnostics.len() == 0 {
            HeaderColor::Green
        } else {
            HeaderColor::Red
        },
        SessionEvent::HardFail { .. } => HeaderColor::Red,
        SessionEvent::Progress { .. } => HeaderColor::SoftWhite,
        SessionEvent::SessionEnd { .. } => HeaderColor::Cyan,
        SessionEvent::Metrics { .. } => HeaderColor::SoftWhite,
        SessionEvent::Compaction { .. } => HeaderColor::Magenta,
        SessionEvent::OutputFiltered { .. } => HeaderColor::Cyan,
        SessionEvent::ReadEvicted { .. } => HeaderColor::Cyan,
        SessionEvent::ReadDeduped { .. } => HeaderColor::Cyan,
        SessionEvent::TaskUpdate { .. } => HeaderColor::Yellow,
        SessionEvent::NoveltySample { .. } => HeaderColor::Cyan,
    };
    let bold = match e {
        SessionEvent::HardFail { .. } => true,
        _ => false,
    };
    RecordHeader { text: string_of(&v), color, bold }
}

// ---------------------------------------------------------------------------
// Tool-call arguments
// ---------------------------------------------------------------------------

/// One argument's value on a line: a string flattened and cut like a
/// preview, any other value in its compact JSON form.
pub open spec fn arg_value_s(v: ArgValue) -> Seq<char> {
    match v {
        ArgValue::Str(s) => preview_s(s@),
        ArgValue::Json(j) => j@,
    }
}

/// Position of the `path` argument among the first `n`, or -1.
pub open spec fn path_arg_index(args: Seq<ToolArg>, n: int) -> int
    decreases n,
{
    if n <= 0 || n > args.len() {
        -1
    } else if path_arg_index(args, n - 1) >= 0 {
        path_arg_index(args, n - 1)
    } else if args[n - 1].key@ == "path"@ {
        n - 1
    } else {
        -1
    }
}

/// The body lines under a tool call: nothing without arguments; for
/// `patch` only its `path` (when it is a string), since the result shows
/// the diff; for any other tool one `key: value` line per argument.
pub open spec fn tool_arg_lines_s(name: Seq<char>, args: Seq<ToolArg>) -> Seq<Seq<char>> {
    if args.len() == 0 {
        Seq::empty()
    } else if name == "patch"@ {
        let k = path_arg_index(args, args.len() as int);
        if k >= 0 && args[k].value is Str {
            seq!["path: "@ + args[k].value->Str_0@]
        } else {
            Seq::empty()
        }
    } else {
        args.map_values(|a: ToolArg| a.key@ + ": "@ + arg_value_s(a.value))
    }
}

proof fn lemma_path_arg_stays(args: Seq<ToolArg>, k: int, n: int)
    requires
        0 <= k < n <= args.len(),
        path_arg_index(args, k + 1) == k,
    ensures
        path_arg_index(args, n) == k,
    decreases n,
{
    if n > k + 1 {
        lemma_path_arg_stays(args, k, n - 1);
    }
}

fn find_path_arg(args: &Vec<ToolArg>) -> (r: Option<usize>)
    ensures
        match r {
            Some(k) => k < args@.len() && path_arg_index(args@, args@.len() as int) == k,
            None => path_arg_index(args@, args@.len() as int) == -1,
        },
{
    proof {
        reveal_strlit("path");
    }
    let mut k: usize = 0;
    while k < args.len()
        invariant
            k <= args@.len(),
            path_arg_index(args@, k as int) == -1,
        decreases args@.len() - k,
    {
        if chars_eq_str(&chars_of(args[k].key.as_str()), "path") {
            proof {
                lemma_path_arg_stays(args@, k as int, args@.len() as int);
            }
            return Some(k);
        }
        k += 1;
    }
    None
}

/// The argument lines shown under a tool call.
pub fn tool_arg_lines(name: &str, args: &Vec<ToolArg>) -> (r: Vec<String>)
    ensures
        r@.map_values(|l: String| l@) == tool_arg_lines_s(name@, args@),
{
    proof {
        reveal_strlit("patch");
        reveal_strlit("path: ");
        reveal_strlit(": ");
    }
    let mut out: Vec<String> = Vec::new();
    if args.len() == 0 {
        assert(out@.map_values(|l: String| l@) =~= tool_arg_lines_s(name@, args@));
        return out;
    }
    if chars_eq_str(&chars_of(name), "patch") {
        match find_path_arg(args) {
            Some(k) => match &args[k].value {
                ArgValue::Str(p) => {
                    let mut v = chars_of("path: ");
                    extend_str(&mut v, p.as_str());
                    out.push(string_of(&v));
                },
                ArgValue::Json(_) => {},
            },
            None => {},
        }
        assert(out@.map_values(|l: String| l@) =~= tool_arg_lines_s(name@, args@));
        return out;
    }
    let mut k: usize = 0;
    while k < args.len()
        invariant
            k <= args@.len(),
            out@.map_values(|l: String| l@) == args@.take(k as int).map_values(
                |a: ToolArg| a.key@ + ": "@ + arg_value_s(a.value),
            ),
        decreases args@.len() - k,
    {
        let a = &args[k];
        let mut v = chars_of(a.key.as_str());
        extend_str(&mut v, ": ");
        match &a.value {
            ArgValue::Str(s) => extend_str(&mut v, preview(s.as_str()).as_str()),
            ArgValue::Json(j) => extend_str(&mut v, j.as_str()),
        }
        let ghost before = out@.map_values(|l: String| l@);
        out.push(string_of(&v));
        assert(out@.map_values(|l: String| l@) =~= before.push(v@));
        assert(args@.take(k + 1).map_values(|a: ToolArg| a.key@ + ": "@ + arg_value_s(a.value)) =~= args@.take(
            k as int,
        ).map_values(|a: ToolArg| a.key@ + ": "@ + arg_value_s(a.value)).push(v@));
        k += 1;
    }
    assert(args@.take(args@.len() as int) =~= args@);
    out
}


/// What is drawn under a record's header: nothing; free text in soft
/// white (a prompt); the tool call's argument lines, joined and dimmed; a
/// completion; or a tool's output (highlighted by the caller).
pub enum RecordBody {
    Empty,
    Plain(String),
    Args(String),
    Completion(String),
    ToolOutput(String),
}

pub open spec fn record_body_s(e: SessionEvent) -> (int, Seq<char>) {
    match e {
        SessionEvent::Prompt { rendered } => (1, rendered@),
        SessionEvent::Completion { raw } => (3, raw@),
        SessionEvent::Parsed { tool_name, arguments } => {
            let ls = tool_arg_lines_s(tool_name@, arguments@);
            if ls.len() == 0 {
                (0, Seq::empty())
            } else {
                (2, join_s(ls, "\n"@))
            }
        },
        SessionEvent::ToolResult { output_preview, .. } => (4, output_preview@),
        _ => (0, Seq::empty()),
    }
}

pub open spec fn body_view(b: RecordBody) -> (int, Seq<char>) {
    match b {
        RecordBody::Empty => (0, Seq::empty()),
        RecordBody::Plain(t) => (1, t@),
        RecordBody::Args(t) => (2, t@),
        RecordBody::Completion(t) => (3, t@),
        RecordBody::ToolOutput(t) => (4, t@),
    }
}

/// The body under a record's header.
pub fn record_body(e: &SessionEvent) -> (r: RecordBody)
    ensures
        body_view(r) == record_body_s(*e),
{
    proof {
        reveal_strlit("\n");
    }
    match e {
        SessionEvent::Prompt { rendered } => RecordBody::Plain(rendered.clone()),
        SessionEvent::Completion { raw } => RecordBody::Completion(raw.clone()),
        SessionEvent::Parsed { tool_name, arguments } => {
            let ls = tool_arg_lines(tool_name.as_str(), arguments);
            if ls.len() == 0 {
                RecordBody::Empty
            } else {
                let mut parts: Vec<Vec<char>> = Vec::new();
                let mut k: usize = 0;
                while k < ls.len()
                    invariant
                        k <= ls@.len(),
                        views(parts@) == ls@.take(k as int).map_values(|l: String| l@),
                    decreases ls@.len() - k,
                {
                    parts.push(chars_of(ls[k].as_str()));
                    assert(ls@.take(k + 1).map_values(|l: String| l@) =~= ls@.take(k as int).map_values(
                        |l: String| l@,
                    ).push(ls@[k as int]@));
                    assert(views(parts@) =~= ls@.take(k + 1).map_values(|l: String| l@));
                    k += 1;
                }
                assert(ls@.take(ls@.len() as int) =~= ls@);
                let joined = join_chars(&parts, &chars_of("\n"));
                RecordBody::Args(string_of(&joined))
            }
        },
        SessionEvent::ToolResult { output_preview, .. } => RecordBody::ToolOutput(output_preview.clone()),
        _ => RecordBody::Empty,
    }
}


/// The display lines of a body: none for an empty body; otherwise its text
/// cut at each newline into indented lines, one per content line (capped
/// as `body_lines` caps them). A completion `a\nb\nc` shows as three lines.
pub open spec fn body_text_lines_s(b: (int, Seq<char>)) -> Seq<Seq<char>> {
    if b.0 == 0 {
        Seq::empty()
    } else {
        body_lines_s(b.1)
    }
}

pub fn body_text_lines(b: &RecordBody) -> (r: Vec<String>)
    ensures
        r@.map_values(|s: String| s@) == body_text_lines_s(body_view(*b)),
{
    match b {
        RecordBody::Empty => {
            let r: Vec<String> = Vec::new();
            assert(r@.map_values(|s: String| s@) =~= Seq::<Seq<char>>::empty());
            r
        },
        RecordBody::Plain(t) => body_lines(t.as_str()),
        RecordBody::Args(t) => body_lines(t.as_str()),
        RecordBody::Completion(t) => body_lines(t.as_str()),
        RecordBody::ToolOutput(t) => body_lines(t.as_str()),
    }
}

// ---------------------------------------------------------------------------
// The transcript
// ---------------------------------------------------------------------------

/// The filter kind of an event; task updates and novelty samples have none
/// and are always shown.
pub open spec fn event_kind_s(e: SessionEvent) -> Option<EventKind> {
    match e {
        SessionEvent::SessionStart { .. } => Some(EventKind::SessionStart),
        SessionEvent::Prompt { .. } => Some(EventKind::Prompt),
        SessionEvent::Completion { .. } => Some(EventKind::Completion),
        SessionEvent::Parsed { .. } => Some(EventKind::Parsed),
        SessionEvent::ParseFailed { .. } => Some(EventKind::ParseFailed),
        SessionEvent::ToolResult { .. } => Some(EventKind::ToolResult),
        SessionEvent::Verify { .. } => Some(EventKind::Verify),
        SessionEvent::HardFail { .. } => Some(EventKind::HardFail),
        SessionEvent::Progress { .. } => Some(EventKind::Progress),
        SessionEvent::SessionEnd { .. } => Some(EventKind::SessionEnd),
        SessionEvent::Metrics { .. } => Some(EventKind::Metrics),
        SessionEvent::Compaction { .. } => Some(EventKind::Compaction),
        SessionEvent::OutputFiltered { .. } => Some(EventKind::OutputFiltered),
        SessionEvent::ReadEvicted { .. } => Some(EventKind::ReadEvicted),
        SessionEvent::ReadDeduped { .. } => Some(EventKind::ReadDeduped),
        SessionEvent::TaskUpdate { .. } => None,
        SessionEvent::NoveltySample { .. } => None,
    }
}

pub fn event_kind(e: &SessionEvent) -> (r: Option<EventKind>)
    ensures
        r == event_kind_s(*e),
{
    match e {
        SessionEvent::SessionStart { .. } => Some(EventKind::SessionStart),
        SessionEvent::Prompt { .. } => Some(EventKind::Prompt),
        SessionEvent::Completion { .. } => Some(EventKind::Completion),
        SessionEvent::Parsed { .. } => Some(EventKind::Parsed),
        SessionEvent::ParseFailed { .. } => Some(EventKind::ParseFailed),
        SessionEvent::ToolResult { .. } => Some(EventKind::ToolResult),
        SessionEvent::Verify { .. } => Some(EventKind::Verify),
        SessionEvent::HardFail { .. } => Some(EventKind::HardFail),
        SessionEvent::Progress { .. } => Some(EventKind::Progress),
        SessionEvent::SessionEnd { .. } => Some(EventKind::SessionEnd),
        SessionEvent::Metrics { .. } => Some(EventKind::Metrics),
        SessionEvent::Compaction { .. } => Some(EventKind::Compaction),
        SessionEvent::OutputFiltered { .. } => Some(EventKind::OutputFiltered),
        SessionEvent::ReadEvicted { .. } => Some(EventKind::ReadEvicted),
        SessionEvent::ReadDeduped { .. } => Some(EventKind::ReadDeduped),
        SessionEvent::TaskUpdate { .. } => None,
        SessionEvent::NoveltySample { .. } => None,
    }
}

pub open spec fn shown_s(f: ActivityFilter, e: SessionEvent) -> bool {
    match event_kind_s(e) {
        Some(k) => enabled_s(f, kind_index(k)),
        None => true,
    }
}

/// Positions of the shown records among the first `n`.
pub open spec fn shown_positions(recs: Seq<SessionRecord>, f: ActivityFilter, n: int) -> Seq<int>
    decreases n,
{
    if n <= 0 || n > recs.len() {
        Seq::empty()
    } else if shown_s(f, recs[n - 1].event) {
        shown_positions(recs, f, n - 1).push(n - 1)
    } else {
        shown_positions(recs, f, n - 1)
    }
}

/// What pairing reads of an event.
pub open spec fn site_s(e: SessionEvent) -> CallSite {
    match e {
        SessionEvent::Parsed { tool_name, arguments } => CallSite::Call {
            name: tool_name,
            read_path: if tool_name@ == "read_file"@ {
                let k = path_arg_index(arguments@, arguments@.len() as int);
                if k >= 0 && arguments@[k].value is Str {
                    Some(arguments@[k].value->Str_0)
                } else {
                    None
                }
            } else {
                None
            },
        },
        SessionEvent::ToolResult { name, .. } => CallSite::Result { name },
        _ => CallSite::Other,
    }
}

pub fn call_site(e: &SessionEvent) -> (r: CallSite)
    ensures
        r == site_s(*e),
{
    proof {
        reveal_strlit("read_file");
    }
    match e {
        SessionEvent::Parsed { tool_name, arguments } => {
            let read_path = if chars_eq_str(&chars_of(tool_name.as_str()), "read_file") {
                match find_path_arg(arguments) {
                    Some(k) => match &arguments[k].value {
                        ArgValue::Str(p) => Some(p.clone()),
                        ArgValue::Json(_) => None,
                    },
                    None => None,
                }
            } else {
                None
            };
            CallSite::Call { name: tool_name.clone(), read_path }
        },
        SessionEvent::ToolResult { name, .. } => CallSite::Result { name: name.clone() },
        _ => CallSite::Other,
    }
}

/// One shown record of the transcript: the `[+<age>] ` stamp before its
/// header, the header, the body, and the path a paired `read_file` output
/// is highlighted by.
pub struct TranscriptEntry {
    pub stamp: String,
    pub header: RecordHeader,
    pub body: RecordBody,
    pub path_hint: Option<String>,
}

pub open spec fn opt_view(o: Option<String>) -> Option<Seq<char>> {
    match o {
        Some(s) => Some(s@),
        None => None,
    }
}

/// The entry for a shown record, given whether it is a paired result and
/// its hint; ages count from the session's first record, shown or not.
pub open spec fn entry_ok(x: TranscriptEntry, r: SessionRecord, base: int, paired: bool, hint: Option<Seq<char>>) -> bool {
    &&& x.stamp@ == "["@ + relative_ts_s(r.ts as int, base) + "] "@
    &&& x.header.text@ == header_text_s(r.turn as nat, r.event, paired)
    &&& x.header.color == header_color_s(r.event)
    &&& x.header.bold == (r.event is HardFail)
    &&& body_view(x.body) == record_body_s(r.event)
    &&& opt_view(x.path_hint) == hint
}

/// The transcript: one entry per record the filter shows, in order, with
/// tool results paired against the shown call before them. Empty when
/// nothing is shown (the caller then draws its placeholder).
pub fn transcript_entries(records: &Vec<SessionRecord>, filter: &ActivityFilter) -> (r: Vec<TranscriptEntry>)
    ensures
        ({
            let vis = shown_positions(records@, *filter, records@.len() as int);
            let sites = vis.map_values(|i: int| site_s(records@[i].event));
            &&& r@.len() == vis.len()
            &&& forall|k: int|
                0 <= k < vis.len() ==> entry_ok(
                    #[trigger] r@[k],
                    records@[vis[k]],
                    records@[0].ts as int,
                    paired_s(sites, k),
                    hint_s(sites, k),
                )
        }),
{
    proof {
        reveal_strlit("[");
        reveal_strlit("] ");
    }
    let ghost recs = records@;
    let mut pos: Vec<usize> = Vec::new();
    let mut sites: Vec<CallSite> = Vec::new();
    let mut i: usize = 0;
    while i < records.len()
        invariant
            i <= records@.len(),
            recs == records@,
            pos@.len() == sites@.len(),
            pos@.map_values(|p: usize| p as int) == shown_positions(recs, *filter, i as int),
            sites@ == pos@.map_values(|p: usize| site_s(recs[p as int].event)),
            forall|k: int| 0 <= k < pos@.len() ==> (#[trigger] pos@[k]) < i,
        decreases records@.len() - i,
    {
        let shown = match event_kind(&records[i].event) {
            Some(k) => filter.allows(k),
            None => true,
        };
        if shown {
            let ghost pb = pos@;
            pos.push(i);
            sites.push(call_site(&records[i].event));
            assert(pos@.map_values(|p: usize| p as int) =~= pb.map_values(|p: usize| p as int).push(i as int));
            assert(sites@ =~= pos@.map_values(|p: usize| site_s(recs[p as int].event)));
        }
        i += 1;
    }
    let ghost vis = shown_positions(recs, *filter, recs.len() as int);
    assert(vis.map_values(|j: int| site_s(recs[j].event)) =~= sites@);
    let pairs = pair_calls(&sites);
    let mut out: Vec<TranscriptEntry> = Vec::new();
    let mut k: usize = 0;
    while k < pos.len()
        invariant
            k <= pos@.len(),
            recs == records@,
            pos@.len() == sites@.len(),
            pairs@.len() == sites@.len(),
            pos@.map_values(|p: usize| p as int) == vis,
            vis.map_values(|j: int| site_s(recs[j].event)) == sites@,
            forall|m: int| 0 <= m < pos@.len() ==> (#[trigger] pos@[m]) < recs.len(),
            forall|m: int| 0 <= m < sites@.len() ==> pair_view(#[trigger] pairs@[m]) == (paired_s(sites@, m), hint_s(sites@, m)),
            out@.len() == k,
            forall|m: int|
                0 <= m < k ==> entry_ok(
                    #[trigger] out@[m],
                    recs[vis[m]],
                    recs[0].ts as int,
                    paired_s(sites@, m),
                    hint_s(sites@, m),
                ),
        decreases pos@.len() - k,
    {
        let r = &records[pos[k]];
        assert(vis[k as int] == pos@[k as int] as int);
        assert(pair_view(pairs@[k as int]) == (paired_s(sites@, k as int), hint_s(sites@, k as int)));
        let paired = pairs[k].0;
        let hint = match &pairs[k].1 {
            Some(h) => Some(h.clone()),
            None => None,
        };
        let mut st = chars_of("[");
        extend_str(&mut st, relative_ts(r.ts, records[0].ts).as_str());
        extend_str(&mut st, "] ");
        let entry = TranscriptEntry {
            stamp: string_of(&st),
            header: record_header(r.turn, &r.event, paired),
            body: record_body(&r.event),
            path_hint: hint,
        };
        out.push(entry);
        k += 1;
    }
    out
}

} // verus!
