//! Text of the dashboard's Session, Tasks and Files panels, and the
//! liveness spinner. Colors are the caller's; amounts shown as money or
//! rates (floating point) are drawn by the caller too.
use vstd::prelude::*;
use crate::session::{SessionEvent, SessionRecord};
use crate::num::{dec2_s, dec_s, lemma_dec_len_u64, push_decimal, push_decimal2};
use crate::text::{
    chars_of, extend_chars, extend_str, last_idx, push_repeat, repeat_s, rfind_char, slice_chars,
    string_of,
};

verus! {

// ---------------------------------------------------------------------------
// Ages
// ---------------------------------------------------------------------------

/// A duration in milliseconds as the dashboard shows it: `5s` under a
/// minute, `3m12s` under an hour, `1h04m` beyond (whole seconds, truncated).
pub open spec fn humanize_age_s(ms: nat) -> Seq<char> {
    let secs = ms / 1000;
    if secs < 60 {
        dec_s(secs) + "s"@
    } else if secs < 3600 {
        dec_s(secs / 60) + "m"@ + dec2_s(secs % 60) + "s"@
    } else {
        dec_s(secs / 3600) + "h"@ + dec2_s((secs % 3600) / 60) + "m"@
    }
}

/// Render a duration in milliseconds as `5s` / `3m12s` / `1h04m`.
pub fn humanize_age(ms: u64) -> (r: String)
    ensures
        r@ == humanize_age_s(ms as nat),
{
    proof {
        reveal_strlit("s");
        reveal_strlit("m");
        reveal_strlit("h");
    }
    let secs = ms / 1000;
    let mut v: Vec<char> = Vec::new();
    if secs < 60 {
        push_decimal(&mut v, secs);
        extend_str(&mut v, "s");
    } else if secs < 3600 {
        push_decimal(&mut v, secs / 60);
        extend_str(&mut v, "m");
        push_decimal2(&mut v, secs % 60);
        extend_str(&mut v, "s");
    } else {
        push_decimal(&mut v, secs / 3600);
        extend_str(&mut v, "h");
        push_decimal2(&mut v, (secs % 3600) / 60);
        extend_str(&mut v, "m");
    }
    string_of(&v)
}

// ---------------------------------------------------------------------------
// The summary the panels read
// ---------------------------------------------------------------------------

/// State of a tracked task.
#[derive(Clone, Copy, Debug, PartialEq, Eq, Structural)]
pub enum TaskState {
    Pending,
    Active,
    Done,
}

/// One tracked task.
pub struct TaskRow {
    pub id: String,
    pub title: String,
    pub state: TaskState,
}

/// Lines added and removed in one changed file.
pub struct FileNumstat {
    pub path: String,
    pub added: u64,
    pub removed: u64,
}

/// What the Session, Tasks and Files panels read of a session's summary.
pub struct StatusSummary {
    pub phase: Option<String>,
    pub session_id: Option<String>,
    pub model: Option<String>,
    /// Why the session ended; `None` while it runs.
    pub ended: Option<String>,
    /// Time of the first record (unix ms).
    pub started_at: Option<u64>,
    /// Time of the latest record (unix ms).
    pub last_ts: Option<u64>,
    pub update_interval_avg_ms: Option<u64>,
    pub latest_turn: usize,
    pub latest_stage: Option<String>,
    pub tasks_total: usize,
    pub tasks_done: usize,
    pub tasks_active: usize,
    pub tasks: Vec<TaskRow>,
    pub files_changed: Vec<FileNumstat>,
}

impl Default for StatusSummary {
    /// The summary of an empty log.
    fn default() -> (s: Self)
        ensures
            s.phase is None,
            s.session_id is None,
            s.model is None,
            s.ended is None,
            s.started_at is None,
            s.last_ts is None,
            s.update_interval_avg_ms is None,
            s.latest_turn == 0,
            s.latest_stage is None,
            s.tasks_total == 0,
            s.tasks_done == 0,
            s.tasks_active == 0,
            s.tasks@.len() == 0,
            s.files_changed@.len() == 0,
    {
        StatusSummary {
            phase: None,
            session_id: None,
            model: None,
            ended: None,
            started_at: None,
            last_ts: None,
            update_interval_avg_ms: None,
            latest_turn: 0,
            latest_stage: None,
            tasks_total: 0,
            tasks_done: 0,
            tasks_active: 0,
            tasks: Vec::new(),
            files_changed: Vec::new(),
        }
    }
}

pub open spec fn sat_sub_u64(a: int, b: int) -> int {
    if a >= b {
        a - b
    } else {
        0
    }
}

/// Wall-clock session duration: live (`now − start`) while running, frozen
/// at the latest record (`last_ts − start`, or 0 without one) once ended;
/// saturating at 0 when the clock reads behind the first record.
pub open spec fn session_duration_s(s: StatusSummary, now_ms: int) -> Option<int> {
    match s.started_at {
        None => None,
        Some(start) => {
            let end = if s.ended is Some {
                match s.last_ts {
                    Some(t) => t as int,
                    None => start as int,
                }
            } else {
                now_ms
            };
            Some(sat_sub_u64(end, start as int))
        },
    }
}

/// Session duration in ms; `None` for an empty log (no `started_at`).
pub fn session_duration_ms(summary: &StatusSummary, now_ms: u64) -> (r: Option<u64>)
    ensures
        match r {
            Some(d) => session_duration_s(*summary, now_ms as int) == Some(d as int),
            None => session_duration_s(*summary, now_ms as int) is None,
        },
{
    let start = match summary.started_at {
        Some(s) => s,
        None => return None,
    };
    let end = if summary.ended.is_some() {
        match summary.last_ts {
            Some(t) => t,
            None => start,
        }
    } else {
        now_ms
    };
    Some(if end >= start { end - start } else { 0 })
}

/// `Last update: <age> ago`, with ` (avg: <interval>)` when the average
/// update interval is known; `None` for an empty log.
pub open spec fn last_update_s(s: StatusSummary, now_ms: int) -> Option<Seq<char>> {
    match s.last_ts {
        None => None,
        Some(ts) => {
            let head = "Last update: "@ + humanize_age_s(sat_sub_u64(now_ms, ts as int) as nat) + " ago"@;
            Some(
                match s.update_interval_avg_ms {
                    Some(avg) => head + " (avg: "@ + humanize_age_s(avg as nat) + ")"@,
                    None => head,
                },
            )
        },
    }
}

/// The freshness line: the age of the latest record and the average
/// update interval when known.
pub fn last_update_line(summary: &StatusSummary, now_ms: u64) -> (r: Option<String>)
    ensures
        match r {
            Some(l) => last_update_s(*summary, now_ms as int) == Some(l@),
            None => last_update_s(*summary, now_ms as int) is None,
        },
{
    proof {
        reveal_strlit("Last update: ");
        reveal_strlit(" ago");
        reveal_strlit(" (avg: ");
        reveal_strlit(")");
    }
    let ts = match summary.last_ts {
        Some(t) => t,
        None => return None,
    };
    let age = if now_ms >= ts { now_ms - ts } else { 0 };
    let mut v: Vec<char> = Vec::new();
    extend_str(&mut v, "Last update: ");
    extend_str(&mut v, humanize_age(age).as_str());
    extend_str(&mut v, " ago");
    match summary.update_interval_avg_ms {
        Some(avg) => {
            extend_str(&mut v, " (avg: ");
            extend_str(&mut v, humanize_age(avg).as_str());
            extend_str(&mut v, ")");
        },
        None => {},
    }
    Some(string_of(&v))
}

pub open spec fn or_s(o: Option<String>, dflt: Seq<char>) -> Seq<char> {
    match o {
        Some(x) => x@,
        None => dflt,
    }
}

/// The Session panel's lines: phase, session, model (when known), state,
/// duration (when started), freshness (when any record), turn and stage.
pub open spec fn session_lines_s(s: StatusSummary, now_ms: int) -> Seq<Seq<char>> {
    let a = seq!["Phase: "@ + or_s(s.phase, "<unknown>"@), "Session: "@ + or_s(s.session_id, "<unknown>"@)];
    let b = match s.model {
        Some(m) => a.push("Model: "@ + m@),
        None => a,
    };
    let state = match s.ended {
        Some(e) => "ended ("@ + e@ + ")"@,
        None => "running"@,
    };
    let c = b.push("State: "@ + state);
    let d = match session_duration_s(s, now_ms) {
        Some(dur) => c.push("Duration: "@ + humanize_age_s(dur as nat)),
        None => c,
    };
    let e = match last_update_s(s, now_ms) {
        Some(l) => d.push(l),
        None => d,
    };
    e.push("Turn "@ + dec_s(s.latest_turn as nat) + ", stage "@ + or_s(s.latest_stage, "<none>"@))
}

fn text_or(o: &Option<String>, dflt: &str) -> (r: Vec<char>)
    ensures
        r@ == or_s(*o, dflt@),
{
    match o {
        Some(x) => chars_of(x.as_str()),
        None => chars_of(dflt),
    }
}

fn line_of(prefix: &str, body: &Vec<char>) -> (s: String)
    ensures
        s@ == prefix@ + body@,
{
    let mut v = chars_of(prefix);
    extend_chars(&mut v, body);
    string_of(&v)
}

/// Session panel text; the `State:` line is the one the caller colors
/// (running or ended).
pub fn session_lines(summary: &StatusSummary, now_ms: u64) -> (r: Vec<String>)
    ensures
        r@.map_values(|l: String| l@) == session_lines_s(*summary, now_ms as int),
{
    proof {
        reveal_strlit("ended (");
        reveal_strlit(")");
        reveal_strlit(", stage ");
    }
    let ghost s = *summary;
    let ghost nm = now_ms as int;
    let mut out: Vec<String> = Vec::new();
    out.push(line_of("Phase: ", &text_or(&summary.phase, "<unknown>")));
    out.push(line_of("Session: ", &text_or(&summary.session_id, "<unknown>")));
    let ghost a = seq!["Phase: "@ + or_s(s.phase, "<unknown>"@), "Session: "@ + or_s(s.session_id, "<unknown>"@)];
    assert(out@.map_values(|l: String| l@) =~= a);
    if let Some(m) = &summary.model {
        out.push(line_of("Model: ", &chars_of(m.as_str())));
    }
    let ghost b = match s.model {
        Some(m) => a.push("Model: "@ + m@),
        None => a,
    };
    assert(out@.map_values(|l: String| l@) =~= b);
    let state = match &summary.ended {
        Some(e) => {
            let mut v = chars_of("ended (");
            extend_str(&mut v, e.as_str());
            extend_str(&mut v, ")");
            v
        },
        None => chars_of("running"),
    };
    out.push(line_of("State: ", &state));
    let ghost st = match s.ended {
        Some(e) => "ended ("@ + e@ + ")"@,
        None => "running"@,
    };
    assert(state@ == st);
    let ghost c = b.push("State: "@ + st);
    assert(out@.map_values(|l: String| l@) =~= c);
    if let Some(dur) = session_duration_ms(summary, now_ms) {
        out.push(line_of("Duration: ", &chars_of(humanize_age(dur).as_str())));
    }
    let ghost d = match session_duration_s(s, nm) {
        Some(dur) => c.push("Duration: "@ + humanize_age_s(dur as nat)),
        None => c,
    };
    assert(out@.map_values(|l: String| l@) =~= d);
    if let Some(l) = last_update_line(summary, now_ms) {
        out.push(l);
    }
    let ghost e = match last_update_s(s, nm) {
        Some(l) => d.push(l),
        None => d,
    };
    assert(out@.map_values(|l: String| l@) =~= e);
    let mut turn: Vec<char> = Vec::new();
    push_decimal(&mut turn, summary.latest_turn as u64);
    extend_str(&mut turn, ", stage ");
    extend_chars(&mut turn, &text_or(&summary.latest_stage, "<none>"));
    let ghost turn_line = "Turn "@ + dec_s(s.latest_turn as nat) + ", stage "@ + or_s(s.latest_stage, "<none>"@);
    assert("Turn "@ + turn@ =~= turn_line);
    out.push(line_of("Turn ", &turn));
    assert(out@.map_values(|l: String| l@) =~= e.push(turn_line));
    assert(session_lines_s(s, nm) == e.push(turn_line));
    out
}

// ---------------------------------------------------------------------------
// Titles and paths
// ---------------------------------------------------------------------------

pub open spec fn ellipsis() -> Seq<char> {
    seq!['\u{2026}']
}

/// A title cut to at most `max` characters, ending in `…` when shortened
/// (empty when `max` is 0: not even the ellipsis fits).
pub open spec fn truncate_title_s(t: Seq<char>, max: int) -> Seq<char> {
    if t.len() <= max {
        t
    } else if max <= 0 {
        Seq::empty()
    } else {
        t.take(max - 1) + ellipsis()
    }
}

/// Truncate a task title to at most `max` chars, appending `…` when
/// shortened.
pub fn truncate_title(title: &str, max: usize) -> (r: String)
    ensures
        r@ == truncate_title_s(title@, max as int),
        r@.len() <= max,
{
    let v = chars_of(title);
    if v.len() <= max {
        return title.to_string();
    }
    if max == 0 {
        return String::new();
    }
    let keep = max - 1;
    let mut head = slice_chars(&v, 0, keep);
    head.push('\u{2026}');
    assert(head@ =~= title@.take(keep as int) + ellipsis());
    string_of(&head)
}

/// `Milestone: <name>` with the name `…`-truncated so the line fits in
/// `width` characters (the label's 11 counted first).
pub open spec fn milestone_line_s(name: Seq<char>, width: int) -> Seq<char> {
    "Milestone: "@ + truncate_title_s(name, sat_sub_u64(width, 11))
}

pub fn milestone_line(name: &str, width: usize) -> (r: String)
    ensures
        r@ == milestone_line_s(name@, width as int),
{
    proof {
        reveal_strlit("Milestone: ");
    }
    let budget = if width >= 11 { width - 11 } else { 0 };
    let t = truncate_title(name, budget);
    line_of("Milestone: ", &chars_of(t.as_str()))
}

/// Start of the panned window: a triangle wave over `0..=overflow` driven
/// by `3/4` of the tick (pan right, then back left).
pub open spec fn pan_start(tick: int, overflow: int) -> int {
    let step = tick * 3 / 4;
    let period = overflow * 2;
    let phase = step % period;
    if phase <= overflow {
        phase
    } else {
        period - phase
    }
}

/// The window of a title shown in `max` characters: whole when it fits,
/// the truncated head when frozen (`tick` none) or `max` is 0, otherwise
/// the `max` characters starting at the panning position.
pub open spec fn scrolled_title_s(t: Seq<char>, max: int, tick: Option<usize>) -> Seq<char> {
    if t.len() <= max || max == 0 {
        truncate_title_s(t, max)
    } else {
        match tick {
            None => truncate_title_s(t, max),
            Some(k) => {
                let s = pan_start(k as int, t.len() - max);
                t.subrange(s, s + max)
            },
        }
    }
}

/// The window of a task title to show in `max` characters, panning back
/// and forth with `tick` when the title overflows.
pub fn scrolled_title(title: &str, max: usize, tick: Option<usize>) -> (r: String)
    requires
        title@.len() <= isize::MAX,
        match tick {
            Some(k) => k * 3 <= usize::MAX,
            None => true,
        },
    ensures
        r@ == scrolled_title_s(title@, max as int, tick),
{
    let chars = chars_of(title);
    if chars.len() <= max || max == 0 {
        return truncate_title(title, max);
    }
    let overflow = chars.len() - max;
    let start = match tick {
        Some(t) => {
            let step = t * 3 / 4;
            let period = overflow * 2;
            let phase = step % period;
            if phase <= overflow {
                phase
            } else {
                period - phase
            }
        },
        None => return truncate_title(title, max),
    };
    let w = slice_chars(&chars, start, start + max);
    string_of(&w)
}

/// The window always has exactly `max` characters when the title
/// overflows and pans, and it stays inside the title.
pub proof fn lemma_pan_in_bounds(tick: int, overflow: int)
    requires
        tick >= 0,
        overflow > 0,
    ensures
        0 <= pan_start(tick, overflow) <= overflow,
{
}

/// The part of a path after its last `/` (the whole path without one).
pub open spec fn file_name_s(p: Seq<char>) -> Seq<char> {
    p.skip(last_idx(p, '/') + 1)
}

/// A path fitted into `max` characters, keeping the file name visible:
/// whole when it fits; else `…/<name>` when that fits; else `…` and the
/// rightmost `max − 1` characters of the name.
pub open spec fn trim_path_left_s(p: Seq<char>, max: int) -> Seq<char> {
    let name = file_name_s(p);
    if p.len() <= max {
        p
    } else if name.len() + 2 <= max {
        "\u{2026}/"@ + name
    } else {
        let avail = sat_sub_u64(max, 1);
        let keep = if name.len() <= avail {
            name.len() as int
        } else {
            avail
        };
        ellipsis() + name.skip(name.len() - keep)
    }
}

pub fn trim_path_left(path: &str, max: usize) -> (r: String)
    ensures
        r@ == trim_path_left_s(path@, max as int),
{
    proof {
        reveal_strlit("\u{2026}/");
        crate::text::lemma_last_idx_bounds(path@, '/');
    }
    let v = chars_of(path);
    if v.len() <= max {
        return path.to_string();
    }
    let from = match rfind_char(&v, '/') {
        Some(i) => i + 1,
        None => 0,
    };
    let name = slice_chars(&v, from, v.len());
    assert(name@ =~= file_name_s(path@));
    if name.len() <= max && max - name.len() >= 2 {
        let mut out = chars_of("\u{2026}/");
        extend_chars(&mut out, &name);
        return string_of(&out);
    }
    let avail = if max >= 1 { max - 1 } else { 0 };
    let keep = if name.len() <= avail { name.len() } else { avail };
    let mut out: Vec<char> = Vec::new();
    out.push('\u{2026}');
    let tail = slice_chars(&name, name.len() - keep, name.len());
    extend_chars(&mut out, &tail);
    assert(tail@ =~= name@.skip(name.len() - keep));
    assert(out@ =~= ellipsis() + name@.skip(name.len() - keep));
    string_of(&out)
}

/// A trimmed path never exceeds the budget, once the budget leaves room
/// for the ellipsis.
pub proof fn lemma_trim_path_fits(p: Seq<char>, max: int)
    requires
        max >= 1,
    ensures
        trim_path_left_s(p, max).len() <= max,
{
    reveal_strlit("\u{2026}/");
}

// ---------------------------------------------------------------------------
// Files and tasks
// ---------------------------------------------------------------------------

/// Total width budget of a Files line (path, space, numstat).
pub const FILE_LINE_MAX: usize = 28;

/// `  <path> +<added> -<removed>`, the path fitted into what the numstat
/// leaves of the line budget.
pub open spec fn file_line_s(f: FileNumstat) -> Seq<char> {
    let added = "+"@ + dec_s(f.added as nat);
    let removed = "-"@ + dec_s(f.removed as nat);
    let numstat_width = added.len() + 1 + removed.len();
    let path_max = sat_sub_u64(FILE_LINE_MAX as int, (1 + numstat_width) as int);
    "  "@ + trim_path_left_s(f.path@, path_max) + " "@ + added + " "@ + removed
}

/// The Files panel: one line per changed file, or a placeholder.
pub open spec fn files_lines_s(files: Seq<FileNumstat>) -> Seq<Seq<char>> {
    if files.len() == 0 {
        seq!["(no files changed yet)"@]
    } else {
        files.map_values(|f: FileNumstat| file_line_s(f))
    }
}

fn file_line(f: &FileNumstat) -> (r: String)
    ensures
        r@ == file_line_s(*f),
{
    proof {
        reveal_strlit("+");
        reveal_strlit("-");
        reveal_strlit("  ");
        reveal_strlit(" ");
    }
    proof {
        lemma_dec_len_u64(f.added);
        lemma_dec_len_u64(f.removed);
    }
    let mut added = chars_of("+");
    push_decimal(&mut added, f.added);
    let mut removed = chars_of("-");
    push_decimal(&mut removed, f.removed);
    let numstat_width = added.len() + 1 + removed.len();
    let path_max = if FILE_LINE_MAX >= 1 + numstat_width { FILE_LINE_MAX - (1 + numstat_width) } else { 0 };
    let mut out = chars_of("  ");
    extend_str(&mut out, trim_path_left(f.path.as_str(), path_max).as_str());
    out.push(' ');
    extend_chars(&mut out, &added);
    out.push(' ');
    extend_chars(&mut out, &removed);
    assert(out@ =~= file_line_s(*f));
    string_of(&out)
}

pub fn files_lines(summary: &StatusSummary) -> (r: Vec<String>)
    ensures
        r@.map_values(|l: String| l@) == files_lines_s(summary.files_changed@),
{
    let files = &summary.files_changed;
    let mut out: Vec<String> = Vec::new();
    if files.len() == 0 {
        proof {
            reveal_strlit("(no files changed yet)");
        }
        out.push("(no files changed yet)".to_string());
        assert(out@.map_values(|l: String| l@) =~= files_lines_s(summary.files_changed@));
        return out;
    }
    let mut k: usize = 0;
    while k < files.len()
        invariant
            k <= files.len(),
            out@.map_values(|l: String| l@) == files@.take(k as int).map_values(|f: FileNumstat| file_line_s(f)),
        decreases files.len() - k,
    {
        let l = file_line(&files[k]);
        let ghost before = out@.map_values(|l: String| l@);
        out.push(l);
        assert(out@.map_values(|l: String| l@) =~= before.push(file_line_s(files@[k as int])));
        assert(files@.take(k + 1).map_values(|f: FileNumstat| file_line_s(f)) =~= files@.take(
            k as int,
        ).map_values(|f: FileNumstat| file_line_s(f)).push(file_line_s(files@[k as int])));
        k += 1;
    }
    assert(files@.take(files.len() as int) =~= files@);
    out
}

pub open spec fn task_glyph(s: TaskState) -> char {
    match s {
        TaskState::Done => '\u{2611}',
        TaskState::Active => '\u{25b6}',
        TaskState::Pending => '\u{2610}',
    }
}

/// One task row: its glyph, a space, and its title in `width − 2`
/// characters, panning only for the active task.
pub open spec fn task_line_s(t: TaskRow, width: int, tick: Option<usize>) -> Seq<char> {
    let tt = if t.state == TaskState::Active {
        tick
    } else {
        None
    };
    seq![task_glyph(t.state), ' '] + scrolled_title_s(t.title@, sat_sub_u64(width, 2), tt)
}

/// The Tasks panel below its gauge: a placeholder when no tasks are
/// tracked, else one row per task. (The gauge above the rows is drawn by
/// the caller when tasks are tracked.)
pub open spec fn tasks_lines_s(s: StatusSummary, width: int, tick: Option<usize>) -> Seq<Seq<char>> {
    if s.tasks_total == 0 {
        seq!["(no tasks tracked yet)"@]
    } else {
        s.tasks@.map_values(|t: TaskRow| task_line_s(t, width, tick))
    }
}

pub fn tasks_lines(summary: &StatusSummary, width: usize, tick: Option<usize>) -> (r: Vec<String>)
    requires
        forall|k: int| 0 <= k < summary.tasks@.len() ==> (#[trigger] summary.tasks@[k]).title@.len() <= isize::MAX,
        match tick {
            Some(k) => k * 3 <= usize::MAX,
            None => true,
        },
    ensures
        r@.map_values(|l: String| l@) == tasks_lines_s(*summary, width as int, tick),
{
    let mut out: Vec<String> = Vec::new();
    if summary.tasks_total == 0 {
        proof {
            reveal_strlit("(no tasks tracked yet)");
        }
        out.push("(no tasks tracked yet)".to_string());
        assert(out@.map_values(|l: String| l@) =~= tasks_lines_s(*summary, width as int, tick));
        return out;
    }
    let title_max = if width >= 2 { width - 2 } else { 0 };
    let tasks = &summary.tasks;
    let mut k: usize = 0;
    while k < tasks.len()
        invariant
            k <= tasks.len(),
            tasks == summary.tasks,
            title_max == sat_sub_u64(width as int, 2),
            forall|m: int| 0 <= m < tasks@.len() ==> (#[trigger] tasks@[m]).title@.len() <= isize::MAX,
            match tick {
                Some(k) => k * 3 <= usize::MAX,
                None => true,
            },
            out@.map_values(|l: String| l@) == tasks@.take(k as int).map_values(
                |t: TaskRow| task_line_s(t, width as int, tick),
            ),
        decreases tasks.len() - k,
    {
        let t = &tasks[k];
        let glyph = match t.state {
            TaskState::Done => '\u{2611}',
            TaskState::Active => '\u{25b6}',
            TaskState::Pending => '\u{2610}',
        };
        let tt = if t.state == TaskState::Active { tick } else { None };
        let title = scrolled_title(t.title.as_str(), title_max, tt);
        let mut v: Vec<char> = Vec::new();
        v.push(glyph);
        v.push(' ');
        extend_str(&mut v, title.as_str());
        assert(glyph == task_glyph(t.state));
        assert(v@ =~= task_line_s(*t, width as int, tick));
        let l = string_of(&v);
        let ghost before = out@.map_values(|l: String| l@);
        out.push(l);
        assert(out@.map_values(|l: String| l@) =~= before.push(task_line_s(tasks@[k as int], width as int, tick)));
        assert(tasks@.take(k + 1).map_values(|t: TaskRow| task_line_s(t, width as int, tick)) =~= tasks@.take(
            k as int,
        ).map_values(|t: TaskRow| task_line_s(t, width as int, tick)).push(
            task_line_s(tasks@[k as int], width as int, tick),
        ));
        k += 1;
    }
    assert(tasks@.take(tasks.len() as int) =~= tasks@);
    out
}

// ---------------------------------------------------------------------------
// Spinner
// ---------------------------------------------------------------------------

pub const DOG: char = '\u{1f415}';
pub const BRAIN: char = '\u{1f9e0}';
pub const DASH: char = '\u{1f4a8}';

/// Terminal cells each emoji sprite occupies.
pub const SPRITE_CELLS: usize = 2;

/// The spinner frame at `tick` for a panel `width` cells wide. Narrower
/// than four sprites: the static pair dog, brain. Otherwise a cycle of two
/// phases: the chase (the brain runs from the middle to the right border one
/// cell a frame, the dog from the left at twice that, never overrunning it),
/// then the return (the brain, dog and dash cluster slides back left two
/// cells a frame).
pub open spec fn spinner_s(tick: int, width: int) -> Seq<char> {
    if width < 8 {
        seq![DOG, BRAIN]
    } else {
        let span = width - 2;
        let mid = width / 2;
        let steps_a = span - mid;
        let p0 = width - 6;
        let steps_b = p0 / 2;
        let period = steps_a + steps_b + 2;
        let phase = tick % period;
        if phase <= steps_a {
            let brain = mid + phase;
            let dog = if 2 * phase <= brain - 2 {
                2 * phase
            } else {
                brain - 2
            };
            let gap = brain - dog - 2;
            repeat_s(' ', dog as nat) + seq![DOG] + repeat_s(' ', gap as nat) + seq![BRAIN]
        } else {
            let j = phase - (steps_a + 1);
            let p = sat_sub_u64(p0, 2 * j);
            repeat_s(' ', p as nat) + seq![BRAIN, DOG, DASH]
        }
    }
}

/// Terminal cells of a spinner frame: spaces take one, sprites two.
pub open spec fn frame_cells(s: Seq<char>) -> int
    decreases s.len(),
{
    if s.len() == 0 {
        0
    } else {
        frame_cells(s.drop_last()) + if s.last() == ' ' {
            1int
        } else {
            2int
        }
    }
}

/// Liveness spinner: a dog chasing its own brain across the Session panel
/// while the session runs (`spinner` is the loop's tick), none once it
/// ended.
pub fn spinner_line(spinner: Option<usize>, width: usize) -> (r: Option<String>)
    ensures
        match spinner {
            None => r is None,
            Some(t) => r is Some && r->0@ == spinner_s(t as int, width as int),
        },
{
    let tick = match spinner {
        Some(t) => t,
        None => return None,
    };
    if width < SPRITE_CELLS * 4 {
        let mut v: Vec<char> = Vec::new();
        v.push(DOG);
        v.push(BRAIN);
        assert(v@ =~= spinner_s(tick as int, width as int));
        return Some(string_of(&v));
    }
    let span = width - SPRITE_CELLS;
    let mid = width / 2;
    let steps_a = span - mid;
    let p0 = width - SPRITE_CELLS * 3;
    let steps_b = p0 / 2;
    let period = steps_a + steps_b + 2;
    let phase = tick % period;
    let mut v: Vec<char> = Vec::new();
    if phase <= steps_a {
        let i = phase;
        let brain = mid + i;
        let dog = if 2 * i <= brain - SPRITE_CELLS { 2 * i } else { brain - SPRITE_CELLS };
        let gap = brain - dog - SPRITE_CELLS;
        push_repeat(&mut v, ' ', dog as u128);
        v.push(DOG);
        push_repeat(&mut v, ' ', gap as u128);
        v.push(BRAIN);
    } else {
        let j = phase - (steps_a + 1);
        let p = if p0 >= 2 * j { p0 - 2 * j } else { 0 };
        push_repeat(&mut v, ' ', p as u128);
        v.push(BRAIN);
        v.push(DOG);
        v.push(DASH);
    }
    assert(v@ =~= spinner_s(tick as int, width as int));
    Some(string_of(&v))
}

proof fn lemma_frame_cells_concat(a: Seq<char>, b: Seq<char>)
    ensures
        frame_cells(a + b) == frame_cells(a) + frame_cells(b),
    decreases b.len(),
{
    if b.len() == 0 {
        assert(a + b =~= a);
    } else {
        lemma_frame_cells_concat(a, b.drop_last());
        assert((a + b).drop_last() =~= a + b.drop_last());
    }
}

proof fn lemma_frame_cells_spaces(n: nat)
    ensures
        frame_cells(repeat_s(' ', n)) == n,
    decreases n,
{
    if n > 0 {
        lemma_frame_cells_spaces((n - 1) as nat);
        assert(repeat_s(' ', n).drop_last() =~= repeat_s(' ', (n - 1) as nat));
    }
}

/// Every spinner frame fits the panel: at most `width` cells once the
/// panel holds four sprites (narrower panels show the static pair).
pub proof fn lemma_spinner_fits(tick: int, width: int)
    requires
        tick >= 0,
        width >= 8,
    ensures
        frame_cells(spinner_s(tick, width)) <= width,
{
    let span = width - 2;
    let mid = width / 2;
    let steps_a = span - mid;
    let p0 = width - 6;
    let steps_b = p0 / 2;
    let period = steps_a + steps_b + 2;
    let phase = tick % period;
    assert(frame_cells(seq![DOG]) == 2) by {
        assert(seq![DOG].drop_last() =~= Seq::<char>::empty());
        assert(frame_cells(Seq::<char>::empty()) == 0);
        assert(seq![DOG].last() == DOG);
    }
    assert(frame_cells(seq![BRAIN]) == 2) by {
        assert(seq![BRAIN].drop_last() =~= Seq::<char>::empty());
        assert(frame_cells(Seq::<char>::empty()) == 0);
        assert(seq![BRAIN].last() == BRAIN);
    }
    if phase <= steps_a {
        let brain = mid + phase;
        let dog = if 2 * phase <= brain - 2 {
            2 * phase
        } else {
            brain - 2
        };
        let gap = brain - dog - 2;
        let a = repeat_s(' ', dog as nat);
        let c = repeat_s(' ', gap as nat);
        lemma_frame_cells_spaces(dog as nat);
        lemma_frame_cells_spaces(gap as nat);
        lemma_frame_cells_concat(a, seq![DOG]);
        lemma_frame_cells_concat(a + seq![DOG], c);
        lemma_frame_cells_concat(a + seq![DOG] + c, seq![BRAIN]);
    } else {
        let j = phase - (steps_a + 1);
        let p = sat_sub_u64(p0, 2 * j);
        let a = repeat_s(' ', p as nat);
        let cl = seq![BRAIN, DOG, DASH];
        assert(frame_cells(cl) == 6) by {
            assert(cl.drop_last() =~= seq![BRAIN, DOG]);
            assert(seq![BRAIN, DOG].drop_last() =~= seq![BRAIN]);
            assert(seq![BRAIN].drop_last() =~= Seq::<char>::empty());
            assert(frame_cells(Seq::<char>::empty()) == 0);
            assert(frame_cells(seq![BRAIN]) == 2);
            assert(frame_cells(seq![BRAIN, DOG]) == 4);
        }
        lemma_frame_cells_spaces(p as nat);
        lemma_frame_cells_concat(a, cl);
    }
}


// ---------------------------------------------------------------------------
// Context reclaim
// ---------------------------------------------------------------------------

/// The reclaim counters of a session: compactions (with the tokens before
/// and after, summed) and the three per-lever sources.
pub struct ReclaimCounts {
    pub compaction_count: u64,
    pub compaction_tokens_before: u64,
    pub compaction_tokens_after: u64,
    pub output_filtered_count: u64,
    pub output_filtered_tokens: u64,
    pub read_evicted_count: u64,
    pub read_evicted_tokens: u64,
    pub read_deduped_count: u64,
    pub read_deduped_tokens: u64,
}

/// `Events: n` and `Freed: k tokens` (before minus after, saturating) when
/// there were compactions; else nothing.
pub open spec fn compaction_lines_s(c: ReclaimCounts) -> Seq<Seq<char>> {
    if c.compaction_count > 0 {
        seq![
            "Events: "@ + dec_s(c.compaction_count as nat),
            "Freed: "@ + dec_s(sat_sub_u64(c.compaction_tokens_before as int, c.compaction_tokens_after as int) as nat)
                + " tokens"@,
        ]
    } else {
        Seq::empty()
    }
}

/// One line per lever that fired: `Filter: n calls, k freed`,
/// `Evict: n reads, k freed`, `Dedupe: n reads, k saved`.
pub open spec fn lever_lines_s(c: ReclaimCounts) -> Seq<Seq<char>> {
    let f = if c.output_filtered_count > 0 {
        seq!["Filter: "@ + dec_s(c.output_filtered_count as nat) + " calls, "@ + dec_s(c.output_filtered_tokens as nat) + " freed"@]
    } else {
        Seq::empty()
    };
    let e = if c.read_evicted_count > 0 {
        seq!["Evict: "@ + dec_s(c.read_evicted_count as nat) + " reads, "@ + dec_s(c.read_evicted_tokens as nat) + " freed"@]
    } else {
        Seq::empty()
    };
    let d = if c.read_deduped_count > 0 {
        seq!["Dedupe: "@ + dec_s(c.read_deduped_count as nat) + " reads, "@ + dec_s(c.read_deduped_tokens as nat) + " saved"@]
    } else {
        Seq::empty()
    };
    f + e + d
}

fn counted_line(label: &str, n: u64, mid: &str, k: u64, tail: &str) -> (r: String)
    ensures
        r@ == label@ + dec_s(n as nat) + mid@ + dec_s(k as nat) + tail@,
{
    let mut v: Vec<char> = Vec::new();
    extend_str(&mut v, label);
    push_decimal(&mut v, n);
    extend_str(&mut v, mid);
    push_decimal(&mut v, k);
    extend_str(&mut v, tail);
    assert(v@ =~= label@ + dec_s(n as nat) + mid@ + dec_s(k as nat) + tail@);
    string_of(&v)
}

/// The compaction lines of the reclaim panel (the ratio line, a floating
/// point figure, is drawn by the caller after them).
pub fn compaction_lines(c: &ReclaimCounts) -> (r: Vec<String>)
    ensures
        r@.map_values(|s: String| s@) == compaction_lines_s(*c),
{
    let mut out: Vec<String> = Vec::new();
    if c.compaction_count > 0 {
        let mut v: Vec<char> = Vec::new();
        extend_str(&mut v, "Events: ");
        push_decimal(&mut v, c.compaction_count);
        out.push(string_of(&v));
        let freed = if c.compaction_tokens_before >= c.compaction_tokens_after {
            c.compaction_tokens_before - c.compaction_tokens_after
        } else {
            0
        };
        let mut w: Vec<char> = Vec::new();
        extend_str(&mut w, "Freed: ");
        push_decimal(&mut w, freed);
        extend_str(&mut w, " tokens");
        out.push(string_of(&w));
    }
    assert(out@.map_values(|s: String| s@) =~= compaction_lines_s(*c));
    out
}

/// The per-lever lines of the reclaim panel.
pub fn lever_lines(c: &ReclaimCounts) -> (r: Vec<String>)
    ensures
        r@.map_values(|s: String| s@) == lever_lines_s(*c),
{
    let mut out: Vec<String> = Vec::new();
    if c.output_filtered_count > 0 {
        out.push(counted_line("Filter: ", c.output_filtered_count, " calls, ", c.output_filtered_tokens, " freed"));
    }
    let ghost f = out@.map_values(|s: String| s@);
    if c.read_evicted_count > 0 {
        out.push(counted_line("Evict: ", c.read_evicted_count, " reads, ", c.read_evicted_tokens, " freed"));
    }
    let ghost fe = out@.map_values(|s: String| s@);
    if c.read_deduped_count > 0 {
        out.push(counted_line("Dedupe: ", c.read_deduped_count, " reads, ", c.read_deduped_tokens, " saved"));
    }
    proof {
        reveal_strlit("Filter: ");
        reveal_strlit(" calls, ");
        reveal_strlit(" freed");
        reveal_strlit("Evict: ");
        reveal_strlit(" reads, ");
        reveal_strlit("Dedupe: ");
        reveal_strlit(" saved");
    }
    assert(out@.map_values(|s: String| s@) =~= lever_lines_s(*c));
    out
}

/// `a + b`, saturating at `u64::MAX`.
pub open spec fn sat_add_u64(a: u64, b: u64) -> u64 {
    if a + b <= u64::MAX {
        (a + b) as u64
    } else {
        u64::MAX
    }
}

fn sat_add(a: u64, b: u64) -> (r: u64)
    ensures
        r == sat_add_u64(a, b),
{
    match a.checked_add(b) {
        Some(x) => x,
        None => u64::MAX,
    }
}

pub open spec fn no_reclaim() -> ReclaimCounts {
    ReclaimCounts {
        compaction_count: 0,
        compaction_tokens_before: 0,
        compaction_tokens_after: 0,
        output_filtered_count: 0,
        output_filtered_tokens: 0,
        read_evicted_count: 0,
        read_evicted_tokens: 0,
        read_deduped_count: 0,
        read_deduped_tokens: 0,
    }
}

/// One record's reclaim: a compaction counts once with its before and
/// after tokens; an output filter counts once with the tokens it freed
/// (before minus after); an eviction counts its reads and reclaimed
/// tokens; a dedupe counts once with the tokens saved. Sums saturate.
pub open spec fn reclaim_step(c: ReclaimCounts, e: SessionEvent) -> ReclaimCounts {
    match e {
        SessionEvent::Compaction { tokens_before, tokens_after } => ReclaimCounts {
            compaction_count: sat_add_u64(c.compaction_count, 1),
            compaction_tokens_before: sat_add_u64(c.compaction_tokens_before, tokens_before),
            compaction_tokens_after: sat_add_u64(c.compaction_tokens_after, tokens_after),
            ..c
        },
        SessionEvent::OutputFiltered { tokens_before, tokens_after, .. } => ReclaimCounts {
            output_filtered_count: sat_add_u64(c.output_filtered_count, 1),
            output_filtered_tokens: sat_add_u64(
                c.output_filtered_tokens,
                sat_sub_u64(tokens_before as int, tokens_after as int) as u64,
            ),
            ..c
        },
        SessionEvent::ReadEvicted { reads_evicted, tokens_reclaimed } => ReclaimCounts {
            read_evicted_count: sat_add_u64(c.read_evicted_count, reads_evicted),
            read_evicted_tokens: sat_add_u64(c.read_evicted_tokens, tokens_reclaimed),
            ..c
        },
        SessionEvent::ReadDeduped { tokens_saved, .. } => ReclaimCounts {
            read_deduped_count: sat_add_u64(c.read_deduped_count, 1),
            read_deduped_tokens: sat_add_u64(c.read_deduped_tokens, tokens_saved),
            ..c
        },
        _ => c,
    }
}

pub open spec fn reclaim_s(rs: Seq<SessionRecord>) -> ReclaimCounts
    decreases rs.len(),
{
    if rs.len() == 0 {
        no_reclaim()
    } else {
        reclaim_step(reclaim_s(rs.drop_last()), rs.last().event)
    }
}

/// The reclaim counters of a session, folded over its records.
pub fn reclaim_counts(records: &Vec<SessionRecord>) -> (r: ReclaimCounts)
    ensures
        r == reclaim_s(records@),
{
    let mut c = ReclaimCounts {
        compaction_count: 0,
        compaction_tokens_before: 0,
        compaction_tokens_after: 0,
        output_filtered_count: 0,
        output_filtered_tokens: 0,
        read_evicted_count: 0,
        read_evicted_tokens: 0,
        read_deduped_count: 0,
        read_deduped_tokens: 0,
    };
    let mut i: usize = 0;
    assert(records@.take(0) =~= Seq::<SessionRecord>::empty());
    while i < records.len()
        invariant
            i <= records@.len(),
            c == reclaim_s(records@.take(i as int)),
        decreases records@.len() - i,
    {
        assert(records@.take(i + 1).drop_last() =~= records@.take(i as int));
        match &records[i].event {
            SessionEvent::Compaction { tokens_before, tokens_after } => {
                c.compaction_count = sat_add(c.compaction_count, 1);
                c.compaction_tokens_before = sat_add(c.compaction_tokens_before, *tokens_before);
                c.compaction_tokens_after = sat_add(c.compaction_tokens_after, *tokens_after);
            },
            SessionEvent::OutputFiltered { tokens_before, tokens_after, .. } => {
                let freed = if *tokens_before >= *tokens_after { *tokens_before - *tokens_after } else { 0 };
                c.output_filtered_count = sat_add(c.output_filtered_count, 1);
                c.output_filtered_tokens = sat_add(c.output_filtered_tokens, freed);
            },
            SessionEvent::ReadEvicted { reads_evicted, tokens_reclaimed } => {
                c.read_evicted_count = sat_add(c.read_evicted_count, *reads_evicted);
                c.read_evicted_tokens = sat_add(c.read_evicted_tokens, *tokens_reclaimed);
            },
            SessionEvent::ReadDeduped { tokens_saved, .. } => {
                c.read_deduped_count = sat_add(c.read_deduped_count, 1);
                c.read_deduped_tokens = sat_add(c.read_deduped_tokens, *tokens_saved);
            },
            _ => {},
        }
        i += 1;
    }
    assert(records@.take(records@.len() as int) =~= records@);
    c
}

} // verus!
