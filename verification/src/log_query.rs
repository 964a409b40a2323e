//! Session-log queries: search by event type, tool name and text, the last
//! records, and one turn's records. A record is described by the plain
//! values the queries read; results are the positions of the records
//! selected, in log order.
use vstd::prelude::*;
use crate::text::{chars_eq_str, chars_of, contains, contains_s};

verus! {

pub const SEARCH_DEFAULT_LIMIT: usize = 20;
pub const SEARCH_MAX_LIMIT: usize = 50;
pub const TAIL_DEFAULT_N: usize = 10;
pub const TAIL_MAX_N: usize = 50;

/// Search criteria; each given one must hold.
pub struct SearchFilter<'a> {
    pub event_type: Option<&'a str>,
    pub tool_name: Option<&'a str>,
    pub query_text: Option<&'a str>,
}

/// The kind of a session-log event.
#[derive(Clone, Copy, Debug, PartialEq, Eq, Structural)]
pub enum LogEventKind {
    SessionStart,
    Prompt,
    Completion,
    Parsed,
    ParseFailed,
    ToolResult,
    Verify,
    HardFail,
    Progress,
    SessionEnd,
}

pub open spec fn event_type_s(k: LogEventKind) -> Seq<char> {
    match k {
        LogEventKind::SessionStart => "session_start"@,
        LogEventKind::Prompt => "prompt"@,
        LogEventKind::Completion => "completion"@,
        LogEventKind::Parsed => "parsed"@,
        LogEventKind::ParseFailed => "parse_failed"@,
        LogEventKind::ToolResult => "tool_result"@,
        LogEventKind::Verify => "verify"@,
        LogEventKind::HardFail => "hard_fail"@,
        LogEventKind::Progress => "progress"@,
        LogEventKind::SessionEnd => "session_end"@,
    }
}

/// The event type's name in queries.
pub fn event_type_str(kind: LogEventKind) -> (r: &'static str)
    ensures
        r@ == event_type_s(kind),
{
    match kind {
        LogEventKind::SessionStart => "session_start",
        LogEventKind::Prompt => "prompt",
        LogEventKind::Completion => "completion",
        LogEventKind::Parsed => "parsed",
        LogEventKind::ParseFailed => "parse_failed",
        LogEventKind::ToolResult => "tool_result",
        LogEventKind::Verify => "verify",
        LogEventKind::HardFail => "hard_fail",
        LogEventKind::Progress => "progress",
        LogEventKind::SessionEnd => "session_end",
    }
}

/// What the queries read of one record: its turn, its kind, the tool it
/// names (a parsed call's or a result's), and its JSON text (`None` when it
/// could not be written out).
pub struct LogEntry {
    pub turn: usize,
    pub kind: LogEventKind,
    pub tool: Option<String>,
    pub json: Option<String>,
}

/// The record passes every filter that is given: same event type; a tool
/// name containing the given text (only calls and results name tools); JSON
/// text containing the query (a record without JSON text passes).
pub open spec fn entry_matches(e: LogEntry, f: SearchFilter) -> bool {
    &&& match f.event_type {
        Some(t) => event_type_s(e.kind) == t@,
        None => true,
    }
    &&& match f.tool_name {
        Some(t) => (e.kind == LogEventKind::Parsed || e.kind == LogEventKind::ToolResult) && match e.tool {
            Some(n) => contains_s(n@, t@),
            None => false,
        },
        None => true,
    }
    &&& match f.query_text {
        Some(q) => match e.json {
            Some(j) => contains_s(j@, q@),
            None => true,
        },
        None => true,
    }
}

/// The limit applied: the default for 0, else at most the maximum.
pub open spec fn search_limit(limit: int) -> int {
    if limit == 0 {
        SEARCH_DEFAULT_LIMIT as int
    } else if limit <= SEARCH_MAX_LIMIT {
        limit
    } else {
        SEARCH_MAX_LIMIT as int
    }
}

/// Positions of the matching records among the first `n`.
pub open spec fn matching(es: Seq<LogEntry>, f: SearchFilter, n: int) -> Seq<usize>
    decreases n,
{
    if n <= 0 || n > es.len() {
        Seq::empty()
    } else if entry_matches(es[n - 1], f) {
        matching(es, f, n - 1).push((n - 1) as usize)
    } else {
        matching(es, f, n - 1)
    }
}

/// The first (limit-clamped) matching records, in log order.
pub open spec fn search_s(es: Seq<LogEntry>, f: SearchFilter, limit: int) -> Seq<usize> {
    let m = matching(es, f, es.len() as int);
    if m.len() <= search_limit(limit) {
        m
    } else {
        m.take(search_limit(limit))
    }
}

fn entry_matches_exec(e: &LogEntry, f: &SearchFilter) -> (b: bool)
    ensures
        b == entry_matches(*e, *f),
{
    let type_ok = match f.event_type {
        Some(t) => chars_eq_str(&chars_of(event_type_str(e.kind)), t),
        None => true,
    };
    let tool_ok = match f.tool_name {
        Some(t) => (e.kind == LogEventKind::Parsed || e.kind == LogEventKind::ToolResult) && match &e.tool {
            Some(n) => contains(&chars_of(n.as_str()), &chars_of(t)),
            None => false,
        },
        None => true,
    };
    let text_ok = match f.query_text {
        Some(q) => match &e.json {
            Some(j) => contains(&chars_of(j.as_str()), &chars_of(q)),
            None => true,
        },
        None => true,
    };
    type_ok && tool_ok && text_ok
}

proof fn lemma_matching_len(es: Seq<LogEntry>, f: SearchFilter, n: int)
    requires
        0 <= n <= es.len(),
    ensures
        matching(es, f, n).len() <= n,
        forall|k: int| 0 <= k < matching(es, f, n).len() ==> (#[trigger] matching(es, f, n)[k]) < n,
    decreases n,
{
    if n > 0 {
        lemma_matching_len(es, f, n - 1);
    }
}

/// Records passing the filter, at most the clamped limit of them, in log
/// order (their positions).
pub fn search(entries: &Vec<LogEntry>, filter: &SearchFilter, limit: usize) -> (r: Vec<usize>)
    ensures
        r@ == search_s(entries@, *filter, limit as int),
{
    let lim = if limit == 0 {
        SEARCH_DEFAULT_LIMIT
    } else if limit <= SEARCH_MAX_LIMIT {
        limit
    } else {
        SEARCH_MAX_LIMIT
    };
    let mut out: Vec<usize> = Vec::new();
    let mut i: usize = 0;
    while i < entries.len() && out.len() < lim
        invariant
            i <= entries.len(),
            lim == search_limit(limit as int),
            out@ == matching(entries@, *filter, i as int),
            out@.len() <= lim,
        decreases entries.len() - i,
    {
        if entry_matches_exec(&entries[i], filter) {
            out.push(i);
        }
        i += 1;
    }
    proof {
        if i < entries.len() {
            lemma_matching_prefix(entries@, *filter, i as int, entries.len() as int);
        }
    }
    out
}

/// Matches of a prefix are a prefix of the matches of the whole.
proof fn lemma_matching_prefix(es: Seq<LogEntry>, f: SearchFilter, i: int, n: int)
    requires
        0 <= i <= n <= es.len(),
    ensures
        matching(es, f, n).take(matching(es, f, i).len() as int) == matching(es, f, i),
        matching(es, f, i).len() <= matching(es, f, n).len(),
    decreases n - i,
{
    if i < n {
        lemma_matching_prefix(es, f, i, n - 1);
        if entry_matches(es[n - 1], f) {
            let a = matching(es, f, n - 1);
            assert(matching(es, f, n).take(matching(es, f, i).len() as int) =~= a.take(matching(es, f, i).len() as int));
        }
    } else {
        assert(matching(es, f, n).take(matching(es, f, n).len() as int) =~= matching(es, f, n));
    }
}

/// Where the last records start: the count taken is the default for 0,
/// else at most the maximum; all records when fewer remain.
pub open spec fn tail_start_s(len: int, n: int) -> int {
    let k = if n == 0 {
        TAIL_DEFAULT_N as int
    } else if n <= TAIL_MAX_N {
        n
    } else {
        TAIL_MAX_N as int
    };
    if k >= len {
        0
    } else {
        len - k
    }
}

/// The position from which the last (clamped) `n` records run to the end.
pub fn tail_start(len: usize, n: usize) -> (r: usize)
    ensures
        r == tail_start_s(len as int, n as int),
{
    let k = if n == 0 {
        TAIL_DEFAULT_N
    } else if n <= TAIL_MAX_N {
        n
    } else {
        TAIL_MAX_N
    };
    if k >= len {
        0
    } else {
        len - k
    }
}

/// The last (clamped) `n` records, in log order (their positions).
pub fn tail(entries: &Vec<LogEntry>, n: usize) -> (r: Vec<usize>)
    ensures
        r@.len() == entries@.len() - tail_start_s(entries@.len() as int, n as int),
        forall|k: int| 0 <= k < r@.len() ==> #[trigger] r@[k] == tail_start_s(entries@.len() as int, n as int) + k,
{
    let start = tail_start(entries.len(), n);
    let mut out: Vec<usize> = Vec::new();
    let mut i: usize = start;
    while i < entries.len()
        invariant
            start <= i <= entries.len(),
            start == tail_start_s(entries@.len() as int, n as int),
            out@.len() == i - start,
            forall|k: int| 0 <= k < out@.len() ==> #[trigger] out@[k] == start + k,
        decreases entries.len() - i,
    {
        out.push(i);
        i += 1;
    }
    out
}

/// Positions of one turn's records, in log order.
pub fn get_turn(entries: &Vec<LogEntry>, turn: usize) -> (r: Vec<usize>)
    ensures
        forall|k: int| 0 <= k < r@.len() ==> (#[trigger] r@[k]) < entries@.len() && entries@[r@[k] as int].turn == turn,
        forall|k: int, m: int| 0 <= k < m < r@.len() ==> r@[k] < r@[m],
        forall|j: int| 0 <= j < entries@.len() && (#[trigger] entries@[j]).turn == turn ==> r@.contains(j as usize),
{
    let mut out: Vec<usize> = Vec::new();
    let mut i: usize = 0;
    while i < entries.len()
        invariant
            i <= entries.len(),
            forall|k: int| 0 <= k < out@.len() ==> (#[trigger] out@[k]) < i && entries@[out@[k] as int].turn == turn,
            forall|k: int, m: int| 0 <= k < m < out@.len() ==> out@[k] < out@[m],
            forall|j: int| 0 <= j < i && (#[trigger] entries@[j]).turn == turn ==> out@.contains(j as usize),
        decreases entries.len() - i,
    {
        if entries[i].turn == turn {
            let ghost before = out@;
            out.push(i);
            assert forall|j: int| 0 <= j < i + 1 && (#[trigger] entries@[j]).turn == turn implies out@.contains(j as usize) by {
                if j < i {
                    let w = choose|w: int| 0 <= w < before.len() && before[w] == j as usize;
                    assert(out@[w] == j as usize);
                } else {
                    assert(out@[before.len() as int] == j as usize);
                }
            }
        }
        i += 1;
    }
    out
}

} // verus!
