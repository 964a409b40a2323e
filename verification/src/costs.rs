//! The cost ledger's exact parts: skill display names, the token totals of
//! each scope, the scope choices, and the ledger's text layout. Amounts in
//! dollars (floating point) are computed and printed by the caller.
use vstd::prelude::*;
use crate::text::{chars_eq_str, chars_of, extend_str, push_pad_left, push_pad_right, pad_left_s, pad_right_s, string_of};

verus! {

/// Display name for a stored architect-ledger skill key: untagged work,
/// stored as `other`, is shown as `architect chat`.
pub open spec fn display_skill_s(skill: Seq<char>) -> Seq<char> {
    if skill == "other"@ {
        "architect chat"@
    } else {
        skill
    }
}

pub fn display_skill(skill: &str) -> (r: &str)
    ensures
        r@ == display_skill_s(skill@),
{
    proof {
        reveal_strlit("other");
        reveal_strlit("architect chat");
    }
    if chars_eq_str(&chars_of(skill), "other") {
        "architect chat"
    } else {
        skill
    }
}

/// Which units the Budget ledger renders.
#[derive(Clone, Copy, Debug, PartialEq, Eq, Structural)]
pub enum LedgerUnits {
    Dollars,
    Tokens,
}

impl Default for LedgerUnits {
    fn default() -> (u: Self)
        ensures
            u == LedgerUnits::Dollars,
    {
        LedgerUnits::Dollars
    }
}

/// A debit wrapped in parentheses; a missing value (`—`) gets the tight
/// `(—)` and two spaces of padding.
pub open spec fn paren_s(v: Seq<char>) -> Seq<char> {
    if v == "\u{2014}"@ {
        "(\u{2014})  "@
    } else {
        "("@ + v + ")"@
    }
}

pub fn paren(v: String) -> (r: String)
    ensures
        r@ == paren_s(v@),
{
    proof {
        reveal_strlit("\u{2014}");
        reveal_strlit("(\u{2014})  ");
        reveal_strlit("(");
        reveal_strlit(")");
    }
    if chars_eq_str(&chars_of(v.as_str()), "\u{2014}") {
        "(\u{2014})  ".to_string()
    } else {
        let mut out = chars_of("(");
        extend_str(&mut out, v.as_str());
        extend_str(&mut out, ")");
        string_of(&out)
    }
}

/// One ledger row: two spaces, the label left-aligned in 10 characters,
/// then the values right-aligned: three columns of 10 with a milestone
/// column, else the session and project values in columns of 9.
pub open spec fn make_row_s(label: Seq<char>, v1: Seq<char>, v2: Seq<char>, v3: Seq<char>, has_milestone: bool) -> Seq<char> {
    if has_milestone {
        "  "@ + pad_right_s(label, 10) + pad_left_s(v1, 10) + pad_left_s(v2, 10) + pad_left_s(v3, 10)
    } else {
        "  "@ + pad_right_s(label, 10) + pad_left_s(v1, 9) + pad_left_s(v3, 9)
    }
}

pub fn make_row(label: &str, v1: String, v2: String, v3: String, has_milestone: bool) -> (r: String)
    ensures
        r@ == make_row_s(label@, v1@, v2@, v3@, has_milestone),
{
    proof {
        reveal_strlit("  ");
    }
    let mut out = chars_of("  ");
    push_pad_right(&mut out, &chars_of(label), 10);
    if has_milestone {
        push_pad_left(&mut out, &chars_of(v1.as_str()), 10);
        push_pad_left(&mut out, &chars_of(v2.as_str()), 10);
        push_pad_left(&mut out, &chars_of(v3.as_str()), 10);
    } else {
        push_pad_left(&mut out, &chars_of(v1.as_str()), 9);
        push_pad_left(&mut out, &chars_of(v3.as_str()), 9);
    }
    string_of(&out)
}

/// The ledger header: `Spend` (or `Spend (tok)`) in 12 characters, then the
/// scope names right-aligned like the rows.
pub open spec fn ledger_header_s(units: LedgerUnits, has_milestone: bool) -> Seq<char> {
    let label = match units {
        LedgerUnits::Tokens => "Spend (tok)"@,
        LedgerUnits::Dollars => "Spend"@,
    };
    if has_milestone {
        pad_right_s(label, 12) + pad_left_s("Session"@, 10) + pad_left_s("Milestone"@, 10) + pad_left_s("Project"@, 10)
    } else {
        pad_right_s(label, 12) + pad_left_s("Session"@, 9) + pad_left_s("Project"@, 9)
    }
}

pub fn ledger_header(units: LedgerUnits, has_milestone: bool) -> (r: String)
    ensures
        r@ == ledger_header_s(units, has_milestone),
{
    let label = match units {
        LedgerUnits::Tokens => "Spend (tok)",
        LedgerUnits::Dollars => "Spend",
    };
    let mut out: Vec<char> = Vec::new();
    push_pad_right(&mut out, &chars_of(label), 12);
    if has_milestone {
        push_pad_left(&mut out, &chars_of("Session"), 10);
        push_pad_left(&mut out, &chars_of("Milestone"), 10);
        push_pad_left(&mut out, &chars_of("Project"), 10);
    } else {
        push_pad_left(&mut out, &chars_of("Session"), 9);
        push_pad_left(&mut out, &chars_of("Project"), 9);
    }
    string_of(&out)
}

// ---------------------------------------------------------------------------
// Token totals
// ---------------------------------------------------------------------------

pub open spec fn sat_u64(x: int) -> int {
    if x <= u64::MAX {
        x
    } else {
        u64::MAX as int
    }
}

fn sat_add(a: u64, b: u64) -> (r: u64)
    ensures
        r == sat_u64(a + b),
{
    if a <= u64::MAX - b {
        a + b
    } else {
        u64::MAX
    }
}

/// The four token classes summed left to right, each addition saturating.
pub open spec fn token_total_s(a: int, b: int, c: int, d: int) -> int {
    sat_u64(sat_u64(sat_u64(a + b) + c) + d)
}

pub fn token_total(a: u64, b: u64, c: u64, d: u64) -> (r: u64)
    ensures
        r == token_total_s(a as int, b as int, c as int, d as int),
{
    sat_add(sat_add(sat_add(a, b), c), d)
}

/// The executor token fields of one phase run.
pub struct ExecRun {
    pub project_id: Option<String>,
    pub milestone_id: Option<String>,
    pub ts: u64,
    pub input_tokens: u32,
    pub output_tokens: u32,
    pub cache_read_tokens: u32,
    pub cache_write_tokens: u32,
}

pub open spec fn opt_eq(o: Option<String>, s: Seq<char>) -> bool {
    match o {
        Some(x) => x@ == s,
        None => false,
    }
}

/// A run is in scope: the project's, and the milestone's when one is given.
pub open spec fn in_scope(r: ExecRun, project: Seq<char>, milestone: Option<Seq<char>>) -> bool {
    &&& opt_eq(r.project_id, project)
    &&& match milestone {
        Some(m) => opt_eq(r.milestone_id, m),
        None => true,
    }
}

/// Executor (input, output, cache read, cache write) tokens of the runs in
/// scope, each summed saturating.
pub open spec fn scope_tokens_s(runs: Seq<ExecRun>, project: Seq<char>, milestone: Option<Seq<char>>) -> (int, int, int, int)
    decreases runs.len(),
{
    if runs.len() == 0 {
        (0, 0, 0, 0)
    } else {
        let (a, b, c, d) = scope_tokens_s(runs.drop_last(), project, milestone);
        let r = runs.last();
        if in_scope(r, project, milestone) {
            (
                sat_u64(a + r.input_tokens),
                sat_u64(b + r.output_tokens),
                sat_u64(c + r.cache_read_tokens),
                sat_u64(d + r.cache_write_tokens),
            )
        } else {
            (a, b, c, d)
        }
    }
}

pub open spec fn str_opt(o: Option<&str>) -> Option<Seq<char>> {
    match o {
        Some(s) => Some(s@),
        None => None,
    }
}

fn opt_eq_exec(o: &Option<String>, s: &str) -> (b: bool)
    ensures
        b == opt_eq(*o, s@),
{
    match o {
        Some(x) => chars_eq_str(&chars_of(x.as_str()), s),
        None => false,
    }
}

/// Executor token totals of a project's runs, all or one milestone's.
pub fn scope_tokens(runs: &Vec<ExecRun>, project_id: &str, milestone_id: Option<&str>) -> (r: (u64, u64, u64, u64))
    ensures
        (r.0 as int, r.1 as int, r.2 as int, r.3 as int) == scope_tokens_s(runs@, project_id@, str_opt(milestone_id)),
{
    let mut t: (u64, u64, u64, u64) = (0, 0, 0, 0);
    let mut k: usize = 0;
    while k < runs.len()
        invariant
            k <= runs.len(),
            (t.0 as int, t.1 as int, t.2 as int, t.3 as int) == scope_tokens_s(runs@.take(k as int), project_id@, str_opt(milestone_id)),
        decreases runs.len() - k,
    {
        assert(runs@.take(k + 1).drop_last() =~= runs@.take(k as int));
        let r = &runs[k];
        let ok = opt_eq_exec(&r.project_id, project_id) && match milestone_id {
            Some(m) => opt_eq_exec(&r.milestone_id, m),
            None => true,
        };
        if ok {
            t = (
                sat_add(t.0, r.input_tokens as u64),
                sat_add(t.1, r.output_tokens as u64),
                sat_add(t.2, r.cache_read_tokens as u64),
                sat_add(t.3, r.cache_write_tokens as u64),
            );
        }
        k += 1;
    }
    assert(runs@.take(runs.len() as int) =~= runs@);
    t
}

/// `k` is the run `max_by_key(ts)` picks among the project's runs that
/// carry a milestone: none later in time, and none later in the list with
/// the same time.
pub open spec fn is_latest_milestone_run(runs: Seq<ExecRun>, project: Seq<char>, k: int) -> bool {
    &&& 0 <= k < runs.len()
    &&& opt_eq(runs[k].project_id, project) && runs[k].milestone_id is Some
    &&& forall|m: int| 0 <= m < runs.len() && opt_eq((#[trigger] runs[m]).project_id, project) && runs[m].milestone_id is Some ==> runs[m].ts <= runs[k].ts
    &&& forall|m: int| k < m < runs.len() && opt_eq((#[trigger] runs[m]).project_id, project) && runs[m].milestone_id is Some ==> runs[m].ts < runs[k].ts
}

/// The milestone of the project's latest run that names one.
pub fn latest_milestone_id(runs: &Vec<ExecRun>, project_id: &str) -> (r: Option<String>)
    ensures
        match r {
            Some(m) => exists|k: int| is_latest_milestone_run(runs@, project_id@, k) && runs@[k].milestone_id == Some(m),
            None => forall|m: int| 0 <= m < runs@.len() ==> !(opt_eq((#[trigger] runs@[m]).project_id, project_id@) && runs@[m].milestone_id is Some),
        },
{
    let mut best: Option<usize> = None;
    let mut i: usize = 0;
    while i < runs.len()
        invariant
            i <= runs.len(),
            match best {
                Some(k) => k < i && is_latest_milestone_run(runs@.take(i as int), project_id@, k as int),
                None => forall|m: int| 0 <= m < i ==> !(opt_eq((#[trigger] runs@[m]).project_id, project_id@) && runs@[m].milestone_id is Some),
            },
        decreases runs.len() - i,
    {
        let ghost pre = runs@.take(i as int);
        let ghost next = runs@.take(i + 1);
        assert(forall|m: int| 0 <= m < i ==> next[m] == pre[m]);
        let r = &runs[i];
        if opt_eq_exec(&r.project_id, project_id) && r.milestone_id.is_some() {
            let take = match best {
                Some(b) => r.ts >= runs[b].ts,
                None => true,
            };
            if take {
                best = Some(i);
                assert(is_latest_milestone_run(next, project_id@, i as int)) by {
                    assert forall|m: int| 0 <= m < next.len() && opt_eq((#[trigger] next[m]).project_id, project_id@) && next[m].milestone_id is Some implies next[m].ts <= next[i as int].ts by {
                        if m < i {
                            assert(pre[m] == next[m]);
                        }
                    }
                }
            } else {
                let b = best.unwrap();
                assert(is_latest_milestone_run(next, project_id@, b as int)) by {
                    assert forall|m: int| 0 <= m < next.len() && opt_eq((#[trigger] next[m]).project_id, project_id@) && next[m].milestone_id is Some implies next[m].ts <= next[b as int].ts by {
                        if m < i {
                            assert(pre[m] == next[m]);
                        }
                    }
                    assert forall|m: int| b < m < next.len() && opt_eq((#[trigger] next[m]).project_id, project_id@) && next[m].milestone_id is Some implies next[m].ts < next[b as int].ts by {
                        if m < i {
                            assert(pre[m] == next[m]);
                        }
                    }
                }
            }
        } else {
            match best {
                Some(b) => {
                    assert(is_latest_milestone_run(next, project_id@, b as int)) by {
                        assert forall|m: int| 0 <= m < next.len() && opt_eq((#[trigger] next[m]).project_id, project_id@) && next[m].milestone_id is Some implies next[m].ts <= next[b as int].ts by {
                            if m < i {
                                assert(pre[m] == next[m]);
                            }
                        }
                        assert forall|m: int| b < m < next.len() && opt_eq((#[trigger] next[m]).project_id, project_id@) && next[m].milestone_id is Some implies next[m].ts < next[b as int].ts by {
                            if m < i {
                                assert(pre[m] == next[m]);
                            }
                        }
                    }
                },
                None => {},
            }
        }
        i += 1;
    }
    assert(runs@.take(runs.len() as int) =~= runs@);
    match best {
        Some(k) => {
            let m = runs[k].milestone_id.clone();
            assert(m == runs@[k as int].milestone_id);
            m
        },
        None => None,
    }
}

/// One architect activity as the assist count reads it.
pub struct ActivityRow {
    pub project_id: Option<String>,
    pub activity: String,
}

pub open spec fn is_assist(a: ActivityRow, project: Seq<char>) -> bool {
    opt_eq(a.project_id, project) && a.activity@ == "assist"@
}

pub open spec fn assist_count_s(acts: Seq<ActivityRow>, project: Seq<char>) -> nat
    decreases acts.len(),
{
    if acts.len() == 0 {
        0
    } else {
        assist_count_s(acts.drop_last(), project) + if is_assist(acts.last(), project) {
            1nat
        } else {
            0nat
        }
    }
}

/// The project's `assist` activities, counted (as a 32-bit count, which
/// wraps as the cast from the full count does).
pub fn assist_count(acts: &Vec<ActivityRow>, project_id: &str) -> (r: u32)
    ensures
        r == assist_count_s(acts@, project_id@) % 0x1_0000_0000,
{
    let mut n: usize = 0;
    let mut k: usize = 0;
    while k < acts.len()
        invariant
            k <= acts.len(),
            n == assist_count_s(acts@.take(k as int), project_id@),
            n <= k,
        decreases acts.len() - k,
    {
        assert(acts@.take(k + 1).drop_last() =~= acts@.take(k as int));
        let a = &acts[k];
        if opt_eq_exec(&a.project_id, project_id) && chars_eq_str(&chars_of(a.activity.as_str()), "assist") {
            n += 1;
        }
        k += 1;
    }
    proof {
        reveal_strlit("assist");
    }
    assert(acts@.take(acts.len() as int) =~= acts@);
    ((n as u64) % 0x1_0000_0000u64) as u32
}

} // verus!
