//! Milestone naming and choice, phase-doc status, and the token savings
//! summed from telemetry runs, for the dashboard header.
use vstd::prelude::*;
use crate::num::{parse_u32, parse_u32_s};
use crate::runner::{count_lead_digits, lead_digits};
use crate::text::{
    chars_of, contains_s, contains_str, ends_with_s, ends_with_str, extend_chars, extend_str,
    find_char, first_idx, join_chars, join_s, lines_of, lines_s, push_char, slice_chars,
    split_chars, split_s, starts_with_s, starts_with_str, string_of, views,
};

verus! {

// ---------------------------------------------------------------------------
// Milestone names
// ---------------------------------------------------------------------------

/// The leading `M<n>` number of a directory name like `M15-dashboard`:
/// `None` unless it starts with `M` and a digit, or when the digits do not
/// fit in 32 bits.
pub open spec fn milestone_number_s(dir: Seq<char>) -> Option<int> {
    if dir.len() >= 1 && dir[0] == 'M' {
        let rest = dir.skip(1);
        let ds = rest.take(lead_digits(rest) as int);
        if ds.len() == 0 {
            None
        } else {
            parse_u32_s(ds)
        }
    } else {
        None
    }
}

/// Parse the leading `M<n>` milestone number from a directory name like
/// `M15-dashboard-polish-2`.
pub fn milestone_number(dir: &str) -> (r: Option<u32>)
    ensures
        match r {
            Some(n) => milestone_number_s(dir@) == Some(n as int),
            None => milestone_number_s(dir@) is None,
        },
{
    let v = chars_of(dir);
    if v.len() == 0 || v[0] != 'M' {
        return None;
    }
    let n = count_lead_digits(&v, 1);
    if n == 0 {
        assert(v@.skip(1).take(0) =~= Seq::<char>::empty());
        return None;
    }
    let ds = slice_chars(&v, 1, 1 + n);
    assert(ds@ =~= v@.skip(1).take(n as int));
    parse_u32(&ds)
}

/// `char::to_uppercase` of one character, as text. Its full mapping is
/// Unicode's and is not written out here; for ASCII it is the familiar one.
pub uninterp spec fn char_upper(c: char) -> Seq<char>;

/// `char::to_uppercase`, collected: the uppercase form of `c` (one or more
/// characters). The contract names the result and states the ASCII cases
/// that the standard library documents: `a`–`z` map to `A`–`Z`, and other
/// ASCII characters map to themselves.
#[verifier::external_body]
fn upper_of(c: char) -> (r: String)
    ensures
        r@ == char_upper(c),
        'a' <= c <= 'z' ==> r@ == seq![((c as u32) - 32) as char],
        (c as u32) < 128 && !('a' <= c <= 'z') ==> r@ == seq![c],
{
    c.to_uppercase().collect::<String>()
}

/// A word with its first character uppercased, the rest unchanged.
pub open spec fn capitalize_s(w: Seq<char>) -> Seq<char> {
    if w.len() == 0 {
        w
    } else {
        char_upper(w[0]) + w.skip(1)
    }
}

/// Uppercase the first character of `w`, leaving the rest unchanged:
/// `"polish"` → `"Polish"`, `"2"` → `"2"`, `""` → `""`.
pub fn capitalize_word(w: &Vec<char>) -> (r: Vec<char>)
    ensures
        r@ == capitalize_s(w@),
{
    if w.len() == 0 {
        return Vec::new();
    }
    let up = upper_of(w[0]);
    let mut r = chars_of(up.as_str());
    let rest = slice_chars(w, 1, w.len());
    extend_chars(&mut r, &rest);
    assert(rest@ =~= w@.skip(1));
    r
}

/// `M15-dashboard-polish-2` → `M15 — Dashboard Polish 2`: the `M<n>` part
/// before the first `-`, an em-dash, then the remaining `-`-separated
/// words capitalized and joined by spaces. A name not of the shape
/// `M<n>-<rest>` is returned unchanged.
pub open spec fn format_milestone_name_s(dir: Seq<char>) -> Seq<char> {
    let i = first_idx(dir, '-');
    if i >= 0 && milestone_number_s(dir.take(i)) is Some {
        dir.take(i) + " \u{2014} "@ + join_s(
            split_s(dir.skip(i + 1), '-').map_values(|w: Seq<char>| capitalize_s(w)),
            " "@,
        )
    } else {
        dir
    }
}

/// Format a milestone directory name into a display label.
pub fn format_milestone_name(dir: &str) -> (r: String)
    ensures
        r@ == format_milestone_name_s(dir@),
{
    let v = chars_of(dir);
    match find_char(&v, '-') {
        Some(i) => {
            let prefix = slice_chars(&v, 0, i);
            assert(prefix@ =~= v@.take(i as int));
            let ps = string_of(&prefix);
            if milestone_number(ps.as_str()).is_none() {
                return dir.to_string();
            }
            let rest = slice_chars(&v, i + 1, v.len());
            assert(rest@ =~= v@.skip(i + 1));
            let words = split_chars(&rest, '-');
            let mut caps: Vec<Vec<char>> = Vec::new();
            let mut k: usize = 0;
            while k < words.len()
                invariant
                    k <= words.len(),
                    views(caps@) == views(words@).take(k as int).map_values(
                        |w: Seq<char>| capitalize_s(w),
                    ),
                decreases words.len() - k,
            {
                let c = capitalize_word(&words[k]);
                let ghost before = views(caps@);
                caps.push(c);
                assert(views(words@)[k as int] == words@[k as int]@);
                assert(views(caps@) =~= before.push(capitalize_s(words@[k as int]@)));
                assert(views(words@).take(k + 1).map_values(|w: Seq<char>| capitalize_s(w)) =~= views(
                    words@,
                ).take(k as int).map_values(|w: Seq<char>| capitalize_s(w)).push(
                    capitalize_s(views(words@)[k as int]),
                ));
                k += 1;
            }
            assert(views(words@).take(words.len() as int) =~= views(words@));
            let mut sep: Vec<char> = Vec::new();
            sep.push(' ');
            let joined = join_chars(&caps, &sep);
            let mut out = prefix;
            extend_str(&mut out, " \u{2014} ");
            extend_chars(&mut out, &joined);
            proof {
                reveal_strlit(" \u{2014} ");
                reveal_strlit(" ");
                assert(sep@ =~= " "@);
            }
            string_of(&out)
        },
        None => dir.to_string(),
    }
}

// ---------------------------------------------------------------------------
// Phase docs and the active milestone
// ---------------------------------------------------------------------------

/// A phase doc is done when its first line mentioning `Status:` also says
/// `done`; without such a line it is not.
pub open spec fn phase_doc_is_done_s(body: Seq<char>) -> bool {
    let ls = lines_s(body);
    exists|k: int|
        0 <= k < ls.len() && contains_s(#[trigger] ls[k], "Status:"@) && contains_s(ls[k], "done"@)
            && forall|m: int| 0 <= m < k ==> !contains_s(#[trigger] ls[m], "Status:"@)
}

/// True when a phase doc's `**Status:**` line reads `done`.
pub fn phase_doc_is_done(body: &str) -> (b: bool)
    ensures
        b == phase_doc_is_done_s(body@),
{
    let v = chars_of(body);
    let ls = lines_of(&v);
    let mut k: usize = 0;
    while k < ls.len()
        invariant
            k <= ls.len(),
            views(ls@) == lines_s(body@),
            forall|m: int| 0 <= m < k ==> !contains_s(#[trigger] lines_s(body@)[m], "Status:"@),
        decreases ls.len() - k,
    {
        assert(views(ls@)[k as int] == ls@[k as int]@);
        if contains_str(&ls[k], "Status:") {
            let d = contains_str(&ls[k], "done");
            if !d {
                assert forall|j: int|
                    0 <= j < lines_s(body@).len() && contains_s(#[trigger] lines_s(body@)[j], "Status:"@)
                        && contains_s(lines_s(body@)[j], "done"@) implies !(forall|m: int|
                    0 <= m < j ==> !contains_s(#[trigger] lines_s(body@)[m], "Status:"@)) by {
                    if j > k as int {
                        assert(contains_s(lines_s(body@)[k as int], "Status:"@));
                    }
                }
            }
            return d;
        }
        k += 1;
    }
    false
}

/// A file in a milestone directory is the running phase's doc: it starts
/// with `<phase>-` and ends with `.md`.
pub open spec fn is_phase_doc_for_s(fname: Seq<char>, phase: Seq<char>) -> bool {
    starts_with_s(fname, phase + "-"@) && ends_with_s(fname, ".md"@)
}

pub fn is_phase_doc_for(fname: &str, phase: &str) -> (b: bool)
    ensures
        b == is_phase_doc_for_s(fname@, phase@),
{
    let f = chars_of(fname);
    let mut p = chars_of(phase);
    p.push('-');
    proof {
        reveal_strlit("-");
        assert(p@ =~= phase@ + "-"@);
    }
    crate::text::starts_with(&f, &p) && ends_with_str(&f, ".md")
}

/// A milestone directory holding a doc of the running phase: its number,
/// name, and whether that doc is still open.
pub struct MilestoneCandidate {
    pub number: u32,
    pub dir: String,
    pub active: bool,
}

pub open spec fn cand_ok(c: MilestoneCandidate, active_only: bool) -> bool {
    !active_only || c.active
}

/// `k` is the candidate `Iterator::max_by_key` picks among those that pass:
/// it passes, no passing candidate has a larger number, and no later
/// passing candidate ties it.
pub open spec fn is_last_max(cs: Seq<MilestoneCandidate>, active_only: bool, k: int) -> bool {
    &&& 0 <= k < cs.len()
    &&& cand_ok(cs[k], active_only)
    &&& forall|m: int| 0 <= m < cs.len() && cand_ok(#[trigger] cs[m], active_only) ==> cs[m].number <= cs[k].number
    &&& forall|m: int| k < m < cs.len() && cand_ok(#[trigger] cs[m], active_only) ==> cs[m].number < cs[k].number
}

fn last_max(cs: &Vec<MilestoneCandidate>, active_only: bool) -> (r: Option<usize>)
    ensures
        match r {
            Some(k) => is_last_max(cs@, active_only, k as int),
            None => forall|m: int| 0 <= m < cs@.len() ==> !cand_ok(#[trigger] cs@[m], active_only),
        },
{
    let mut best: Option<usize> = None;
    let mut i: usize = 0;
    while i < cs.len()
        invariant
            i <= cs.len(),
            match best {
                Some(k) => is_last_max(cs@.take(i as int), active_only, k as int) && k < i,
                None => forall|m: int| 0 <= m < i ==> !cand_ok(#[trigger] cs@[m], active_only),
            },
        decreases cs.len() - i,
    {
        let c = &cs[i];
        let ghost pre = cs@.take(i as int);
        let ghost next = cs@.take(i + 1);
        assert(forall|m: int| 0 <= m < i ==> next[m] == pre[m]);
        assert(next[i as int] == cs@[i as int]);
        if !active_only || c.active {
            let take = match best {
                Some(b) => c.number >= cs[b].number,
                None => true,
            };
            if take {
                best = Some(i);
                assert(is_last_max(next, active_only, i as int)) by {
                    assert forall|m: int| 0 <= m < next.len() && cand_ok(#[trigger] next[m], active_only) implies next[m].number <= next[i as int].number by {
                        if m < i {
                            assert(pre[m] == next[m]);
                        }
                    }
                }
            } else {
                let b = best.unwrap();
                assert(is_last_max(next, active_only, b as int)) by {
                    assert forall|m: int| 0 <= m < next.len() && cand_ok(#[trigger] next[m], active_only) implies next[m].number <= next[b as int].number by {
                        if m < i {
                            assert(pre[m] == next[m]);
                        }
                    }
                    assert forall|m: int| b < m < next.len() && cand_ok(#[trigger] next[m], active_only) implies next[m].number < next[b as int].number by {
                        if m < i {
                            assert(pre[m] == next[m]);
                        }
                    }
                }
            }
        } else {
            match best {
                Some(b) => {
                    assert(is_last_max(next, active_only, b as int)) by {
                        assert forall|m: int| 0 <= m < next.len() && cand_ok(#[trigger] next[m], active_only) implies next[m].number <= next[b as int].number by {
                            if m < i {
                                assert(pre[m] == next[m]);
                            }
                        }
                        assert forall|m: int| b < m < next.len() && cand_ok(#[trigger] next[m], active_only) implies next[m].number < next[b as int].number by {
                            if m < i {
                                assert(pre[m] == next[m]);
                            }
                        }
                    }
                },
                None => {},
            }
        }
        i += 1;
    }
    assert(cs@.take(cs.len() as int) =~= cs@);
    best
}

/// Which candidate is shown: the highest-numbered active one (the last of
/// equals), else the highest-numbered of all, else none.
pub open spec fn chosen_milestone(cs: Seq<MilestoneCandidate>, k: int) -> bool {
    if exists|m: int| 0 <= m < cs.len() && (#[trigger] cs[m]).active {
        is_last_max(cs, true, k)
    } else {
        is_last_max(cs, false, k)
    }
}

/// The milestone directory for the running phase: prefer an active
/// milestone; else the highest-numbered match.
pub fn choose_milestone_dir(cs: &Vec<MilestoneCandidate>) -> (r: Option<String>)
    ensures
        match r {
            Some(d) => exists|k: int| chosen_milestone(cs@, k) && d@ == cs@[k].dir@,
            None => cs@.len() == 0,
        },
{
    match last_max(cs, true) {
        Some(k) => {
            assert(cs@[k as int].active);
            assert(chosen_milestone(cs@, k as int));
            let d = cs[k].dir.clone();
            assert(d@ == cs@[k as int].dir@);
            Some(d)
        },
        None => match last_max(cs, false) {
            Some(k) => {
                assert(!exists|m: int| 0 <= m < cs@.len() && (#[trigger] cs@[m]).active) by {
                    assert forall|m: int| 0 <= m < cs@.len() implies !(#[trigger] cs@[m]).active by {
                        assert(!cand_ok(cs@[m], true));
                    }
                }
                assert(chosen_milestone(cs@, k as int));
                let d = cs[k].dir.clone();
                assert(d@ == cs@[k as int].dir@);
                Some(d)
            },
            None => {
                if cs.len() > 0 {
                    assert(cand_ok(cs@[0], false));
                }
                None
            },
        },
    }
}

/// The picked candidate is unique: at most one index satisfies the choice.
pub proof fn lemma_choice_unique(cs: Seq<MilestoneCandidate>, k1: int, k2: int)
    requires
        chosen_milestone(cs, k1),
        chosen_milestone(cs, k2),
    ensures
        k1 == k2,
{
    if k1 < k2 {
        if exists|m: int| 0 <= m < cs.len() && (#[trigger] cs[m]).active {
            assert(cand_ok(cs[k2], true));
        } else {
            assert(cand_ok(cs[k2], false));
        }
    } else if k2 < k1 {
        if exists|m: int| 0 <= m < cs.len() && (#[trigger] cs[m]).active {
            assert(cand_ok(cs[k1], true));
        } else {
            assert(cand_ok(cs[k1], false));
        }
    }
}

/// A file of a milestone directory: its name and its text (`None` when it
/// could not be read).
pub struct DirFile {
    pub name: String,
    pub body: Option<String>,
}

/// A milestone directory as listed: its name and its files, in listing
/// order.
pub struct MilestoneDir {
    pub name: String,
    pub files: Vec<DirFile>,
}

/// The first file among the first `n` that is a doc of `phase`, or -1.
pub open spec fn first_phase_doc(files: Seq<DirFile>, phase: Seq<char>, n: int) -> int
    decreases n,
{
    if n <= 0 || n > files.len() {
        -1
    } else if first_phase_doc(files, phase, n - 1) >= 0 {
        first_phase_doc(files, phase, n - 1)
    } else if is_phase_doc_for_s(files[n - 1].name@, phase) {
        n - 1
    } else {
        -1
    }
}

/// The candidate a directory makes for `phase`: a numbered milestone with a
/// doc of the phase, active while that doc (when readable) is not done.
pub open spec fn candidate_of(d: MilestoneDir, phase: Seq<char>) -> Option<MilestoneCandidate> {
    let k = first_phase_doc(d.files@, phase, d.files@.len() as int);
    match milestone_number_s(d.name@) {
        Some(n) => if k >= 0 {
            Some(
                MilestoneCandidate {
                    number: n as u32,
                    dir: d.name,
                    active: match d.files@[k].body {
                        Some(b) => !phase_doc_is_done_s(b@),
                        None => false,
                    },
                },
            )
        } else {
            None
        },
        None => None,
    }
}

/// The candidates of the first `n` directories, in listing order.
pub open spec fn candidates(dirs: Seq<MilestoneDir>, phase: Seq<char>, n: int) -> Seq<MilestoneCandidate>
    decreases n,
{
    if n <= 0 || n > dirs.len() {
        Seq::empty()
    } else {
        match candidate_of(dirs[n - 1], phase) {
            Some(c) => candidates(dirs, phase, n - 1).push(c),
            None => candidates(dirs, phase, n - 1),
        }
    }
}

proof fn lemma_first_doc_stays(files: Seq<DirFile>, phase: Seq<char>, k: int, n: int)
    requires
        0 <= k < n <= files.len(),
        first_phase_doc(files, phase, k + 1) == k,
    ensures
        first_phase_doc(files, phase, n) == k,
    decreases n,
{
    if n > k + 1 {
        lemma_first_doc_stays(files, phase, k, n - 1);
    }
}

fn candidate_from(d: &MilestoneDir, phase: &str) -> (r: Option<MilestoneCandidate>)
    ensures
        match (r, candidate_of(*d, phase@)) {
            (Some(c), Some(s)) => c.number == s.number && c.dir@ == s.dir@ && c.active == s.active,
            (None, None) => true,
            _ => false,
        },
{
    let number = match milestone_number(d.name.as_str()) {
        Some(n) => n,
        None => return None,
    };
    let mut k: usize = 0;
    while k < d.files.len()
        invariant
            k <= d.files@.len(),
            first_phase_doc(d.files@, phase@, k as int) == -1,
            milestone_number_s(d.name@) == Some(number as int),
        decreases d.files@.len() - k,
    {
        if is_phase_doc_for(d.files[k].name.as_str(), phase) {
            proof {
                lemma_first_doc_stays(d.files@, phase@, k as int, d.files@.len() as int);
            }
            let active = match &d.files[k].body {
                Some(b) => !phase_doc_is_done(b.as_str()),
                None => false,
            };
            return Some(MilestoneCandidate { number, dir: d.name.clone(), active });
        }
        k += 1;
    }
    None
}

pub open spec fn cand_view(c: MilestoneCandidate) -> (u32, Seq<char>, bool) {
    (c.number, c.dir@, c.active)
}

pub open spec fn same_cands(a: Seq<MilestoneCandidate>, b: Seq<MilestoneCandidate>) -> bool {
    &&& a.len() == b.len()
    &&& forall|k: int| 0 <= k < a.len() ==> cand_view(#[trigger] a[k]) == cand_view(b[k])
}

proof fn lemma_chosen_same(a: Seq<MilestoneCandidate>, b: Seq<MilestoneCandidate>, k: int)
    requires
        same_cands(a, b),
        chosen_milestone(a, k),
    ensures
        chosen_milestone(b, k),
{
    let act = exists|m: int| 0 <= m < a.len() && (#[trigger] a[m]).active;
    if act {
        let m = choose|m: int| 0 <= m < a.len() && (#[trigger] a[m]).active;
        assert(cand_view(a[m]) == cand_view(b[m]));
        assert(b[m].active);
    } else {
        assert forall|m: int| 0 <= m < b.len() implies !(#[trigger] b[m]).active by {
            assert(cand_view(a[m]) == cand_view(b[m]));
        }
    }
    assert(cand_view(a[k]) == cand_view(b[k]));
    assert forall|m: int| 0 <= m < b.len() && cand_ok(#[trigger] b[m], act) implies b[m].number <= b[k].number by {
        assert(cand_view(a[m]) == cand_view(b[m]));
    }
    assert forall|m: int| k < m < b.len() && cand_ok(#[trigger] b[m], act) implies b[m].number < b[k].number by {
        assert(cand_view(a[m]) == cand_view(b[m]));
    }
}

/// The milestone directory of the running phase: among the numbered
/// milestone directories holding a doc of the phase (the first such doc in
/// listing order decides whether the milestone is active), the choice of
/// `choose_milestone_dir`; none without a phase.
pub fn resolve_milestone_dir(dirs: &Vec<MilestoneDir>, phase: Option<&str>) -> (r: Option<String>)
    ensures
        match phase {
            None => r is None,
            Some(p) => {
                let cs = candidates(dirs@, p@, dirs@.len() as int);
                match r {
                    Some(d) => exists|k: int| chosen_milestone(cs, k) && d@ == cs[k].dir@,
                    None => cs.len() == 0,
                }
            },
        },
{
    let p = match phase {
        Some(p) => p,
        None => return None,
    };
    let mut cs: Vec<MilestoneCandidate> = Vec::new();
    let mut i: usize = 0;
    while i < dirs.len()
        invariant
            i <= dirs@.len(),
            same_cands(cs@, candidates(dirs@, p@, i as int)),
        decreases dirs@.len() - i,
    {
        let ghost before = candidates(dirs@, p@, i as int);
        match candidate_from(&dirs[i], p) {
            Some(c) => {
                cs.push(c);
                assert(candidates(dirs@, p@, i + 1) == before.push(candidate_of(dirs@[i as int], p@)->0));
            },
            None => {
                assert(candidates(dirs@, p@, i + 1) == before);
            },
        }
        i += 1;
    }
    let ghost spec_cs = candidates(dirs@, p@, dirs@.len() as int);
    let r = choose_milestone_dir(&cs);
    proof {
        match &r {
            Some(d) => {
                let k = choose|k: int| chosen_milestone(cs@, k) && d@ == cs@[k].dir@;
                lemma_chosen_same(cs@, spec_cs, k);
                assert(cand_view(cs@[k]) == cand_view(spec_cs[k]));
            },
            None => {},
        }
    }
    r
}

// ---------------------------------------------------------------------------
// Savings
// ---------------------------------------------------------------------------

/// The telemetry fields the savings read from one phase run.
pub struct RunTokens {
    pub project_id: Option<String>,
    pub milestone_id: Option<String>,
    pub input_tokens: u32,
    pub output_tokens: u32,
}

pub open spec fn opt_is(o: Option<String>, s: Seq<char>) -> bool {
    match o {
        Some(x) => x@ == s,
        None => false,
    }
}

/// A run counts: it belongs to the project and, when a milestone is given,
/// to that milestone.
pub open spec fn run_counts(r: RunTokens, project: Seq<char>, milestone: Option<Seq<char>>) -> bool {
    &&& opt_is(r.project_id, project)
    &&& match milestone {
        Some(m) => opt_is(r.milestone_id, m),
        None => true,
    }
}

pub open spec fn sat_u32(x: int) -> int {
    if x <= u32::MAX {
        x
    } else {
        u32::MAX as int
    }
}

/// The running (input, output) totals of the counted runs, each addition
/// saturating at `u32::MAX`.
pub open spec fn sat_totals(runs: Seq<RunTokens>, project: Seq<char>, milestone: Option<Seq<char>>) -> (int, int)
    decreases runs.len(),
{
    if runs.len() == 0 {
        (0, 0)
    } else {
        let (i, o) = sat_totals(runs.drop_last(), project, milestone);
        let r = runs.last();
        if run_counts(r, project, milestone) {
            (sat_u32(i + r.input_tokens), sat_u32(o + r.output_tokens))
        } else {
            (i, o)
        }
    }
}

/// The exact (input, output) sums of the counted runs.
pub open spec fn exact_totals(runs: Seq<RunTokens>, project: Seq<char>, milestone: Option<Seq<char>>) -> (int, int)
    decreases runs.len(),
{
    if runs.len() == 0 {
        (0, 0)
    } else {
        let (i, o) = exact_totals(runs.drop_last(), project, milestone);
        let r = runs.last();
        if run_counts(r, project, milestone) {
            (i + r.input_tokens, o + r.output_tokens)
        } else {
            (i, o)
        }
    }
}

/// Saturating at each step is the same as saturating the exact sum once:
/// the totals are the true sums, capped at `u32::MAX`.
pub proof fn lemma_sat_totals_exact(runs: Seq<RunTokens>, project: Seq<char>, milestone: Option<Seq<char>>)
    ensures
        sat_totals(runs, project, milestone).0 == sat_u32(exact_totals(runs, project, milestone).0),
        sat_totals(runs, project, milestone).1 == sat_u32(exact_totals(runs, project, milestone).1),
        exact_totals(runs, project, milestone).0 >= 0,
        exact_totals(runs, project, milestone).1 >= 0,
    decreases runs.len(),
{
    if runs.len() > 0 {
        lemma_sat_totals_exact(runs.drop_last(), project, milestone);
    }
}

pub open spec fn str_opt_view(o: Option<&str>) -> Option<Seq<char>> {
    match o {
        Some(s) => Some(s@),
        None => None,
    }
}

fn opt_eq_str(o: &Option<String>, s: &str) -> (b: bool)
    ensures
        b == opt_is(*o, s@),
{
    match o {
        Some(x) => crate::text::chars_eq_str(&chars_of(x.as_str()), s),
        None => false,
    }
}

fn sum_runs(runs: &Vec<RunTokens>, project: &str, milestone: Option<&str>) -> (r: (u32, u32))
    ensures
        r.0 == sat_totals(runs@, project@, str_opt_view(milestone)).0,
        r.1 == sat_totals(runs@, project@, str_opt_view(milestone)).1,
{
    let ghost ms = str_opt_view(milestone);
    let mut i_tot: u32 = 0;
    let mut o_tot: u32 = 0;
    let mut k: usize = 0;
    while k < runs.len()
        invariant
            k <= runs.len(),
            ms == str_opt_view(milestone),
            (i_tot as int, o_tot as int) == sat_totals(runs@.take(k as int), project@, ms),
        decreases runs.len() - k,
    {
        assert(runs@.take(k + 1).drop_last() =~= runs@.take(k as int));
        let r = &runs[k];
        let counts = opt_eq_str(&r.project_id, project) && match milestone {
            Some(m) => opt_eq_str(&r.milestone_id, m),
            None => true,
        };
        if counts {
            i_tot = i_tot.saturating_add(r.input_tokens);
            o_tot = o_tot.saturating_add(r.output_tokens);
        }
        k += 1;
    }
    assert(runs@.take(runs.len() as int) =~= runs@);
    (i_tot, o_tot)
}

/// Project-wide (input, output) tokens of the runs recorded under
/// `project_id`, saturating at `u32::MAX`; `(0, 0)` without a project id.
pub fn project_savings(runs: &Vec<RunTokens>, project_id: Option<&str>) -> (r: (u32, u32))
    ensures
        match project_id {
            Some(p) => r.0 == sat_totals(runs@, p@, None).0 && r.1 == sat_totals(runs@, p@, None).1,
            None => r == (0u32, 0u32),
        },
{
    match project_id {
        Some(p) => sum_runs(runs, p, None),
        None => (0, 0),
    }
}

/// The active milestone's (input, output) tokens: runs of the project
/// recorded under the milestone directory, summed saturating. `None` without
/// a milestone or a project id, or when both totals are zero.
pub fn milestone_savings(runs: &Vec<RunTokens>, milestone_dir: Option<&str>, project_id: Option<&str>) -> (r: Option<(u32, u32)>)
    ensures
        match (milestone_dir, project_id) {
            (Some(m), Some(p)) => {
                let t = sat_totals(runs@, p@, Some(m@));
                if t.0 > 0 || t.1 > 0 {
                    r == Some((t.0 as u32, t.1 as u32))
                } else {
                    r is None
                }
            },
            _ => r is None,
        },
{
    match (milestone_dir, project_id) {
        (Some(m), Some(p)) => {
            let t = sum_runs(runs, p, Some(m));
            if t.0 > 0 || t.1 > 0 {
                Some(t)
            } else {
                None
            }
        },
        _ => None,
    }
}

} // verus!
