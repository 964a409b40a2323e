//! Governor calibration: the stall-signal samples replayed from one run,
//! and the text report of their percentiles. Reading session logs and the
//! percentile arithmetic (floating point) are the caller's.
use vstd::prelude::*;
use crate::num::{dec_s, push_decimal};
use crate::text::{chars_of, extend_str, pad_left_s, pad_right_s, push_pad_left, push_pad_right, string_of};

verus! {

/// Calibration arguments.
pub struct CalibrateGovernorArgs<'a> {
    pub sessions_dir: &'a str,
    pub model_filter: Option<&'a str>,
    pub novelty_window: usize,
    pub min_runs: usize,
    pub json: bool,
}

/// The stall signals whose samples are calibrated.
#[derive(Clone, Copy, Debug, PartialEq, Eq, Structural)]
pub enum Signal {
    /// Distinct normalized targets per full novelty window.
    NoveltyDistinct,
    /// Longest consecutive read-only run.
    MaxReadOnlyRun,
    /// Longest run of consecutive identical (tool, arguments).
    IdenticalRun,
    /// Minimum distinct (tool, arguments) over any sliding window.
    OscillationMinDistinct,
    /// Longest streak of consecutive non-decreasing positive error counts.
    VerifierPersistenceRun,
    /// Longest run of consecutive empty completions.
    EmptyCompletionRun,
}

pub open spec fn label_s(s: Signal) -> Seq<char> {
    match s {
        Signal::NoveltyDistinct => "novelty_distinct_targets"@,
        Signal::MaxReadOnlyRun => "max_read_only_run"@,
        Signal::IdenticalRun => "identical_run"@,
        Signal::OscillationMinDistinct => "oscillation_min_distinct"@,
        Signal::VerifierPersistenceRun => "verifier_persistence_run"@,
        Signal::EmptyCompletionRun => "empty_completion_run"@,
    }
}

impl Signal {
    /// The signal's name in reports.
    pub fn label(self) -> (r: &'static str)
        ensures
            r@ == label_s(self),
    {
        match self {
            Signal::NoveltyDistinct => "novelty_distinct_targets",
            Signal::MaxReadOnlyRun => "max_read_only_run",
            Signal::IdenticalRun => "identical_run",
            Signal::OscillationMinDistinct => "oscillation_min_distinct",
            Signal::VerifierPersistenceRun => "verifier_persistence_run",
            Signal::EmptyCompletionRun => "empty_completion_run",
        }
    }
}

/// One tool call as the stall signals see it: the tool, its arguments as
/// compact JSON text, and whether the tool changes files.
pub struct CallSample {
    pub tool: String,
    pub args: String,
    pub mutates: bool,
}

pub open spec fn same_call(a: CallSample, b: CallSample) -> bool {
    a.tool@ == b.tool@ && a.args@ == b.args@
}

// ---------------------------------------------------------------------------
// Longest runs of true
// ---------------------------------------------------------------------------

/// Length of the run of `true` that ends just before position `j`.
pub open spec fn true_run_at(bs: Seq<bool>, j: int) -> nat
    decreases j,
{
    if j <= 0 || j > bs.len() {
        0
    } else if bs[j - 1] {
        true_run_at(bs, j - 1) + 1
    } else {
        0
    }
}

/// Longest run of consecutive `true` within the first `n` flags.
pub open spec fn longest_true(bs: Seq<bool>, n: int) -> nat
    decreases n,
{
    if n <= 0 || n > bs.len() {
        0
    } else {
        let prev = longest_true(bs, n - 1);
        let r = true_run_at(bs, n);
        if r > prev {
            r
        } else {
            prev
        }
    }
}

/// `bs[i..i+k]` is all `true`.
pub open spec fn all_true(bs: Seq<bool>, i: int, k: int) -> bool {
    forall|m: int| i <= m < i + k ==> #[trigger] bs[m]
}

/// `bs[i..j]` is all `true`.
pub open spec fn true_between(bs: Seq<bool>, i: int, j: int) -> bool {
    all_true(bs, i, j - i)
}

proof fn lemma_true_run_block(bs: Seq<bool>, j: int)
    requires
        0 <= j <= bs.len(),
    ensures
        true_run_at(bs, j) <= j,
        all_true(bs, j - true_run_at(bs, j), true_run_at(bs, j) as int),
        forall|i: int| 0 <= i < j - true_run_at(bs, j) ==> !#[trigger] true_between(bs, i, j),
    decreases j,
{
    if j > 0 {
        lemma_true_run_block(bs, j - 1);
        if bs[j - 1] {
            assert forall|i: int| 0 <= i < j - true_run_at(bs, j) implies !#[trigger] true_between(bs, i, j) by {
                if true_between(bs, i, j) {
                    assert(true_between(bs, i, j - 1));
                }
            }
        } else {
            assert forall|i: int| 0 <= i < j - true_run_at(bs, j) implies !#[trigger] true_between(bs, i, j) by {
                assert(!bs[j - 1]);
            }
        }
    }
}

/// The longest run of `true` is attained somewhere, and no block of
/// `true` is longer.
pub proof fn lemma_longest_true_is_longest(bs: Seq<bool>, n: int)
    requires
        0 <= n <= bs.len(),
    ensures
        exists|i: int| 0 <= i && i + longest_true(bs, n) <= n && #[trigger] all_true(bs, i, longest_true(bs, n) as int),
        forall|i: int, k: int| 0 <= i && i + k <= n && k > 0 && all_true(bs, i, k) ==> k <= longest_true(bs, n),
    decreases n,
{
    if n == 0 {
        assert(all_true(bs, 0, longest_true(bs, n) as int));
    } else {
        lemma_longest_true_is_longest(bs, n - 1);
        lemma_true_run_block(bs, n);
        let r = true_run_at(bs, n);
        if r > longest_true(bs, n - 1) {
            assert(longest_true(bs, n) == r);
            assert(all_true(bs, n - r, longest_true(bs, n) as int));
        } else {
            let i = choose|i: int| 0 <= i && i + longest_true(bs, n - 1) <= n - 1 && #[trigger] all_true(bs, i, longest_true(bs, n - 1) as int);
            assert(longest_true(bs, n) == longest_true(bs, n - 1));
            assert(all_true(bs, i, longest_true(bs, n) as int));
        }
        assert forall|i: int, k: int| 0 <= i && i + k <= n && k > 0 && all_true(bs, i, k) implies k <= longest_true(bs, n) by {
            if i + k == n {
                assert(true_between(bs, i, n));
            } else {
                assert(i + k <= n - 1);
            }
        }
    }
}

fn longest_true_exec(bs: &Vec<bool>) -> (r: usize)
    ensures
        r == longest_true(bs@, bs@.len() as int),
{
    let mut best: usize = 0;
    let mut run: usize = 0;
    let mut j: usize = 0;
    while j < bs.len()
        invariant
            j <= bs.len(),
            run == true_run_at(bs@, j as int),
            best == longest_true(bs@, j as int),
            run <= j,
            best <= j,
        decreases bs.len() - j,
    {
        proof {
            lemma_true_run_block(bs@, j as int);
        }
        if bs[j] {
            run = run + 1;
        } else {
            run = 0;
        }
        if run > best {
            best = run;
        }
        j += 1;
    }
    best
}

/// `calls[i..i+k]` is a run of calls none of which changes a file.
pub open spec fn read_only_block(calls: Seq<CallSample>, i: int, k: int) -> bool {
    &&& 0 <= i
    &&& i + k <= calls.len()
    &&& forall|m: int| i <= m < i + k ==> !(#[trigger] calls[m]).mutates
}

/// The read-only sample is the length of the longest run of consecutive
/// calls that change no file: such a run exists, and none is longer.
pub proof fn lemma_read_only_run_longest(calls: Seq<CallSample>)
    ensures
        ({
            let r = longest_true(calls.map_values(|c: CallSample| !c.mutates), calls.len() as int);
            &&& exists|i: int| read_only_block(calls, i, r as int)
            &&& forall|i: int, k: int| read_only_block(calls, i, k) ==> k <= r
        }),
{
    let bs = calls.map_values(|c: CallSample| !c.mutates);
    let n = calls.len() as int;
    lemma_longest_true_is_longest(bs, n);
    let r = longest_true(bs, n);
    let i = choose|i: int| 0 <= i && i + r <= n && #[trigger] all_true(bs, i, r as int);
    assert forall|m: int| i <= m < i + r implies !(#[trigger] calls[m]).mutates by {
        assert(bs[m]);
    }
    assert(read_only_block(calls, i, r as int));
    assert forall|a: int, k: int| read_only_block(calls, a, k) implies k <= r by {
        if k > 0 {
            assert forall|m: int| a <= m < a + k implies #[trigger] bs[m] by {
                assert(!calls[m].mutates);
            }
            assert(all_true(bs, a, k));
        }
    }
}

/// Longest consecutive run of calls that change no file; one sample per
/// run (0 without such calls).
pub fn max_read_only_run(calls: &Vec<CallSample>) -> (r: Vec<usize>)
    ensures
        r@ == seq![longest_true(calls@.map_values(|c: CallSample| !c.mutates), calls@.len() as int) as usize],
{
    let mut flags: Vec<bool> = Vec::new();
    let mut k: usize = 0;
    while k < calls.len()
        invariant
            k <= calls.len(),
            flags@ == calls@.take(k as int).map_values(|c: CallSample| !c.mutates),
        decreases calls.len() - k,
    {
        flags.push(!calls[k].mutates);
        assert(calls@.take(k + 1).map_values(|c: CallSample| !c.mutates) =~= calls@.take(k as int).map_values(
            |c: CallSample| !c.mutates,
        ).push(!calls@[k as int].mutates));
        k += 1;
    }
    assert(calls@.take(calls.len() as int) =~= calls@);
    let mut out: Vec<usize> = Vec::new();
    out.push(longest_true_exec(&flags));
    out
}

/// Longest run of consecutive empty completions; one sample per run (0
/// without empty completions).
pub fn empty_completion_run(completion_empty: &Vec<bool>) -> (r: Vec<usize>)
    ensures
        r@ == seq![longest_true(completion_empty@, completion_empty@.len() as int) as usize],
{
    let mut out: Vec<usize> = Vec::new();
    out.push(longest_true_exec(completion_empty));
    out
}

// ---------------------------------------------------------------------------
// Identical calls
// ---------------------------------------------------------------------------

/// For each call: it repeats the call just before it.
pub open spec fn repeats_prev(calls: Seq<CallSample>) -> Seq<bool> {
    Seq::new(calls.len(), |j: int| j > 0 && same_call(calls[j], calls[j - 1]))
}

/// Longest run of consecutive identical calls: one more than the longest
/// run of repeats; no sample without calls.
pub open spec fn identical_run_s(calls: Seq<CallSample>) -> Seq<usize> {
    if calls.len() == 0 {
        Seq::empty()
    } else {
        seq![(longest_true(repeats_prev(calls), calls.len() as int) + 1) as usize]
    }
}

fn same_call_exec(a: &CallSample, b: &CallSample) -> (r: bool)
    ensures
        r == same_call(*a, *b),
{
    a.tool == b.tool && a.args == b.args
}

proof fn lemma_first_false_run(bs: Seq<bool>, j: int)
    requires
        1 <= j <= bs.len(),
        !bs[0],
    ensures
        true_run_at(bs, j) <= j - 1,
        longest_true(bs, j) <= j - 1,
    decreases j,
{
    if j > 1 {
        lemma_first_false_run(bs, j - 1);
    } else {
        assert(true_run_at(bs, 0) == 0);
        assert(true_run_at(bs, 1) == 0);
        assert(longest_true(bs, 0) == 0);
    }
}

proof fn lemma_longest_le(bs: Seq<bool>, n: int)
    requires
        0 <= n <= bs.len(),
    ensures
        longest_true(bs, n) <= n,
    decreases n,
{
    if n > 0 {
        lemma_longest_le(bs, n - 1);
        lemma_true_run_block(bs, n);
    }
}

/// `calls[i..i+k]` is a run of identical calls: each repeats the one before
/// it, tool name and argument text both equal.
pub open spec fn identical_block(calls: Seq<CallSample>, i: int, k: int) -> bool {
    &&& 0 <= i
    &&& 1 <= k
    &&& i + k <= calls.len()
    &&& forall|m: int| i < m < i + k ==> (#[trigger] calls[m]).tool@ == calls[m - 1].tool@ && calls[m].args@
        == calls[m - 1].args@
}

/// The identical-run sample is the length of the longest run of
/// consecutive calls with the same tool and the same arguments: such a run
/// of that length exists, and none is longer.
pub proof fn lemma_identical_run_longest(calls: Seq<CallSample>)
    requires
        0 < calls.len() < usize::MAX,
    ensures
        identical_run_s(calls).len() == 1,
        exists|i: int| identical_block(calls, i, identical_run_s(calls)[0] as int),
        forall|i: int, k: int| identical_block(calls, i, k) ==> k <= identical_run_s(calls)[0],
{
    let rp = repeats_prev(calls);
    let n = calls.len() as int;
    lemma_longest_true_is_longest(rp, n);
    lemma_first_false_run(rp, n);
    let l = longest_true(rp, n);
    assert(identical_run_s(calls)[0] == l + 1);
    let i = choose|i: int| 0 <= i && i + l <= n && #[trigger] all_true(rp, i, l as int);
    if l == 0 {
        assert(identical_block(calls, 0, 1));
    } else {
        assert(rp[i]);
        assert(i >= 1);
        assert forall|m: int| i - 1 < m < i - 1 + l + 1 implies (#[trigger] calls[m]).tool@ == calls[m - 1].tool@
            && calls[m].args@ == calls[m - 1].args@ by {
            assert(rp[m]);
        }
        assert(identical_block(calls, i - 1, (l + 1) as int));
    }
    assert forall|a: int, k: int| identical_block(calls, a, k) implies k <= identical_run_s(calls)[0] by {
        if k >= 2 {
            assert forall|m: int| a + 1 <= m < a + 1 + (k - 1) implies #[trigger] rp[m] by {
                assert(calls[m].tool@ == calls[m - 1].tool@);
            }
            assert(all_true(rp, a + 1, k - 1));
        }
    }
}

pub fn identical_run(calls: &Vec<CallSample>) -> (r: Vec<usize>)
    ensures
        r@ == identical_run_s(calls@),
{
    let mut out: Vec<usize> = Vec::new();
    if calls.len() == 0 {
        return out;
    }
    let mut flags: Vec<bool> = Vec::new();
    let mut k: usize = 0;
    let ghost rp = repeats_prev(calls@);
    while k < calls.len()
        invariant
            k <= calls.len(),
            rp == repeats_prev(calls@),
            flags@ == rp.take(k as int),
        decreases calls.len() - k,
    {
        let f = k > 0 && same_call_exec(&calls[k], &calls[k - 1]);
        flags.push(f);
        assert(rp.take(k + 1) =~= rp.take(k as int).push(rp[k as int]));
        k += 1;
    }
    assert(rp.take(calls.len() as int) =~= rp);
    let m = longest_true_exec(&flags);
    proof {
        lemma_first_false_run(rp, rp.len() as int);
    }
    out.push(m + 1);
    out
}

// ---------------------------------------------------------------------------
// Oscillation
// ---------------------------------------------------------------------------

/// Width of the oscillation window.
pub const OSCILLATION_WINDOW: usize = 8;

/// `c` is the same call as one in `s`.
pub open spec fn has_call(s: Seq<CallSample>, c: CallSample) -> bool {
    exists|m: int| 0 <= m < s.len() && same_call(#[trigger] s[m], c)
}

/// Number of distinct (tool, arguments) among the calls.
pub open spec fn distinct_calls(s: Seq<CallSample>) -> nat
    decreases s.len(),
{
    if s.len() == 0 {
        0
    } else {
        distinct_calls(s.drop_last()) + if has_call(s.drop_last(), s.last()) {
            0nat
        } else {
            1nat
        }
    }
}

/// The fewest distinct calls in any window starting at or after `from`.
pub open spec fn min_window_from(calls: Seq<CallSample>, from: int) -> nat
    decreases calls.len() - from,
{
    let w = OSCILLATION_WINDOW as int;
    if from < 0 || from + w > calls.len() {
        w as nat
    } else {
        let here = distinct_calls(calls.subrange(from, from + w));
        let rest = min_window_from(calls, from + 1);
        if from + w == calls.len() || here < rest {
            here
        } else {
            rest
        }
    }
}

/// No sample when the run is shorter than a window; otherwise the fewest
/// distinct calls over all windows.
pub open spec fn oscillation_s(calls: Seq<CallSample>) -> Seq<usize> {
    if calls.len() < OSCILLATION_WINDOW {
        Seq::empty()
    } else {
        seq![min_window_from(calls, 0) as usize]
    }
}

proof fn lemma_distinct_le(s: Seq<CallSample>)
    ensures
        distinct_calls(s) <= s.len(),
    decreases s.len(),
{
    if s.len() > 0 {
        lemma_distinct_le(s.drop_last());
    }
}

fn find_same(calls: &Vec<CallSample>, seen: &Vec<usize>, k: usize) -> (r: Option<usize>)
    requires
        k < calls.len(),
        forall|m: int| 0 <= m < seen@.len() ==> #[trigger] seen@[m] < calls.len(),
    ensures
        match r {
            Some(q) => q < seen@.len() && same_call(calls@[seen@[q as int] as int], calls@[k as int]),
            None => forall|m: int| 0 <= m < seen@.len() ==> !same_call(#[trigger] calls@[seen@[m] as int], calls@[k as int]),
        },
{
    let mut q: usize = 0;
    while q < seen.len()
        invariant
            q <= seen@.len(),
            k < calls.len(),
            forall|m: int| 0 <= m < seen@.len() ==> #[trigger] seen@[m] < calls.len(),
            forall|m: int| 0 <= m < q ==> !same_call(#[trigger] calls@[seen@[m] as int], calls@[k as int]),
        decreases seen.len() - q,
    {
        if same_call_exec(&calls[seen[q]], &calls[k]) {
            return Some(q);
        }
        q += 1;
    }
    None
}

/// Distinct calls in `calls[lo..hi]`.
fn distinct_in(calls: &Vec<CallSample>, lo: usize, hi: usize) -> (r: usize)
    requires
        lo <= hi <= calls.len(),
    ensures
        r == distinct_calls(calls@.subrange(lo as int, hi as int)),
{
    let mut seen: Vec<usize> = Vec::new();
    let mut k = lo;
    while k < hi
        invariant
            lo <= k <= hi <= calls.len(),
            seen@.len() == distinct_calls(calls@.subrange(lo as int, k as int)),
            forall|m: int| 0 <= m < seen@.len() ==> lo <= #[trigger] seen@[m] < k,
            forall|m: int|
                lo <= m < k ==> exists|q: int| 0 <= q < seen@.len() && same_call(#[trigger] calls@[seen@[q] as int], #[trigger] calls@[m]),
        decreases hi - k,
    {
        let ghost pre = calls@.subrange(lo as int, k as int);
        let ghost next = calls@.subrange(lo as int, k + 1);
        assert(next.drop_last() =~= pre);
        assert(next.last() == calls@[k as int]);
        match find_same(calls, &seen, k) {
            Some(q) => {
                assert(pre[seen@[q as int] - lo] == calls@[seen@[q as int] as int]);
                assert(has_call(pre, calls@[k as int]));
            },
            None => {
                assert(!has_call(pre, calls@[k as int])) by {
                    if has_call(pre, calls@[k as int]) {
                        let m = choose|m: int| 0 <= m < pre.len() && same_call(#[trigger] pre[m], calls@[k as int]);
                        assert(pre[m] == calls@[lo + m]);
                        let q2 = choose|q2: int| 0 <= q2 < seen@.len() && same_call(#[trigger] calls@[seen@[q2] as int], #[trigger] calls@[lo + m]);
                    }
                }
                let ghost old_seen = seen@;
                seen.push(k);
                assert forall|m: int| lo <= m < k + 1 implies exists|q: int| 0 <= q < seen@.len() && same_call(#[trigger] calls@[seen@[q] as int], #[trigger] calls@[m]) by {
                    if m < k {
                        let q = choose|q: int| 0 <= q < old_seen.len() && same_call(#[trigger] calls@[old_seen[q] as int], #[trigger] calls@[m]);
                        assert(seen@[q] == old_seen[q]);
                    } else {
                        assert(seen@[old_seen.len() as int] == k);
                    }
                }
            },
        }
        k += 1;
    }
    seen.len()
}

/// The fewest distinct calls over every window of the oscillation width;
/// no sample for a shorter run.
pub fn oscillation_min_distinct(calls: &Vec<CallSample>) -> (r: Vec<usize>)
    ensures
        r@ == oscillation_s(calls@),
{
    let mut out: Vec<usize> = Vec::new();
    if calls.len() < OSCILLATION_WINDOW {
        return out;
    }
    let last = calls.len() - OSCILLATION_WINDOW;
    let mut start = last;
    let mut best = distinct_in(calls, last, calls.len());
    assert(best == min_window_from(calls@, last as int));
    while start > 0
        invariant
            start <= last,
            last + OSCILLATION_WINDOW == calls.len(),
            best == min_window_from(calls@, start as int),
        decreases start,
    {
        start -= 1;
        let here = distinct_in(calls, start, start + OSCILLATION_WINDOW);
        if here < best {
            best = here;
        }
    }
    out.push(best);
    out
}

// ---------------------------------------------------------------------------
// Verifier persistence
// ---------------------------------------------------------------------------

/// Length of the streak of positive, non-decreasing error counts that ends
/// just before position `j`.
pub open spec fn persist_at(cs: Seq<usize>, j: int) -> nat
    decreases j,
{
    if j <= 0 || j > cs.len() {
        0
    } else if cs[j - 1] == 0 {
        0
    } else if j >= 2 && persist_at(cs, j - 1) > 0 && cs[j - 1] >= cs[j - 2] {
        persist_at(cs, j - 1) + 1
    } else {
        1
    }
}

pub open spec fn longest_persist(cs: Seq<usize>, n: int) -> nat
    decreases n,
{
    if n <= 0 || n > cs.len() {
        0
    } else {
        let prev = longest_persist(cs, n - 1);
        let r = persist_at(cs, n);
        if r > prev {
            r
        } else {
            prev
        }
    }
}

/// `cs[i..i+k]` is a streak: every count positive, each at least the one
/// before it.
pub open spec fn persist_block(cs: Seq<usize>, i: int, k: int) -> bool {
    &&& 0 <= i
    &&& 0 <= k
    &&& i + k <= cs.len()
    &&& forall|m: int| i <= m < i + k ==> (#[trigger] cs[m]) > 0
    &&& forall|m: int| i < m < i + k ==> (#[trigger] cs[m]) >= cs[m - 1]
}

pub open spec fn persist_to(cs: Seq<usize>, i: int, j: int) -> bool {
    persist_block(cs, i, j - i)
}

proof fn lemma_persist_at_block(cs: Seq<usize>, j: int)
    requires
        0 <= j <= cs.len(),
    ensures
        persist_at(cs, j) <= j,
        persist_block(cs, j - persist_at(cs, j), persist_at(cs, j) as int),
        forall|i: int| 0 <= i <= j && #[trigger] persist_to(cs, i, j) ==> j - i <= persist_at(cs, j),
    decreases j,
{
    if j > 0 {
        lemma_persist_at_block(cs, j - 1);
        assert forall|i: int| 0 <= i <= j && #[trigger] persist_to(cs, i, j) implies j - i <= persist_at(cs, j) by {
            if i < j - 1 {
                assert(persist_to(cs, i, j - 1));
                assert(cs[j - 1] >= cs[j - 2]);
                assert(cs[j - 2] > 0);
            }
        }
    }
}

/// The persistence sample is the length of the longest streak of verify
/// events whose error counts are positive and never decrease: such a
/// streak exists, and none is longer.
pub proof fn lemma_persistence_longest(cs: Seq<usize>, n: int)
    requires
        0 <= n <= cs.len(),
    ensures
        exists|i: int| i + longest_persist(cs, n) <= n && #[trigger] persist_block(cs, i, longest_persist(cs, n) as int),
        forall|i: int, k: int| i + k <= n && persist_block(cs, i, k) ==> k <= longest_persist(cs, n),
    decreases n,
{
    if n == 0 {
        assert(longest_persist(cs, 0) == 0);
        assert(persist_block(cs, 0, 0));
    } else {
        lemma_persistence_longest(cs, n - 1);
        lemma_persist_at_block(cs, n);
        let r = persist_at(cs, n);
        if r > longest_persist(cs, n - 1) {
            assert(longest_persist(cs, n) == r);
            assert(persist_block(cs, n - r, longest_persist(cs, n) as int));
        } else {
            assert(longest_persist(cs, n) == longest_persist(cs, n - 1));
            let i = choose|i: int| i + longest_persist(cs, n - 1) <= n - 1 && #[trigger] persist_block(cs, i, longest_persist(cs, n - 1) as int);
            assert(persist_block(cs, i, longest_persist(cs, n) as int));
        }
        assert forall|i: int, k: int| i + k <= n && persist_block(cs, i, k) implies k <= longest_persist(cs, n) by {
            if i + k == n {
                assert(persist_to(cs, i, n));
            } else {
                assert(persist_block(cs, i, k));
            }
        }
    }
}

/// No sample without verify events; otherwise the longest streak.
pub open spec fn verifier_persistence_s(cs: Seq<usize>) -> Seq<usize> {
    if cs.len() == 0 {
        Seq::empty()
    } else {
        seq![longest_persist(cs, cs.len() as int) as usize]
    }
}

proof fn lemma_persist_le(cs: Seq<usize>, j: int)
    requires
        0 <= j <= cs.len(),
    ensures
        persist_at(cs, j) <= j,
        longest_persist(cs, j) <= j,
    decreases j,
{
    if j > 0 {
        lemma_persist_le(cs, j - 1);
    }
}

pub fn verifier_persistence_run(counts: &Vec<usize>) -> (r: Vec<usize>)
    ensures
        r@ == verifier_persistence_s(counts@),
{
    let mut out: Vec<usize> = Vec::new();
    if counts.len() == 0 {
        return out;
    }
    let mut best: usize = 0;
    let mut run: usize = 0;
    let mut prev: usize = 0;
    let mut j: usize = 0;
    while j < counts.len()
        invariant
            j <= counts.len(),
            run == persist_at(counts@, j as int),
            best == longest_persist(counts@, j as int),
            j > 0 ==> prev == counts@[j - 1],
        decreases counts.len() - j,
    {
        proof {
            lemma_persist_le(counts@, j as int);
        }
        let c = counts[j];
        run = if c == 0 {
            0
        } else if run == 0 || c >= prev {
            run + 1
        } else {
            1
        };
        if run > best {
            best = run;
        }
        prev = c;
        j += 1;
    }
    out.push(best);
    out
}

// ---------------------------------------------------------------------------
// The report
// ---------------------------------------------------------------------------

/// One row of the calibration report.
pub struct ReportRow {
    pub signal: String,
    pub model: String,
    pub outcome: String,
    pub runs: usize,
    pub n: usize,
    pub p50: usize,
    pub p90: usize,
    pub p99: usize,
}

/// `{model:<8} {outcome:<10} {runs:>4}  {n:>4}  {p50:>4}  {p90:>4}  {p99:>4}`.
pub open spec fn report_row_s(r: ReportRow) -> Seq<char> {
    pad_right_s(r.model@, 8) + " "@ + pad_right_s(r.outcome@, 10) + " "@ + pad_left_s(dec_s(r.runs as nat), 4) + "  "@
        + pad_left_s(dec_s(r.n as nat), 4) + "  "@ + pad_left_s(dec_s(r.p50 as nat), 4) + "  "@ + pad_left_s(
        dec_s(r.p90 as nat),
        4,
    ) + "  "@ + pad_left_s(dec_s(r.p99 as nat), 4)
}

fn push_num_col(v: &mut Vec<char>, n: usize, w: usize)
    ensures
        final(v)@ == old(v)@ + pad_left_s(dec_s(n as nat), w as nat),
{
    let mut d: Vec<char> = Vec::new();
    push_decimal(&mut d, n as u64);
    push_pad_left(v, &d, w);
}

fn report_row(r: &ReportRow) -> (s: Vec<char>)
    ensures
        s@ == report_row_s(*r),
{
    proof {
        reveal_strlit(" ");
        reveal_strlit("  ");
    }
    let mut v: Vec<char> = Vec::new();
    push_pad_right(&mut v, &chars_of(r.model.as_str()), 8);
    v.push(' ');
    push_pad_right(&mut v, &chars_of(r.outcome.as_str()), 10);
    v.push(' ');
    push_num_col(&mut v, r.runs, 4);
    extend_str(&mut v, "  ");
    push_num_col(&mut v, r.n, 4);
    extend_str(&mut v, "  ");
    push_num_col(&mut v, r.p50, 4);
    extend_str(&mut v, "  ");
    push_num_col(&mut v, r.p90, 4);
    extend_str(&mut v, "  ");
    push_num_col(&mut v, r.p99, 4);
    assert(v@ =~= report_row_s(*r));
    v
}

/// The report section order.
pub open spec fn report_signals() -> Seq<Signal> {
    seq![
        Signal::NoveltyDistinct,
        Signal::MaxReadOnlyRun,
        Signal::IdenticalRun,
        Signal::OscillationMinDistinct,
        Signal::VerifierPersistenceRun,
        Signal::EmptyCompletionRun,
    ]
}

/// A section's header line.
pub open spec fn section_header_s(s: Signal) -> Seq<char> {
    if s == Signal::EmptyCompletionRun {
        "signal: empty_completion_run  (lower bound \u{2014} excludes length-truncated turns)"@
    } else {
        "signal: "@ + label_s(s)
    }
}

pub open spec fn rows_of(rows: Seq<ReportRow>, s: Signal) -> Seq<ReportRow> {
    rows.filter(|r: ReportRow| r.signal@ == label_s(s))
}

/// One section: header, column titles, the signal's rows, a blank line;
/// nothing for a signal without rows.
pub open spec fn section_s(rows: Seq<ReportRow>, s: Signal) -> Seq<Seq<char>> {
    let rs = rows_of(rows, s);
    if rs.len() == 0 {
        Seq::empty()
    } else {
        seq![section_header_s(s), "MODEL  OUTCOME  RUNS  N  P50  P90  P99"@] + rs.map_values(|r: ReportRow| report_row_s(r))
            + seq![Seq::<char>::empty()]
    }
}

pub open spec fn report_lines_s(rows: Seq<ReportRow>, k: int) -> Seq<Seq<char>>
    decreases k,
{
    if k <= 0 {
        Seq::empty()
    } else {
        report_lines_s(rows, k - 1) + section_s(rows, report_signals()[k - 1])
    }
}

/// The calibration report: `(no data)` without rows; else a section per
/// signal, in the fixed signal order, joined by newlines.
pub open spec fn format_report_s(rows: Seq<ReportRow>) -> Seq<char> {
    if rows.len() == 0 {
        "(no data)"@
    } else {
        crate::text::join_s(report_lines_s(rows, 6), "\n"@)
    }
}

fn signal_at(k: usize) -> (s: Signal)
    requires
        k < 6,
    ensures
        s == report_signals()[k as int],
{
    if k == 0 {
        Signal::NoveltyDistinct
    } else if k == 1 {
        Signal::MaxReadOnlyRun
    } else if k == 2 {
        Signal::IdenticalRun
    } else if k == 3 {
        Signal::OscillationMinDistinct
    } else if k == 4 {
        Signal::VerifierPersistenceRun
    } else {
        Signal::EmptyCompletionRun
    }
}

/// Format the calibration report as a text table.
pub fn format_report(rows: &Vec<ReportRow>) -> (r: String)
    ensures
        r@ == format_report_s(rows@),
{
    proof {
        reveal_strlit("(no data)");
        reveal_strlit("signal: empty_completion_run  (lower bound \u{2014} excludes length-truncated turns)");
        reveal_strlit("signal: ");
        reveal_strlit("MODEL  OUTCOME  RUNS  N  P50  P90  P99");
        reveal_strlit("\n");
    }
    if rows.len() == 0 {
        return "(no data)".to_string();
    }
    let mut lines: Vec<Vec<char>> = Vec::new();
    let mut k: usize = 0;
    while k < 6
        invariant
            k <= 6,
            crate::text::views(lines@) == report_lines_s(rows@, k as int),
        decreases 6 - k,
    {
        let s = signal_at(k);
        let label = s.label();
        let ghost before = crate::text::views(lines@);
        let ghost sel = rows_of(rows@, s);
        let mut section: Vec<Vec<char>> = Vec::new();
        let mut m: usize = 0;
        while m < rows.len()
            invariant
                m <= rows.len(),
                label@ == label_s(s),
                sel == rows_of(rows@, s),
                crate::text::views(section@) == rows_of(rows@.take(m as int), s).map_values(|r: ReportRow| report_row_s(r)),
            decreases rows.len() - m,
        {
            let ghost prefix = rows@.take(m as int);
            assert(rows@.take(m + 1) =~= prefix.push(rows@[m as int]));
            proof {
                reveal(Seq::filter);
                assert(rows@.take(m + 1).drop_last() =~= prefix);
            }
            if crate::text::chars_eq_str(&chars_of(rows[m].signal.as_str()), label) {
                let ghost bs = crate::text::views(section@);
                section.push(report_row(&rows[m]));
                assert(crate::text::views(section@) =~= bs.push(report_row_s(rows@[m as int])));
            }
            assert(rows_of(rows@.take(m + 1), s).map_values(|r: ReportRow| report_row_s(r)) =~= if rows@[m as int].signal@ == label_s(s) {
                rows_of(prefix, s).map_values(|r: ReportRow| report_row_s(r)).push(report_row_s(rows@[m as int]))
            } else {
                rows_of(prefix, s).map_values(|r: ReportRow| report_row_s(r))
            });
            m += 1;
        }
        assert(rows@.take(rows.len() as int) =~= rows@);
        if section.len() > 0 {
            let header = if s == Signal::EmptyCompletionRun {
                chars_of("signal: empty_completion_run  (lower bound \u{2014} excludes length-truncated turns)")
            } else {
                let mut h = chars_of("signal: ");
                extend_str(&mut h, label);
                h
            };
            lines.push(header);
            lines.push(chars_of("MODEL  OUTCOME  RUNS  N  P50  P90  P99"));
            let ghost mid = crate::text::views(lines@);
            let mut q: usize = 0;
            while q < section.len()
                invariant
                    q <= section.len(),
                    crate::text::views(lines@) == mid + crate::text::views(section@).take(q as int),
                decreases section.len() - q,
            {
                let ghost bl = crate::text::views(lines@);
                lines.push(section[q].clone());
                assert(crate::text::views(lines@) =~= bl.push(section@[q as int]@));
                assert(crate::text::views(section@).take(q + 1) =~= crate::text::views(section@).take(q as int).push(
                    section@[q as int]@,
                ));
                q += 1;
            }
            assert(crate::text::views(section@).take(section.len() as int) =~= crate::text::views(section@));
            let ghost bl2 = crate::text::views(lines@);
            lines.push(Vec::new());
            assert(crate::text::views(lines@) =~= bl2.push(Seq::<char>::empty()));
            assert(crate::text::views(lines@) =~= before + section_s(rows@, s));
        } else {
            assert(section_s(rows@, s) =~= Seq::<Seq<char>>::empty());
            assert(crate::text::views(lines@) =~= before + section_s(rows@, s));
        }
        k += 1;
    }
    let nl = chars_of("\n");
    let joined = crate::text::join_chars(&lines, &nl);
    string_of(&joined)
}

} // verus!
