//! Capability-profile buckets: folded runs bucketed by (model, tag), each
//! bucket's counts, and the failure classes of the latest review charged to
//! the latest run of each phase. Rates and means are the caller's.
use vstd::prelude::*;
use crate::profile::{chars_lt, is_ranking, key_view, lemma_lex_total, lemma_lex_trans, lex_lt, rank_failure_classes, FailureClassCount, RecordKey};
use crate::text::chars_of;

verus! {

/// What profiling reads of a folded phase run.
pub struct ProfileRun {
    pub key: RecordKey,
    pub ts: u64,
    pub model: String,
    pub tags: Vec<String>,
    pub gates_pass: bool,
    pub escalated: bool,
    pub verdict: Option<String>,
    pub bounces: Option<u32>,
}

/// What profiling reads of a review.
pub struct ProfileReview {
    pub key: RecordKey,
    pub ts: u64,
    pub failure_class: Vec<String>,
}

/// Which runs are profiled: of one model (when given), carrying every given
/// tag; buckets with fewer runs than `min_runs` are dropped.
pub struct ProfileFilter {
    pub model: Option<String>,
    pub tags: Vec<String>,
    pub min_runs: usize,
}

pub open spec fn key_eq(a: RecordKey, b: RecordKey) -> bool {
    key_view(a) == key_view(b)
}

/// The latest timestamp among the first `n` runs with key `k` (0 if none).
pub open spec fn latest_run_ts(runs: Seq<ProfileRun>, k: RecordKey, n: int) -> int
    decreases n,
{
    if n <= 0 || n > runs.len() {
        0
    } else {
        let p = latest_run_ts(runs, k, n - 1);
        if key_eq(runs[n - 1].key, k) && runs[n - 1].ts > p {
            runs[n - 1].ts as int
        } else {
            p
        }
    }
}

/// The latest review with key `k` among the first `n` (the earliest of
/// equally late ones), or -1.
pub open spec fn latest_review(revs: Seq<ProfileReview>, k: RecordKey, n: int) -> int
    decreases n,
{
    if n <= 0 || n > revs.len() {
        -1
    } else {
        let p = latest_review(revs, k, n - 1);
        if key_eq(revs[n - 1].key, k) && (p < 0 || revs[n - 1].ts > revs[p].ts) {
            n - 1
        } else {
            p
        }
    }
}

pub open spec fn texts(v: Seq<String>) -> Seq<Seq<char>> {
    v.map_values(|s: String| s@)
}

/// The failure classes charged to run `i`: its phase's latest review's,
/// when the run is its phase's latest run and the phase has a review.
pub open spec fn charged_classes(runs: Seq<ProfileRun>, revs: Seq<ProfileReview>, i: int) -> Option<Seq<Seq<char>>> {
    let r = runs[i];
    let j = latest_review(revs, r.key, revs.len() as int);
    if r.ts == latest_run_ts(runs, r.key, runs.len() as int) && j >= 0 {
        Some(texts(revs[j].failure_class@))
    } else {
        None
    }
}

fn keys_eq(a: &RecordKey, b: &RecordKey) -> (r: bool)
    ensures
        r == key_eq(*a, *b),
{
    match (a, b) {
        (RecordKey::Path(x), RecordKey::Path(y)) => *x == *y,
        (RecordKey::IdProject(x1, x2), RecordKey::IdProject(y1, y2)) => *x1 == *y1 && *x2 == *y2,
        _ => false,
    }
}

fn latest_run_ts_of(runs: &Vec<ProfileRun>, k: &RecordKey) -> (r: u64)
    ensures
        r == latest_run_ts(runs@, *k, runs@.len() as int),
{
    let mut best: u64 = 0;
    let mut i: usize = 0;
    while i < runs.len()
        invariant
            i <= runs@.len(),
            best == latest_run_ts(runs@, *k, i as int),
        decreases runs@.len() - i,
    {
        if keys_eq(&runs[i].key, k) && runs[i].ts > best {
            best = runs[i].ts;
        }
        i += 1;
    }
    best
}

proof fn lemma_latest_review_range(revs: Seq<ProfileReview>, k: RecordKey, n: int)
    requires
        0 <= n <= revs.len(),
    ensures
        -1 <= latest_review(revs, k, n) < n,
    decreases n,
{
    if n > 0 {
        lemma_latest_review_range(revs, k, n - 1);
    }
}

fn latest_review_of(revs: &Vec<ProfileReview>, k: &RecordKey) -> (r: Option<usize>)
    ensures
        match r {
            Some(j) => j < revs@.len() && latest_review(revs@, *k, revs@.len() as int) == j,
            None => latest_review(revs@, *k, revs@.len() as int) == -1,
        },
{
    let mut best: Option<usize> = None;
    let mut i: usize = 0;
    while i < revs.len()
        invariant
            i <= revs@.len(),
            match best {
                Some(j) => j < i && latest_review(revs@, *k, i as int) == j,
                None => latest_review(revs@, *k, i as int) == -1,
            },
        decreases revs@.len() - i,
    {
        if keys_eq(&revs[i].key, k) {
            match best {
                Some(j) => {
                    if revs[i].ts > revs[j].ts {
                        best = Some(i);
                    }
                },
                None => {
                    best = Some(i);
                },
            }
        }
        i += 1;
    }
    best
}

fn copy_texts(v: &Vec<String>) -> (r: Vec<String>)
    ensures
        texts(r@) == texts(v@),
{
    let mut r: Vec<String> = Vec::new();
    let mut k: usize = 0;
    while k < v.len()
        invariant
            k <= v@.len(),
            texts(r@) == texts(v@.take(k as int)),
        decreases v@.len() - k,
    {
        let ghost before = texts(r@);
        r.push(v[k].clone());
        assert(texts(r@) =~= before.push(v@[k as int]@));
        assert(texts(v@.take(k + 1)) =~= texts(v@.take(k as int)).push(v@[k as int]@));
        k += 1;
    }
    assert(v@.take(v@.len() as int) =~= v@);
    r
}

/// The failure classes charged to run `i`.
fn charged_of(runs: &Vec<ProfileRun>, revs: &Vec<ProfileReview>, i: usize) -> (r: Option<Vec<String>>)
    requires
        i < runs@.len(),
    ensures
        match r {
            Some(v) => charged_classes(runs@, revs@, i as int) == Some(texts(v@)),
            None => charged_classes(runs@, revs@, i as int) is None,
        },
{
    let r = &runs[i];
    let latest = latest_run_ts_of(runs, &r.key);
    match latest_review_of(revs, &r.key) {
        Some(j) => {
            if r.ts == latest {
                Some(copy_texts(&revs[j].failure_class))
            } else {
                None
            }
        },
        None => None,
    }
}


/// The run is profiled: of the filter's model (when given) and carrying
/// every tag the filter names.
pub open spec fn passes(f: ProfileFilter, r: ProfileRun) -> bool {
    &&& (match f.model {
        Some(m) => m@ == r.model@,
        None => true,
    })
    &&& forall|i: int| 0 <= i < f.tags@.len() ==> texts(r.tags@).contains(#[trigger] f.tags@[i]@)
}

/// The profile entries of the first `n` runs: one (run, tag) per tag
/// occurrence of each profiled run, in order.
pub open spec fn entries(runs: Seq<ProfileRun>, f: ProfileFilter, n: int) -> Seq<(int, Seq<char>)>
    decreases n,
{
    if n <= 0 || n > runs.len() {
        Seq::empty()
    } else if passes(f, runs[n - 1]) {
        entries(runs, f, n - 1) + run_entries(runs, n - 1)
    } else {
        entries(runs, f, n - 1)
    }
}

pub open spec fn run_entries(runs: Seq<ProfileRun>, i: int) -> Seq<(int, Seq<char>)> {
    texts(runs[i].tags@).map_values(|t: Seq<char>| (i, t))
}

pub open spec fn one_if(b: bool) -> int {
    if b {
        1
    } else {
        0
    }
}

/// What one entry adds to its bucket: a run; all gates passed; escalated;
/// has a verdict; approved first try; bounces; bounces given; a charged
/// review.
pub open spec fn entry_counts(runs: Seq<ProfileRun>, revs: Seq<ProfileReview>, i: int) -> (int, int, int, int, int, int, int, int) {
    let r = runs[i];
    (
        1,
        one_if(r.gates_pass),
        one_if(r.escalated),
        one_if(r.verdict is Some),
        one_if(r.verdict matches Some(v) && v@ == "approved_first_try"@),
        match r.bounces {
            Some(b) => b as int,
            None => 0,
        },
        one_if(r.bounces is Some),
        one_if(charged_classes(runs, revs, i) is Some),
    )
}

pub open spec fn add8(a: (int, int, int, int, int, int, int, int), b: (int, int, int, int, int, int, int, int)) -> (int, int, int, int, int, int, int, int) {
    (a.0 + b.0, a.1 + b.1, a.2 + b.2, a.3 + b.3, a.4 + b.4, a.5 + b.5, a.6 + b.6, a.7 + b.7)
}

pub open spec fn in_bucket(runs: Seq<ProfileRun>, e: (int, Seq<char>), m: Seq<char>, t: Seq<char>) -> bool {
    runs[e.0].model@ == m && e.1 == t
}

/// The counts of bucket (`m`, `t`) over entries `es`.
pub open spec fn tally(runs: Seq<ProfileRun>, revs: Seq<ProfileReview>, es: Seq<(int, Seq<char>)>, m: Seq<char>, t: Seq<char>) -> (int, int, int, int, int, int, int, int)
    decreases es.len(),
{
    if es.len() == 0 {
        (0, 0, 0, 0, 0, 0, 0, 0)
    } else {
        let prev = tally(runs, revs, es.drop_last(), m, t);
        if in_bucket(runs, es.last(), m, t) {
            add8(prev, entry_counts(runs, revs, es.last().0))
        } else {
            prev
        }
    }
}

/// The failure classes charged to bucket (`m`, `t`), entry by entry.
pub open spec fn bucket_classes(runs: Seq<ProfileRun>, revs: Seq<ProfileReview>, es: Seq<(int, Seq<char>)>, m: Seq<char>, t: Seq<char>) -> Seq<Seq<char>>
    decreases es.len(),
{
    if es.len() == 0 {
        Seq::empty()
    } else {
        let prev = bucket_classes(runs, revs, es.drop_last(), m, t);
        if in_bucket(runs, es.last(), m, t) {
            match charged_classes(runs, revs, es.last().0) {
                Some(cs) => prev + cs,
                None => prev,
            }
        } else {
            prev
        }
    }
}

/// The runs of bucket (`m`, `t`), once per entry, in order.
pub open spec fn bucket_runs(runs: Seq<ProfileRun>, es: Seq<(int, Seq<char>)>, m: Seq<char>, t: Seq<char>) -> Seq<int>
    decreases es.len(),
{
    if es.len() == 0 {
        Seq::empty()
    } else {
        let prev = bucket_runs(runs, es.drop_last(), m, t);
        if in_bucket(runs, es.last(), m, t) {
            prev.push(es.last().0)
        } else {
            prev
        }
    }
}

/// A bucket being filled.
struct Acc {
    model: String,
    tag: String,
    counts: (usize, usize, usize, usize, usize, u128, usize, usize),
    classes: Vec<String>,
    runs: Vec<usize>,
}

spec fn counts_view(c: (usize, usize, usize, usize, usize, u128, usize, usize)) -> (int, int, int, int, int, int, int, int) {
    (c.0 as int, c.1 as int, c.2 as int, c.3 as int, c.4 as int, c.5 as int, c.6 as int, c.7 as int)
}

spec fn runs_view(v: Seq<usize>) -> Seq<int> {
    v.map_values(|i: usize| i as int)
}

/// The accumulators agree with the entries `es`: one per bucket seen,
/// each with its bucket's counts, classes and runs.
spec fn accs_ok(runs: Seq<ProfileRun>, revs: Seq<ProfileReview>, es: Seq<(int, Seq<char>)>, accs: Seq<Acc>) -> bool {
    &&& forall|k: int|
        0 <= k < accs.len() ==> {
            let a = #[trigger] accs[k];
            &&& counts_view(a.counts) == tally(runs, revs, es, a.model@, a.tag@)
            &&& texts(a.classes@) == bucket_classes(runs, revs, es, a.model@, a.tag@)
            &&& runs_view(a.runs@) == bucket_runs(runs, es, a.model@, a.tag@)
            &&& a.counts.0 >= 1
        }
    &&& forall|k: int, l: int|
        0 <= k < l < accs.len() ==> !((#[trigger] accs[k]).model@ == (#[trigger] accs[l]).model@ && accs[k].tag@
            == accs[l].tag@)
    &&& forall|x: int|
        0 <= x < es.len() ==> exists|k: int|
            0 <= k < accs.len() && in_bucket(runs, #[trigger] es[x], (#[trigger] accs[k]).model@, accs[k].tag@)
}


pub open spec fn total_tags(runs: Seq<ProfileRun>, n: int) -> int
    decreases n,
{
    if n <= 0 || n > runs.len() {
        0
    } else {
        total_tags(runs, n - 1) + runs[n - 1].tags@.len()
    }
}

proof fn lemma_entries_shape(runs: Seq<ProfileRun>, f: ProfileFilter, n: int)
    requires
        0 <= n <= runs.len(),
    ensures
        entries(runs, f, n).len() <= total_tags(runs, n),
        forall|x: int| 0 <= x < entries(runs, f, n).len() ==> 0 <= (#[trigger] entries(runs, f, n)[x]).0 < n,
    decreases n,
{
    if n > 0 {
        lemma_entries_shape(runs, f, n - 1);
        let prev = entries(runs, f, n - 1);
        if passes(f, runs[n - 1]) {
            let add = run_entries(runs, n - 1);
            assert forall|x: int| 0 <= x < entries(runs, f, n).len() implies 0 <= (#[trigger] entries(runs, f, n)[x]).0 < n by {
                if x >= prev.len() {
                    assert(entries(runs, f, n)[x] == add[x - prev.len()]);
                } else {
                    assert(entries(runs, f, n)[x] == prev[x]);
                }
            }
        }
    }
}

proof fn lemma_total_tags_mono(runs: Seq<ProfileRun>, a: int, b: int)
    requires
        0 <= a <= b <= runs.len(),
    ensures
        total_tags(runs, a) <= total_tags(runs, b),
    decreases b,
{
    if a < b {
        lemma_total_tags_mono(runs, a, b - 1);
    }
}

proof fn lemma_push(runs: Seq<ProfileRun>, revs: Seq<ProfileReview>, es: Seq<(int, Seq<char>)>, e: (int, Seq<char>), m: Seq<char>, t: Seq<char>)
    ensures
        tally(runs, revs, es.push(e), m, t) == if in_bucket(runs, e, m, t) {
            add8(tally(runs, revs, es, m, t), entry_counts(runs, revs, e.0))
        } else {
            tally(runs, revs, es, m, t)
        },
        bucket_classes(runs, revs, es.push(e), m, t) == if in_bucket(runs, e, m, t) {
            match charged_classes(runs, revs, e.0) {
                Some(cs) => bucket_classes(runs, revs, es, m, t) + cs,
                None => bucket_classes(runs, revs, es, m, t),
            }
        } else {
            bucket_classes(runs, revs, es, m, t)
        },
        bucket_runs(runs, es.push(e), m, t) == if in_bucket(runs, e, m, t) {
            bucket_runs(runs, es, m, t).push(e.0)
        } else {
            bucket_runs(runs, es, m, t)
        },
{
    assert(es.push(e).drop_last() =~= es);
}

proof fn lemma_empty_bucket(runs: Seq<ProfileRun>, revs: Seq<ProfileReview>, es: Seq<(int, Seq<char>)>, m: Seq<char>, t: Seq<char>)
    requires
        forall|x: int| 0 <= x < es.len() ==> !in_bucket(runs, #[trigger] es[x], m, t),
    ensures
        tally(runs, revs, es, m, t) == (0int, 0int, 0int, 0int, 0int, 0int, 0int, 0int),
        bucket_classes(runs, revs, es, m, t) == Seq::<Seq<char>>::empty(),
        bucket_runs(runs, es, m, t) == Seq::<int>::empty(),
    decreases es.len(),
{
    if es.len() > 0 {
        let d = es.drop_last();
        assert forall|x: int| 0 <= x < d.len() implies !in_bucket(runs, #[trigger] d[x], m, t) by {
            assert(d[x] == es[x]);
        }
        lemma_empty_bucket(runs, revs, d, m, t);
        assert(!in_bucket(runs, es[es.len() - 1], m, t));
    }
}

proof fn lemma_tally_bounds(runs: Seq<ProfileRun>, revs: Seq<ProfileReview>, es: Seq<(int, Seq<char>)>, m: Seq<char>, t: Seq<char>)
    ensures
        ({
            let c = tally(runs, revs, es, m, t);
            &&& 0 <= c.0 <= es.len() && 0 <= c.1 <= es.len() && 0 <= c.2 <= es.len() && 0 <= c.3 <= es.len()
            &&& 0 <= c.4 <= es.len() && 0 <= c.6 <= es.len() && 0 <= c.7 <= es.len()
            &&& 0 <= c.5 <= es.len() * 0xFFFF_FFFF
        }),
    decreases es.len(),
{
    if es.len() > 0 {
        lemma_tally_bounds(runs, revs, es.drop_last(), m, t);
        let n = es.len() as int;
        assert((n - 1) * 0xFFFF_FFFF + 0xFFFF_FFFF == n * 0xFFFF_FFFF) by (nonlinear_arith);
    }
}

fn passes_exec(f: &ProfileFilter, r: &ProfileRun) -> (b: bool)
    ensures
        b == passes(*f, *r),
{
    match &f.model {
        Some(m) => {
            if *m != r.model {
                return false;
            }
        },
        None => {},
    }
    let mut i: usize = 0;
    while i < f.tags.len()
        invariant
            i <= f.tags@.len(),
            forall|q: int| 0 <= q < i ==> texts(r.tags@).contains(#[trigger] f.tags@[q]@),
        decreases f.tags@.len() - i,
    {
        let mut found = false;
        let mut j: usize = 0;
        while j < r.tags.len()
            invariant
                j <= r.tags@.len(),
                i < f.tags@.len(),
                found ==> texts(r.tags@).contains(f.tags@[i as int]@),
                !found ==> forall|q: int| 0 <= q < j ==> (#[trigger] r.tags@[q])@ != f.tags@[i as int]@,
            decreases r.tags@.len() - j,
        {
            if r.tags[j] == f.tags[i] {
                found = true;
                assert(texts(r.tags@)[j as int] == f.tags@[i as int]@);
            }
            j += 1;
        }
        if !found {
            assert(!texts(r.tags@).contains(f.tags@[i as int]@)) by {
                if texts(r.tags@).contains(f.tags@[i as int]@) {
                    let w = choose|w: int| 0 <= w < texts(r.tags@).len() && texts(r.tags@)[w] == f.tags@[i as int]@;
                    assert(r.tags@[w]@ == f.tags@[i as int]@);
                }
            }
            return false;
        }
        i += 1;
    }
    true
}

fn find_acc(accs: &Vec<Acc>, model: &String, tag: &String) -> (r: Option<usize>)
    ensures
        match r {
            Some(k) => k < accs@.len() && accs@[k as int].model@ == model@ && accs@[k as int].tag@ == tag@,
            None => forall|k: int| 0 <= k < accs@.len() ==> !((#[trigger] accs@[k]).model@ == model@ && accs@[k].tag@ == tag@),
        },
{
    let mut k: usize = 0;
    while k < accs.len()
        invariant
            k <= accs@.len(),
            forall|q: int| 0 <= q < k ==> !((#[trigger] accs@[q]).model@ == model@ && accs@[q].tag@ == tag@),
        decreases accs@.len() - k,
    {
        if accs[k].model == *model && accs[k].tag == *tag {
            return Some(k);
        }
        k += 1;
    }
    None
}

fn append_texts(dst: &mut Vec<String>, src: &Vec<String>)
    ensures
        texts(final(dst)@) == texts(old(dst)@) + texts(src@),
{
    let ghost start = texts(dst@);
    let mut k: usize = 0;
    while k < src.len()
        invariant
            k <= src@.len(),
            texts(dst@) == start + texts(src@.take(k as int)),
        decreases src@.len() - k,
    {
        let ghost before = texts(dst@);
        dst.push(src[k].clone());
        assert(texts(dst@) =~= before.push(src@[k as int]@));
        assert(texts(src@.take(k + 1)) =~= texts(src@.take(k as int)).push(src@[k as int]@));
        k += 1;
    }
    assert(src@.take(src@.len() as int) =~= src@);
}

fn entry_delta(r: &ProfileRun, charged: bool) -> (d: (usize, usize, usize, usize, usize, u128, usize, usize))
    ensures
        d.0 == 1 && d.1 as int == one_if(r.gates_pass) && d.2 as int == one_if(r.escalated),
        d.3 as int == one_if(r.verdict is Some),
        d.4 as int == one_if(r.verdict matches Some(v) && v@ == "approved_first_try"@),
        d.5 as int == (match r.bounces {
            Some(b) => b as int,
            None => 0,
        }),
        d.6 as int == one_if(r.bounces is Some),
        d.7 as int == one_if(charged),
{
    proof {
        reveal_strlit("approved_first_try");
    }
    let approved = match &r.verdict {
        Some(v) => crate::text::chars_eq_str(&crate::text::chars_of(v.as_str()), "approved_first_try"),
        None => false,
    };
    (
        1,
        if r.gates_pass { 1 } else { 0 },
        if r.escalated { 1 } else { 0 },
        if r.verdict.is_some() { 1 } else { 0 },
        if approved { 1 } else { 0 },
        match r.bounces {
            Some(b) => b as u128,
            None => 0,
        },
        if r.bounces.is_some() { 1 } else { 0 },
        if charged { 1 } else { 0 },
    )
}

/// Add the entry (run `i`, `tag`) to its bucket.
#[verifier::rlimit(60)]
fn add_entry(
    accs: &mut Vec<Acc>,
    runs: &Vec<ProfileRun>,
    revs: &Vec<ProfileReview>,
    Ghost(es): Ghost<Seq<(int, Seq<char>)>>,
    i: usize,
    tag: &String,
    charged: &Option<Vec<String>>,
)
    requires
        i < runs@.len(),
        accs_ok(runs@, revs@, es, old(accs)@),
        es.len() + 1 <= usize::MAX,
        match charged {
            Some(v) => charged_classes(runs@, revs@, i as int) == Some(texts(v@)),
            None => charged_classes(runs@, revs@, i as int) is None,
        },
    ensures
        accs_ok(runs@, revs@, es.push((i as int, tag@)), final(accs)@),
{
    let ghost e = (i as int, tag@);
    let ghost old_accs = accs@;
    let r = &runs[i];
    let d = entry_delta(r, charged.is_some());
    assert(counts_view(d) == entry_counts(runs@, revs@, i as int));
    match find_acc(accs, &r.model, tag) {
        Some(k) => {
            let mut a = accs.remove(k);
            proof {
                lemma_tally_bounds(runs@, revs@, es, a.model@, a.tag@);
                lemma_push(runs@, revs@, es, e, a.model@, a.tag@);
            }
            a.counts = (
                a.counts.0 + d.0,
                a.counts.1 + d.1,
                a.counts.2 + d.2,
                a.counts.3 + d.3,
                a.counts.4 + d.4,
                a.counts.5 + d.5,
                a.counts.6 + d.6,
                a.counts.7 + d.7,
            );
            match charged {
                Some(v) => append_texts(&mut a.classes, v),
                None => {},
            }
            let ghost rb = a.runs@;
            a.runs.push(i);
            assert(runs_view(a.runs@) =~= runs_view(rb).push(i as int));
            accs.insert(k, a);
            proof {
                assert(accs@ =~= old_accs.update(k as int, accs@[k as int]));
                assert forall|q: int| 0 <= q < accs@.len() implies ({
                    let b = #[trigger] accs@[q];
                    &&& counts_view(b.counts) == tally(runs@, revs@, es.push(e), b.model@, b.tag@)
                    &&& texts(b.classes@) == bucket_classes(runs@, revs@, es.push(e), b.model@, b.tag@)
                    &&& runs_view(b.runs@) == bucket_runs(runs@, es.push(e), b.model@, b.tag@)
                    &&& b.counts.0 >= 1
                }) by {
                    if q != k {
                        lemma_push(runs@, revs@, es, e, old_accs[q].model@, old_accs[q].tag@);
                        assert(accs@[q] == old_accs[q]);
                    }
                }
                assert forall|x: int| 0 <= x < es.push(e).len() implies exists|q: int|
                    0 <= q < accs@.len() && in_bucket(runs@, #[trigger] es.push(e)[x], (#[trigger] accs@[q]).model@, accs@[q].tag@) by {
                    if x < es.len() {
                        assert(es.push(e)[x] == es[x]);
                        let w = choose|w: int| 0 <= w < old_accs.len() && in_bucket(runs@, es[x], (#[trigger] old_accs[w]).model@, old_accs[w].tag@);
                        assert(accs@[w].model@ == old_accs[w].model@ && accs@[w].tag@ == old_accs[w].tag@);
                    } else {
                        assert(in_bucket(runs@, es.push(e)[x], accs@[k as int].model@, accs@[k as int].tag@));
                    }
                }
            }
        },
        None => {
            let mut classes: Vec<String> = Vec::new();
            match charged {
                Some(v) => append_texts(&mut classes, v),
                None => {},
            }
            let mut rv: Vec<usize> = Vec::new();
            rv.push(i);
            proof {
                assert forall|x: int| 0 <= x < es.len() implies !in_bucket(runs@, #[trigger] es[x], r.model@, tag@) by {
                    if in_bucket(runs@, es[x], r.model@, tag@) {
                        let w = choose|w: int| 0 <= w < old_accs.len() && in_bucket(runs@, es[x], (#[trigger] old_accs[w]).model@, old_accs[w].tag@);
                        assert(old_accs[w].model@ == r.model@ && old_accs[w].tag@ == tag@);
                    }
                }
                lemma_empty_bucket(runs@, revs@, es, r.model@, tag@);
                lemma_push(runs@, revs@, es, e, r.model@, tag@);
                assert(texts(classes@) =~= bucket_classes(runs@, revs@, es.push(e), r.model@, tag@));
                assert(runs_view(rv@) =~= bucket_runs(runs@, es.push(e), r.model@, tag@));
            }
            accs.push(Acc { model: r.model.clone(), tag: tag.clone(), counts: d, classes, runs: rv });
            proof {
                assert forall|q: int| 0 <= q < accs@.len() implies ({
                    let b = #[trigger] accs@[q];
                    &&& counts_view(b.counts) == tally(runs@, revs@, es.push(e), b.model@, b.tag@)
                    &&& texts(b.classes@) == bucket_classes(runs@, revs@, es.push(e), b.model@, b.tag@)
                    &&& runs_view(b.runs@) == bucket_runs(runs@, es.push(e), b.model@, b.tag@)
                    &&& b.counts.0 >= 1
                }) by {
                    if q < old_accs.len() {
                        lemma_push(runs@, revs@, es, e, old_accs[q].model@, old_accs[q].tag@);
                        assert(accs@[q] == old_accs[q]);
                    }
                }
                assert forall|x: int| 0 <= x < es.push(e).len() implies exists|q: int|
                    0 <= q < accs@.len() && in_bucket(runs@, #[trigger] es.push(e)[x], (#[trigger] accs@[q]).model@, accs@[q].tag@) by {
                    if x < es.len() {
                        assert(es.push(e)[x] == es[x]);
                        let w = choose|w: int| 0 <= w < old_accs.len() && in_bucket(runs@, es[x], (#[trigger] old_accs[w]).model@, old_accs[w].tag@);
                        assert(accs@[w] == old_accs[w]);
                    } else {
                        assert(in_bucket(runs@, es.push(e)[x], accs@[old_accs.len() as int].model@, accs@[old_accs.len() as int].tag@));
                    }
                }
            }
        },
    }
}


fn fill_buckets(runs: &Vec<ProfileRun>, revs: &Vec<ProfileReview>, f: &ProfileFilter) -> (accs: Vec<Acc>)
    requires
        total_tags(runs@, runs@.len() as int) < usize::MAX,
    ensures
        accs_ok(runs@, revs@, entries(runs@, *f, runs@.len() as int), accs@),
{
    let mut accs: Vec<Acc> = Vec::new();
    let mut i: usize = 0;
    while i < runs.len()
        invariant
            i <= runs@.len(),
            total_tags(runs@, runs@.len() as int) < usize::MAX,
            accs_ok(runs@, revs@, entries(runs@, *f, i as int), accs@),
        decreases runs@.len() - i,
    {
        proof {
            lemma_entries_shape(runs@, *f, i as int);
            lemma_total_tags_mono(runs@, i + 1, runs@.len() as int);
        }
        if passes_exec(f, &runs[i]) {
            let charged = charged_of(runs, revs, i);
            let ghost base = entries(runs@, *f, i as int);
            let ghost add = run_entries(runs@, i as int);
            let mut j: usize = 0;
            assert(base + add.take(0) =~= base);
            while j < runs[i].tags.len()
                invariant
                    i < runs@.len(),
                    j <= runs@[i as int].tags@.len(),
                    base == entries(runs@, *f, i as int),
                    add == run_entries(runs@, i as int),
                    base.len() <= total_tags(runs@, i as int),
                    total_tags(runs@, i + 1) < usize::MAX,
                    accs_ok(runs@, revs@, base + add.take(j as int), accs@),
                    match charged {
                        Some(v) => charged_classes(runs@, revs@, i as int) == Some(texts(v@)),
                        None => charged_classes(runs@, revs@, i as int) is None,
                    },
                decreases runs@[i as int].tags@.len() - j,
            {
                let ghost es = base + add.take(j as int);
                add_entry(&mut accs, runs, revs, Ghost(es), i, &runs[i].tags[j], &charged);
                assert(es.push((i as int, runs@[i as int].tags@[j as int]@)) =~= base + add.take(j + 1));
                j += 1;
            }
            assert(add.take(add.len() as int) =~= add);
        }
        i += 1;
    }
    accs
}


/// One profile bucket's counts: runs, runs whose gates all passed,
/// escalated runs, runs with a verdict, runs approved on the first try, the
/// bounces given and how many runs gave them, charged reviews, the ranked
/// failure classes of those reviews, and the runs themselves (once per
/// entry) for the caller's means.
pub struct ProfileCounts {
    pub model: String,
    pub tag: String,
    pub n_runs: usize,
    pub gates_all_pass: usize,
    pub escalated: usize,
    pub n_with_verdict: usize,
    pub approved_first_try: usize,
    pub bounces_sum: u128,
    pub bounces_n: usize,
    pub n_reviews: usize,
    pub ranked_failure_classes: Vec<FailureClassCount>,
    pub runs: Vec<usize>,
}

pub open spec fn row_counts(r: ProfileCounts) -> (int, int, int, int, int, int, int, int) {
    (
        r.n_runs as int,
        r.gates_all_pass as int,
        r.escalated as int,
        r.n_with_verdict as int,
        r.approved_first_try as int,
        r.bounces_sum as int,
        r.bounces_n as int,
        r.n_reviews as int,
    )
}

/// The row is its bucket's: counts, ranked classes and runs over the
/// entries `es`.
pub open spec fn row_ok(runs: Seq<ProfileRun>, revs: Seq<ProfileReview>, es: Seq<(int, Seq<char>)>, r: ProfileCounts) -> bool {
    &&& row_counts(r) == tally(runs, revs, es, r.model@, r.tag@)
    &&& is_ranking(bucket_classes(runs, revs, es, r.model@, r.tag@), r.ranked_failure_classes@)
    &&& r.runs@.map_values(|i: usize| i as int) == bucket_runs(runs, es, r.model@, r.tag@)
    &&& r.n_runs >= 1
}

/// Rows go by tag, then by run count (most first), then by model.
pub open spec fn row_before(a: ProfileCounts, b: ProfileCounts) -> bool {
    lex_lt(a.tag@, b.tag@) || (a.tag@ == b.tag@ && (a.n_runs > b.n_runs || (a.n_runs == b.n_runs && lex_lt(
        a.model@,
        b.model@,
    ))))
}

proof fn lemma_row_total(a: ProfileCounts, b: ProfileCounts)
    requires
        !(a.model@ == b.model@ && a.tag@ == b.tag@),
    ensures
        row_before(a, b) || row_before(b, a),
{
    lemma_lex_total(a.tag@, b.tag@);
    lemma_lex_total(a.model@, b.model@);
}

proof fn lemma_row_trans(a: ProfileCounts, b: ProfileCounts, c: ProfileCounts)
    requires
        row_before(a, b),
        row_before(b, c),
    ensures
        row_before(a, c),
{
    lemma_lex_total(a.tag@, b.tag@);
    lemma_lex_total(b.tag@, c.tag@);
    lemma_lex_total(a.tag@, c.tag@);
    if lex_lt(a.tag@, b.tag@) && lex_lt(b.tag@, c.tag@) {
        lemma_lex_trans(a.tag@, b.tag@, c.tag@);
    }
    if a.tag@ == b.tag@ && b.tag@ == c.tag@ && a.n_runs == b.n_runs && b.n_runs == c.n_runs {
        lemma_lex_trans(a.model@, b.model@, c.model@);
    }
}

pub open spec fn rows_sorted(s: Seq<ProfileCounts>) -> bool {
    forall|k: int, m: int| 0 <= k < m < s.len() ==> row_before(#[trigger] s[k], #[trigger] s[m])
}

fn row_goes_before(x: &ProfileCounts, o: &ProfileCounts) -> (b: bool)
    ensures
        b == row_before(*x, *o),
{
    let xt = chars_of(x.tag.as_str());
    let ot = chars_of(o.tag.as_str());
    if chars_lt(&xt, &ot) {
        return true;
    }
    if x.tag != o.tag {
        return false;
    }
    x.n_runs > o.n_runs || (x.n_runs == o.n_runs && chars_lt(&chars_of(x.model.as_str()), &chars_of(o.model.as_str())))
}

fn insert_row(out: &mut Vec<ProfileCounts>, x: ProfileCounts)
    requires
        rows_sorted(old(out)@),
        forall|q: int| 0 <= q < old(out)@.len() ==> !((#[trigger] old(out)@[q]).model@ == x.model@ && old(out)@[q].tag@ == x.tag@),
    ensures
        exists|p: int| 0 <= p <= old(out)@.len() && final(out)@ == old(out)@.insert(p, x),
        rows_sorted(final(out)@),
{
    let mut p: usize = 0;
    while p < out.len() && !row_goes_before(&x, &out[p])
        invariant
            p <= out@.len(),
            forall|q: int| 0 <= q < p ==> !row_before(x, #[trigger] out@[q]),
        decreases out.len() - p,
    {
        p += 1;
    }
    let ghost old_out = out@;
    out.insert(p, x);
    proof {
        assert forall|k: int, m: int| 0 <= k < m < out@.len() implies row_before(#[trigger] out@[k], #[trigger] out@[m]) by {
            if k < p && m < p {
                assert(out@[k] == old_out[k] && out@[m] == old_out[m]);
            } else if k < p && m == p {
                assert(out@[k] == old_out[k]);
                lemma_row_total(x, old_out[k]);
            } else if k < p && m > p {
                assert(out@[k] == old_out[k] && out@[m] == old_out[m - 1]);
            } else if k == p {
                assert(out@[m] == old_out[m - 1]);
                if m - 1 > p {
                    lemma_row_trans(x, old_out[p as int], old_out[m - 1]);
                }
            } else {
                assert(out@[k] == old_out[k - 1] && out@[m] == old_out[m - 1]);
            }
        }
        assert(out@ == old_out.insert(p as int, x));
    }
}

fn copy_indices(v: &Vec<usize>) -> (r: Vec<usize>)
    ensures
        r@ == v@,
{
    let mut r: Vec<usize> = Vec::new();
    let mut k: usize = 0;
    while k < v.len()
        invariant
            k <= v@.len(),
            r@ == v@.take(k as int),
        decreases v@.len() - k,
    {
        r.push(v[k]);
        assert(v@.take(k + 1) =~= v@.take(k as int).push(v@[k as int]));
        k += 1;
    }
    assert(v@.take(v@.len() as int) =~= v@);
    r
}

/// Profile buckets of the folded runs: one row per (model, tag) seen on a
/// profiled run, with its counts and the ranked failure classes of the
/// reviews charged to it, rows with fewer than `min_runs` runs dropped,
/// ordered by tag, then run count (most first), then model.
#[verifier::rlimit(60)]
pub fn profile_buckets(runs: &Vec<ProfileRun>, reviews: &Vec<ProfileReview>, filter: &ProfileFilter) -> (r: Vec<ProfileCounts>)
    requires
        total_tags(runs@, runs@.len() as int) < usize::MAX,
    ensures
        ({
            let es = entries(runs@, *filter, runs@.len() as int);
            &&& forall|k: int| 0 <= k < r@.len() ==> row_ok(runs@, reviews@, es, #[trigger] r@[k]) && r@[k].n_runs >= filter.min_runs
            &&& forall|x: int|
                0 <= x < es.len() && tally(runs@, reviews@, es, runs@[es[x].0].model@, es[x].1).0 >= filter.min_runs
                    ==> exists|k: int|
                    0 <= k < r@.len() && (#[trigger] r@[k]).model@ == runs@[(#[trigger] es[x]).0].model@ && r@[k].tag@ == es[x].1
            &&& rows_sorted(r@)
        }),
{
    let accs = fill_buckets(runs, reviews, filter);
    let ghost es = entries(runs@, *filter, runs@.len() as int);
    let mut out: Vec<ProfileCounts> = Vec::new();
    let mut t: usize = 0;
    while t < accs.len()
        invariant
            t <= accs@.len(),
            es == entries(runs@, *filter, runs@.len() as int),
            accs_ok(runs@, reviews@, es, accs@),
            forall|k: int| 0 <= k < out@.len() ==> row_ok(runs@, reviews@, es, #[trigger] out@[k]) && out@[k].n_runs >= filter.min_runs,
            forall|k: int| 0 <= k < out@.len() ==> exists|q: int| 0 <= q < t && (#[trigger] accs@[q]).model@ == (#[trigger] out@[k]).model@ && accs@[q].tag@ == out@[k].tag@,
            forall|q: int| 0 <= q < t && (#[trigger] accs@[q]).counts.0 >= filter.min_runs ==> exists|k: int|
                0 <= k < out@.len() && (#[trigger] out@[k]).model@ == accs@[q].model@ && out@[k].tag@ == accs@[q].tag@,
            rows_sorted(out@),
        decreases accs@.len() - t,
    {
        let a = &accs[t];
        if a.counts.0 >= filter.min_runs {
            let ranked = rank_failure_classes(&a.classes);
            let row = ProfileCounts {
                model: a.model.clone(),
                tag: a.tag.clone(),
                n_runs: a.counts.0,
                gates_all_pass: a.counts.1,
                escalated: a.counts.2,
                n_with_verdict: a.counts.3,
                approved_first_try: a.counts.4,
                bounces_sum: a.counts.5,
                bounces_n: a.counts.6,
                n_reviews: a.counts.7,
                ranked_failure_classes: ranked,
                runs: copy_indices(&a.runs),
            };
            let ghost old_out = out@;
            proof {
                assert forall|q: int| 0 <= q < old_out.len() implies !((#[trigger] old_out[q]).model@ == row.model@ && old_out[q].tag@ == row.tag@) by {
                    let w = choose|w: int| 0 <= w < t && (#[trigger] accs@[w]).model@ == old_out[q].model@ && accs@[w].tag@ == old_out[q].tag@;
                    assert(!(accs@[w].model@ == accs@[t as int].model@ && accs@[w].tag@ == accs@[t as int].tag@));
                }
            }
            insert_row(&mut out, row);
            proof {
                let p = choose|p: int| 0 <= p <= old_out.len() && out@ == old_out.insert(p, row);
                assert forall|k: int| 0 <= k < out@.len() implies row_ok(runs@, reviews@, es, #[trigger] out@[k]) && out@[k].n_runs >= filter.min_runs by {
                    if k < p {
                        assert(out@[k] == old_out[k]);
                    } else if k > p {
                        assert(out@[k] == old_out[k - 1]);
                    }
                }
                assert forall|k: int| 0 <= k < out@.len() implies exists|q: int| 0 <= q < t + 1 && (#[trigger] accs@[q]).model@ == (#[trigger] out@[k]).model@ && accs@[q].tag@ == out@[k].tag@ by {
                    if k < p {
                        assert(out@[k] == old_out[k]);
                    } else if k > p {
                        assert(out@[k] == old_out[k - 1]);
                    } else {
                        assert(accs@[t as int].model@ == out@[k].model@);
                    }
                }
                assert forall|q: int| 0 <= q < t + 1 && (#[trigger] accs@[q]).counts.0 >= filter.min_runs implies exists|k: int|
                    0 <= k < out@.len() && (#[trigger] out@[k]).model@ == accs@[q].model@ && out@[k].tag@ == accs@[q].tag@ by {
                    if q < t {
                        let w = choose|w: int| 0 <= w < old_out.len() && (#[trigger] old_out[w]).model@ == accs@[q].model@ && old_out[w].tag@ == accs@[q].tag@;
                        if w < p {
                            assert(out@[w] == old_out[w]);
                        } else {
                            assert(out@[w + 1] == old_out[w]);
                        }
                    } else {
                        assert(out@[p] == row);
                    }
                }
            }
        }
        t += 1;
    }
    proof {
        assert forall|x: int|
            0 <= x < es.len() && tally(runs@, reviews@, es, runs@[es[x].0].model@, es[x].1).0 >= filter.min_runs
                implies exists|k: int|
                0 <= k < out@.len() && (#[trigger] out@[k]).model@ == runs@[(#[trigger] es[x]).0].model@ && out@[k].tag@ == es[x].1 by {
            let w = choose|w: int| 0 <= w < accs@.len() && in_bucket(runs@, es[x], (#[trigger] accs@[w]).model@, accs@[w].tag@);
            assert(accs@[w].counts.0 >= filter.min_runs);
        }
    }
    out
}

} // verus!
