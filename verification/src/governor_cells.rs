//! Aggregating one stall signal's samples over the replayed runs: one
//! `(all)` cell per outcome, and one cell per (model, outcome) that has at
//! least `min_runs` runs. A run with no samples for the signal is left out.
//! The percentiles of each cell (floating point) are the caller's.
use vstd::prelude::*;
use vstd::seq_lib::to_multiset_insert;

verus! {

/// One run's samples of a signal, with the run's model and outcome.
pub struct RunSamples {
    pub model: String,
    pub outcome: String,
    pub samples: Vec<usize>,
}

/// One report cell: the runs counted and their samples, sorted.
pub struct SignalCell {
    pub model: String,
    pub outcome: String,
    pub runs: usize,
    pub samples: Vec<usize>,
}

// ---------------------------------------------------------------------------
// Sorting samples
// ---------------------------------------------------------------------------

pub open spec fn sorted_s(s: Seq<usize>) -> bool {
    forall|i: int, j: int| 0 <= i <= j < s.len() ==> s[i] <= s[j]
}

/// The samples in ascending order.
pub fn sort_samples(v: &Vec<usize>) -> (r: Vec<usize>)
    ensures
        sorted_s(r@),
        r@.to_multiset() == v@.to_multiset(),
{
    let mut r: Vec<usize> = Vec::new();
    let mut i: usize = 0;
    assert(v@.take(0) =~= Seq::<usize>::empty());
    while i < v.len()
        invariant
            i <= v.len(),
            sorted_s(r@),
            r@.to_multiset() == v@.take(i as int).to_multiset(),
        decreases v.len() - i,
    {
        let x = v[i];
        let mut p: usize = 0;
        while p < r.len() && r[p] <= x
            invariant
                p <= r@.len(),
                sorted_s(r@),
                forall|k: int| 0 <= k < p ==> r@[k] <= x,
            decreases r@.len() - p,
        {
            p += 1;
        }
        let ghost before = r@;
        r.insert(p, x);
        proof {
            to_multiset_insert(before, p as int, x);
            assert(v@.take(i + 1) =~= v@.take(i as int).push(x));
            v@.take(i as int).to_multiset_ensures();
            assert(v@.take(i + 1).to_multiset() =~= v@.take(i as int).to_multiset().insert(x));
            assert(r@.to_multiset() =~= before.to_multiset().insert(x));
            assert forall|a: int, b: int| 0 <= a <= b < r@.len() implies r@[a] <= r@[b] by {
                if a < p && b > p {
                    assert(r@[a] == before[a]);
                    assert(r@[b] == before[b - 1]);
                } else if a < p && b == p {
                    assert(r@[a] == before[a]);
                } else if a == p && b > p {
                    assert(r@[b] == before[b - 1]);
                    assert(before[p as int] > x);
                } else if a > p {
                    assert(r@[a] == before[a - 1]);
                    assert(r@[b] == before[b - 1]);
                } else if b < p {
                    assert(r@[a] == before[a]);
                    assert(r@[b] == before[b]);
                }
            }
        }
        i += 1;
    }
    assert(v@.take(v.len() as int) =~= v@);
    r
}

// ---------------------------------------------------------------------------
// Cells
// ---------------------------------------------------------------------------

pub open spec fn counted(r: RunSamples) -> bool {
    r.samples@.len() > 0
}

/// The outcomes of the runs with samples, in first-seen order.
pub open spec fn outcomes_s(rs: Seq<RunSamples>) -> Seq<Seq<char>>
    decreases rs.len(),
{
    if rs.len() == 0 {
        Seq::empty()
    } else {
        let p = outcomes_s(rs.drop_last());
        if counted(rs.last()) && !p.contains(rs.last().outcome@) {
            p.push(rs.last().outcome@)
        } else {
            p
        }
    }
}

/// The (model, outcome) pairs of the runs with samples, in first-seen order.
pub open spec fn pairs_s(rs: Seq<RunSamples>) -> Seq<(Seq<char>, Seq<char>)>
    decreases rs.len(),
{
    if rs.len() == 0 {
        Seq::empty()
    } else {
        let p = pairs_s(rs.drop_last());
        let k = (rs.last().model@, rs.last().outcome@);
        if counted(rs.last()) && !p.contains(k) {
            p.push(k)
        } else {
            p
        }
    }
}

/// A run belongs to a cell: it has samples, its outcome is `o`, and (for a
/// per-model cell) its model is `m`.
pub open spec fn in_cell(r: RunSamples, m: Option<Seq<char>>, o: Seq<char>) -> bool {
    &&& counted(r)
    &&& r.outcome@ == o
    &&& match m {
        Some(mm) => r.model@ == mm,
        None => true,
    }
}

/// How many runs belong to the cell.
pub open spec fn cell_runs(rs: Seq<RunSamples>, m: Option<Seq<char>>, o: Seq<char>) -> nat
    decreases rs.len(),
{
    if rs.len() == 0 {
        0
    } else {
        cell_runs(rs.drop_last(), m, o) + if in_cell(rs.last(), m, o) {
            1nat
        } else {
            0nat
        }
    }
}

/// The samples of the cell's runs, run after run.
pub open spec fn cell_samples(rs: Seq<RunSamples>, m: Option<Seq<char>>, o: Seq<char>) -> Seq<usize>
    decreases rs.len(),
{
    if rs.len() == 0 {
        Seq::empty()
    } else {
        cell_samples(rs.drop_last(), m, o) + if in_cell(rs.last(), m, o) {
            rs.last().samples@
        } else {
            Seq::empty()
        }
    }
}

/// The per-model pairs that have at least `min_runs` runs, in order.
pub open spec fn kept_pairs(ps: Seq<(Seq<char>, Seq<char>)>, rs: Seq<RunSamples>, min_runs: int) -> Seq<(Seq<char>, Seq<char>)>
    decreases ps.len(),
{
    if ps.len() == 0 {
        Seq::empty()
    } else {
        let k = kept_pairs(ps.drop_last(), rs, min_runs);
        if cell_runs(rs, Some(ps.last().0), ps.last().1) >= min_runs {
            k.push(ps.last())
        } else {
            k
        }
    }
}

/// A cell is the aggregate of its runs: its labels, its run count, and its
/// runs' samples sorted.
pub open spec fn cell_ok(c: SignalCell, label: Seq<char>, rs: Seq<RunSamples>, m: Option<Seq<char>>, o: Seq<char>) -> bool {
    &&& c.model@ == label
    &&& c.outcome@ == o
    &&& c.runs == cell_runs(rs, m, o)
    &&& sorted_s(c.samples@)
    &&& c.samples@.to_multiset() == cell_samples(rs, m, o).to_multiset()
}

/// The total number of samples.
pub open spec fn total_samples(rs: Seq<RunSamples>) -> nat
    decreases rs.len(),
{
    if rs.len() == 0 {
        0
    } else {
        total_samples(rs.drop_last()) + rs.last().samples@.len()
    }
}

pub open spec fn all_label() -> Seq<char> {
    "(all)"@
}

proof fn lemma_cell_le(rs: Seq<RunSamples>, m: Option<Seq<char>>, o: Seq<char>)
    ensures
        cell_runs(rs, m, o) <= rs.len(),
        cell_samples(rs, m, o).len() <= total_samples(rs),
    decreases rs.len(),
{
    if rs.len() > 0 {
        lemma_cell_le(rs.drop_last(), m, o);
    }
}

/// The cell of the runs with outcome `o` (and model `m`, when given).
fn gather(runs: &Vec<RunSamples>, m: Option<&String>, o: &String, label: String) -> (c: SignalCell)
    requires
        total_samples(runs@) <= usize::MAX,
    ensures
        cell_ok(c, label@, runs@, match m {
            Some(x) => Some(x@),
            None => None,
        }, o@),
{
    let ghost mm: Option<Seq<char>> = match m {
        Some(x) => Some(x@),
        None => None,
    };
    let mut n: usize = 0;
    let mut acc: Vec<usize> = Vec::new();
    let mut i: usize = 0;
    assert(runs@.take(0) =~= Seq::<RunSamples>::empty());
    while i < runs.len()
        invariant
            i <= runs@.len(),
            n == cell_runs(runs@.take(i as int), mm, o@),
            acc@ == cell_samples(runs@.take(i as int), mm, o@),
            mm == (match m {
                Some(x) => Some(x@),
                None => None::<Seq<char>>,
            }),
        decreases runs@.len() - i,
    {
        let ghost pre = runs@.take(i as int);
        assert(runs@.take(i + 1).drop_last() =~= pre);
        assert(runs@.take(i + 1).last() == runs@[i as int]);
        proof {
            lemma_cell_le(runs@.take(i + 1), mm, o@);
        }
        let r = &runs[i];
        let model_ok = match m {
            Some(x) => r.model == *x,
            None => true,
        };
        if r.samples.len() > 0 && r.outcome == *o && model_ok {
            n += 1;
            let mut j: usize = 0;
            let ghost base = acc@;
            while j < r.samples.len()
                invariant
                    j <= r.samples@.len(),
                    acc@ == base + r.samples@.take(j as int),
                decreases r.samples@.len() - j,
            {
                acc.push(r.samples[j]);
                assert(r.samples@.take(j + 1) =~= r.samples@.take(j as int).push(r.samples@[j as int]));
                j += 1;
            }
            assert(r.samples@.take(r.samples@.len() as int) =~= r.samples@);
        } else {
            assert(acc@ =~= acc@ + Seq::<usize>::empty());
        }
        i += 1;
    }
    assert(runs@.take(runs@.len() as int) =~= runs@);
    let sorted = sort_samples(&acc);
    SignalCell { model: label, outcome: o.clone(), runs: n, samples: sorted }
}

/// Aggregate one signal's samples over the runs: first one `(all)` cell per
/// outcome (in first-seen order), holding every run with that outcome;
/// then one cell per (model, outcome), in first-seen order, for those with
/// at least `min_runs` runs. Runs without samples are not counted.
pub fn governor_cells(runs: &Vec<RunSamples>, min_runs: usize) -> (cells: Vec<SignalCell>)
    requires
        total_samples(runs@) <= usize::MAX,
    ensures
        ({
            let os = outcomes_s(runs@);
            let ks = kept_pairs(pairs_s(runs@), runs@, min_runs as int);
            &&& cells@.len() == os.len() + ks.len()
            &&& forall|i: int| 0 <= i < os.len() ==> cell_ok(#[trigger] cells@[i], all_label(), runs@, None, os[i])
            &&& forall|j: int|
                0 <= j < ks.len() ==> cell_ok(#[trigger] cells@[os.len() + j], ks[j].0, runs@, Some(ks[j].0), ks[j].1)
        }),
{
    // The outcomes and (model, outcome) pairs, in first-seen order.
    let mut outs: Vec<String> = Vec::new();
    let mut pairs: Vec<(String, String)> = Vec::new();
    let mut i: usize = 0;
    assert(runs@.take(0) =~= Seq::<RunSamples>::empty());
    while i < runs.len()
        invariant
            i <= runs@.len(),
            outs@.map_values(|s: String| s@) == outcomes_s(runs@.take(i as int)),
            pairs@.map_values(|p: (String, String)| (p.0@, p.1@)) == pairs_s(runs@.take(i as int)),
        decreases runs@.len() - i,
    {
        let ghost pre = runs@.take(i as int);
        assert(runs@.take(i + 1).drop_last() =~= pre);
        assert(runs@.take(i + 1).last() == runs@[i as int]);
        let r = &runs[i];
        if r.samples.len() > 0 {
            let ghost ov = outs@.map_values(|s: String| s@);
            let mut k: usize = 0;
            let mut seen = false;
            while k < outs.len()
                invariant
                    k <= outs@.len(),
                    ov == outs@.map_values(|s: String| s@),
                    seen <==> exists|q: int| 0 <= q < k && ov[q] == r.outcome@,
                decreases outs@.len() - k,
            {
                if outs[k] == r.outcome {
                    seen = true;
                }
                assert(ov[k as int] == outs@[k as int]@);
                k += 1;
            }
            if !seen {
                outs.push(r.outcome.clone());
                assert(outs@.map_values(|s: String| s@) =~= ov.push(r.outcome@));
            } else {
                assert(ov.contains(r.outcome@));
            }
            let ghost pv = pairs@.map_values(|p: (String, String)| (p.0@, p.1@));
            let mut k: usize = 0;
            let mut seen = false;
            while k < pairs.len()
                invariant
                    k <= pairs@.len(),
                    pv == pairs@.map_values(|p: (String, String)| (p.0@, p.1@)),
                    seen <==> exists|q: int| 0 <= q < k && pv[q] == (r.model@, r.outcome@),
                decreases pairs@.len() - k,
            {
                if pairs[k].0 == r.model && pairs[k].1 == r.outcome {
                    seen = true;
                }
                assert(pv[k as int] == (pairs@[k as int].0@, pairs@[k as int].1@));
                k += 1;
            }
            if !seen {
                pairs.push((r.model.clone(), r.outcome.clone()));
                assert(pairs@.map_values(|p: (String, String)| (p.0@, p.1@)) =~= pv.push((r.model@, r.outcome@)));
            } else {
                assert(pv.contains((r.model@, r.outcome@)));
            }
        }
        i += 1;
    }
    assert(runs@.take(runs@.len() as int) =~= runs@);
    let ghost os = outcomes_s(runs@);
    let ghost ps = pairs_s(runs@);
    // The (all) cells.
    let mut cells: Vec<SignalCell> = Vec::new();
    let mut q: usize = 0;
    while q < outs.len()
        invariant
            q <= outs@.len(),
            outs@.map_values(|s: String| s@) == os,
            os == outcomes_s(runs@),
            total_samples(runs@) <= usize::MAX,
            cells@.len() == q,
            forall|i: int| 0 <= i < q ==> cell_ok(#[trigger] cells@[i], all_label(), runs@, None, os[i]),
        decreases outs@.len() - q,
    {
        assert(os[q as int] == outs@[q as int]@);
        let c = gather(runs, None, &outs[q], "(all)".to_string());
        cells.push(c);
        q += 1;
    }
    // The per-model cells with enough runs.
    let ghost nall = cells@.len() as int;
    let mut q: usize = 0;
    assert(ps.take(0) =~= Seq::<(Seq<char>, Seq<char>)>::empty());
    while q < pairs.len()
        invariant
            q <= pairs@.len(),
            pairs@.map_values(|p: (String, String)| (p.0@, p.1@)) == ps,
            ps == pairs_s(runs@),
            total_samples(runs@) <= usize::MAX,
            nall == os.len(),
            cells@.len() == nall + kept_pairs(ps.take(q as int), runs@, min_runs as int).len(),
            forall|i: int| 0 <= i < nall ==> cell_ok(#[trigger] cells@[i], all_label(), runs@, None, os[i]),
            forall|j: int|
                0 <= j < kept_pairs(ps.take(q as int), runs@, min_runs as int).len() ==> cell_ok(
                    #[trigger] cells@[nall + j],
                    kept_pairs(ps.take(q as int), runs@, min_runs as int)[j].0,
                    runs@,
                    Some(kept_pairs(ps.take(q as int), runs@, min_runs as int)[j].0),
                    kept_pairs(ps.take(q as int), runs@, min_runs as int)[j].1,
                ),
        decreases pairs@.len() - q,
    {
        let ghost kp = kept_pairs(ps.take(q as int), runs@, min_runs as int);
        assert(ps.take(q + 1).drop_last() =~= ps.take(q as int));
        assert(ps.take(q + 1).last() == ps[q as int]);
        assert(ps[q as int] == (pairs@[q as int].0@, pairs@[q as int].1@));
        let c = gather(runs, Some(&pairs[q].0), &pairs[q].1, pairs[q].0.clone());
        if c.runs >= min_runs {
            let ghost before = cells@;
            cells.push(c);
            assert forall|i: int| 0 <= i < nall implies cell_ok(#[trigger] cells@[i], all_label(), runs@, None, os[i]) by {
                assert(cells@[i] == before[i]);
            }
        }
        q += 1;
    }
    assert(ps.take(pairs@.len() as int) =~= ps);
    cells
}

} // verus!
