//! Resume assembly: the task states restored from a prior run (the last
//! update of each task wins), the diff cap, and the resume preamble.
use vstd::prelude::*;
use crate::dashboard::panels::TaskState;
use crate::profile::{chars_lt, lemma_lex_total, lemma_lex_trans, lex_lt};
use crate::text::{chars_of, extend_chars, extend_str, join_chars, join_s, slice_chars, string_of, views};

verus! {

/// Cap on the uncommitted diff injected into the resume preamble, in
/// characters.
pub const MAX_RESUME_DIFF_CHARS: usize = 50_000;

pub open spec fn ids_view(v: Seq<(String, TaskState)>) -> Seq<(Seq<char>, TaskState)> {
    v.map_values(|p: (String, TaskState)| (p.0@, p.1))
}

/// The state of task `id` after the updates: the last update's, if any.
pub open spec fn last_state(updates: Seq<(Seq<char>, TaskState)>, id: Seq<char>) -> Option<TaskState>
    decreases updates.len(),
{
    if updates.len() == 0 {
        None
    } else if updates.last().0 == id {
        Some(updates.last().1)
    } else {
        last_state(updates.drop_last(), id)
    }
}

/// The restored states: each updated task once, with its last state.
pub open spec fn is_restored(updates: Seq<(Seq<char>, TaskState)>, out: Seq<(Seq<char>, TaskState)>) -> bool {
    &&& forall|k: int| 0 <= k < out.len() ==> last_state(updates, (#[trigger] out[k]).0) == Some(out[k].1)
    &&& forall|k: int, m: int| 0 <= k < m < out.len() ==> (#[trigger] out[k]).0 != (#[trigger] out[m]).0
    &&& forall|i: int| 0 <= i < updates.len() ==> exists|k: int| 0 <= k < out.len() && (#[trigger] out[k]).0 == (#[trigger] updates[i]).0
}

proof fn lemma_last_state_push(u: Seq<(Seq<char>, TaskState)>, x: (Seq<char>, TaskState), id: Seq<char>)
    ensures
        last_state(u.push(x), id) == if x.0 == id {
            Some(x.1)
        } else {
            last_state(u, id)
        },
{
    assert(u.push(x).drop_last() =~= u);
}

fn find_id(out: &Vec<(String, TaskState)>, id: &String) -> (r: Option<usize>)
    ensures
        match r {
            Some(k) => k < out@.len() && out@[k as int].0@ == id@,
            None => forall|m: int| 0 <= m < out@.len() ==> (#[trigger] out@[m]).0@ != id@,
        },
{
    let mut k: usize = 0;
    while k < out.len()
        invariant
            k <= out.len(),
            forall|m: int| 0 <= m < k ==> (#[trigger] out@[m]).0@ != id@,
        decreases out.len() - k,
    {
        if out[k].0 == *id {
            return Some(k);
        }
        k += 1;
    }
    None
}

/// Fold task updates (id, state), in log order, into each task's latest
/// state: last write wins. Tasks come out in the order first updated.
pub fn restore_task_states(updates: &Vec<(String, TaskState)>) -> (r: Vec<(String, TaskState)>)
    ensures
        is_restored(ids_view(updates@), ids_view(r@)),
{
    let ghost us = ids_view(updates@);
    let mut out: Vec<(String, TaskState)> = Vec::new();
    let mut i: usize = 0;
    while i < updates.len()
        invariant
            i <= updates.len(),
            us == ids_view(updates@),
            is_restored(us.take(i as int), ids_view(out@)),
        decreases updates.len() - i,
    {
        let (id, st) = (&updates[i].0, updates[i].1);
        let ghost pre = us.take(i as int);
        let ghost x = us[i as int];
        assert(us.take(i + 1) =~= pre.push(x));
        let ghost old_out = ids_view(out@);
        assert(x.0 == id@ && x.1 == st);
        match find_id(&out, id) {
            Some(k) => {
                let name = out[k].0.clone();
                out.set(k, (name, st));
                proof {
                    let nv = ids_view(out@);
                    assert(old_out[k as int].0 == x.0);
                    assert(nv =~= old_out.update(k as int, (x.0, x.1)));
                    assert forall|m: int| 0 <= m < nv.len() implies last_state(pre.push(x), (#[trigger] nv[m]).0) == Some(nv[m].1) by {
                        lemma_last_state_push(pre, x, nv[m].0);
                        if m != k {
                            assert(nv[m] == old_out[m]);
                            if m < k {
                                assert(old_out[m].0 != old_out[k as int].0);
                            } else {
                                assert(old_out[k as int].0 != old_out[m].0);
                            }
                        }
                    }
                    assert forall|j: int| 0 <= j < pre.push(x).len() implies exists|m: int| 0 <= m < nv.len() && (#[trigger] nv[m]).0 == (#[trigger] pre.push(x)[j]).0 by {
                        if j < i {
                            assert(pre.push(x)[j] == pre[j]);
                            let w = choose|w: int| 0 <= w < old_out.len() && (#[trigger] old_out[w]).0 == (#[trigger] pre[j]).0;
                            assert(nv[w].0 == old_out[w].0);
                        } else {
                            assert(nv[k as int].0 == x.0);
                        }
                    }
                }
            },
            None => {
                out.push((id.clone(), st));
                proof {
                    let nv = ids_view(out@);
                    assert(nv =~= old_out.push((x.0, x.1)));
                    assert forall|m: int| 0 <= m < nv.len() implies last_state(pre.push(x), (#[trigger] nv[m]).0) == Some(nv[m].1) by {
                        lemma_last_state_push(pre, x, nv[m].0);
                    }
                    assert forall|j: int| 0 <= j < pre.push(x).len() implies exists|m: int| 0 <= m < nv.len() && (#[trigger] nv[m]).0 == (#[trigger] pre.push(x)[j]).0 by {
                        if j < i {
                            assert(pre.push(x)[j] == pre[j]);
                            let w = choose|w: int| 0 <= w < old_out.len() && (#[trigger] old_out[w]).0 == (#[trigger] pre[j]).0;
                            assert(nv[w].0 == old_out[w].0);
                        } else {
                            assert(nv[old_out.len() as int].0 == x.0);
                        }
                    }
                }
            },
        }
        i += 1;
    }
    assert(us.take(updates.len() as int) =~= us);
    out
}

/// Keep at most the first `MAX_RESUME_DIFF_CHARS` characters of a diff;
/// a failed diff command contributes nothing.
pub open spec fn resume_diff_s(success: bool, out: Seq<char>) -> Seq<char> {
    if !success {
        Seq::empty()
    } else if out.len() > MAX_RESUME_DIFF_CHARS {
        out.take(MAX_RESUME_DIFF_CHARS as int)
    } else {
        out
    }
}

pub fn resume_diff(success: bool, out: String) -> (r: String)
    ensures
        r@ == resume_diff_s(success, out@),
{
    if !success {
        return String::new();
    }
    let v = chars_of(out.as_str());
    if v.len() > MAX_RESUME_DIFF_CHARS {
        let t = slice_chars(&v, 0, MAX_RESUME_DIFF_CHARS);
        string_of(&t)
    } else {
        out
    }
}

pub open spec fn state_name(s: TaskState) -> Seq<char> {
    match s {
        TaskState::Pending => "pending"@,
        TaskState::Active => "active"@,
        TaskState::Done => "done"@,
    }
}

/// `- <id> (<state>)`.
pub open spec fn task_entry_s(p: (Seq<char>, TaskState)) -> Seq<char> {
    "- "@ + p.0 + " ("@ + state_name(p.1) + ")"@
}

pub open spec fn lex_sorted(s: Seq<Seq<char>>) -> bool {
    forall|k: int, m: int| 0 <= k < m < s.len() ==> lex_lt(#[trigger] s[k], #[trigger] s[m])
}

/// The entries in sorted order: sorted, and holding exactly the given
/// (distinct) entries.
pub open spec fn is_sorted_of(entries: Seq<Seq<char>>, out: Seq<Seq<char>>) -> bool {
    &&& lex_sorted(out)
    &&& out.len() == entries.len()
    &&& forall|k: int| 0 <= k < out.len() ==> entries.contains(#[trigger] out[k])
    &&& forall|k: int| 0 <= k < entries.len() ==> out.contains(#[trigger] entries[k])
}

fn insert_sorted(out: &mut Vec<Vec<char>>, x: Vec<char>) -> (p: usize)
    requires
        lex_sorted(views(old(out)@)),
        forall|q: int| 0 <= q < old(out)@.len() ==> (#[trigger] old(out)@[q])@ != x@,
    ensures
        p <= old(out)@.len(),
        views(final(out)@) == views(old(out)@).insert(p as int, x@),
        lex_sorted(views(final(out)@)),
{
    let mut p: usize = 0;
    while p < out.len() && !chars_lt(&x, &out[p])
        invariant
            p <= out@.len(),
            forall|q: int| 0 <= q < p ==> !lex_lt(x@, #[trigger] views(out@)[q]),
        decreases out.len() - p,
    {
        assert(views(out@)[p as int] == out@[p as int]@);
        p += 1;
    }
    let ghost old_v = views(out@);
    assert(p == old_v.len() || lex_lt(x@, old_v[p as int]));
    out.insert(p, x);
    proof {
        let nv = views(out@);
        assert(nv =~= old_v.insert(p as int, x@));
        assert forall|k: int, m: int| 0 <= k < m < nv.len() implies lex_lt(#[trigger] nv[k], #[trigger] nv[m]) by {
            if k < p && m < p {
            } else if k < p && m == p {
                assert(old_v[k] == old(out)@[k]@);
                lemma_lex_total(x@, old_v[k]);
            } else if k < p && m > p {
                assert(nv[m] == old_v[m - 1]);
            } else if k == p {
                assert(nv[m] == old_v[m - 1]);
                if m - 1 > p {
                    lemma_lex_trans(x@, old_v[p as int], old_v[m - 1]);
                }
            } else {
                assert(nv[k] == old_v[k - 1] && nv[m] == old_v[m - 1]);
            }
        }
    }
    p
}

/// Sort distinct texts into lexicographic order.
pub fn sort_distinct(entries: &Vec<Vec<char>>) -> (r: Vec<Vec<char>>)
    requires
        forall|k: int, m: int| 0 <= k < m < entries@.len() ==> (#[trigger] entries@[k])@ != (#[trigger] entries@[m])@,
    ensures
        is_sorted_of(views(entries@), views(r@)),
{
    let ghost es = views(entries@);
    let mut out: Vec<Vec<char>> = Vec::new();
    let mut t: usize = 0;
    while t < entries.len()
        invariant
            t <= entries.len(),
            es == views(entries@),
            forall|k: int, m: int| 0 <= k < m < entries@.len() ==> (#[trigger] entries@[k])@ != (#[trigger] entries@[m])@,
            lex_sorted(views(out@)),
            out@.len() == t,
            forall|k: int| 0 <= k < out@.len() ==> es.take(t as int).contains(#[trigger] views(out@)[k]),
            forall|q: int| 0 <= q < t ==> views(out@).contains(#[trigger] es[q]),
        decreases entries.len() - t,
    {
        let ghost old_v = views(out@);
        let x = entries[t].clone();
        assert(x@ == es[t as int]);
        proof {
            assert forall|q: int| 0 <= q < out@.len() implies (#[trigger] out@[q])@ != x@ by {
                assert(old_v[q] == out@[q]@);
                assert(es.take(t as int).contains(old_v[q]));
                let w = choose|w: int| 0 <= w < es.take(t as int).len() && es.take(t as int)[w] == old_v[q];
                assert(es[w] == entries@[w]@);
            }
        }
        let p = insert_sorted(&mut out, x);
        proof {
            let nv = views(out@);
            assert(es.take(t + 1) =~= es.take(t as int).push(es[t as int]));
            assert forall|k: int| 0 <= k < nv.len() implies es.take(t + 1).contains(#[trigger] nv[k]) by {
                if k == p {
                    assert(es.take(t + 1)[t as int] == nv[k]);
                } else {
                    let e = if k < p { old_v[k] } else { old_v[k - 1] };
                    assert(nv[k] == e);
                    let w = choose|w: int| 0 <= w < es.take(t as int).len() && es.take(t as int)[w] == e;
                    assert(es.take(t + 1)[w] == e);
                }
            }
            assert forall|q: int| 0 <= q < t + 1 implies nv.contains(#[trigger] es[q]) by {
                if q == t {
                    assert(nv[p as int] == es[q]);
                } else {
                    let w = choose|w: int| 0 <= w < old_v.len() && old_v[w] == es[q];
                    if w < p {
                        assert(nv[w] == old_v[w]);
                    } else {
                        assert(nv[w + 1] == old_v[w]);
                    }
                }
            }
        }
        t += 1;
    }
    assert(es.take(entries.len() as int) =~= es);
    out
}

/// The resume preamble: guidance, the uncommitted diff in a fence (or a
/// note that there is none), and the prior task progress, one
/// `- <id> (<state>)` line per task in sorted order (or a note that none
/// was recorded).
pub open spec fn preamble_s(guidance: Seq<char>, diff: Seq<char>, progress: Seq<char>) -> Seq<char> {
    let diff_block = if diff.len() == 0 {
        "```\n(no uncommitted changes)\n```"@
    } else {
        "```\n"@ + diff + "\n```"@
    };
    "\n\n# Resume context\n\nYou are RESUMING this phase. A prior executor run did not finish; you are\ncontinuing its work, not starting over. Build on what is already on disk. Do\nnot redo tasks already marked done.\n\n## Architect guidance\n\n"@
        + guidance + "\n\n## Work already on disk (uncommitted diff vs HEAD)\n\n"@ + diff_block
        + "\n\n## Prior task progress\n\n"@ + progress
}

/// Render the `# Resume context` markdown block. The task states must name
/// each task once (as restored).
pub fn render_preamble(guidance: &str, diff: &str, task_states: &Vec<(String, TaskState)>) -> (r: String)
    requires
        forall|k: int, m: int| 0 <= k < m < task_states@.len() ==> (#[trigger] task_states@[k]).0@ != (#[trigger] task_states@[m]).0@,
    ensures
        task_states@.len() == 0 ==> r@ == preamble_s(guidance@, diff@, "(no prior task state recorded)"@),
        task_states@.len() > 0 ==> exists|sorted: Seq<Seq<char>>|
            is_sorted_of(ids_view(task_states@).map_values(|p: (Seq<char>, TaskState)| task_entry_s(p)), sorted)
                && r@ == preamble_s(guidance@, diff@, join_s(sorted, "\n"@)),
{
    proof {
        reveal_strlit("```\n(no uncommitted changes)\n```");
        reveal_strlit("```\n");
        reveal_strlit("\n```");
        reveal_strlit("(no prior task state recorded)");
        reveal_strlit("- ");
        reveal_strlit(" (");
        reveal_strlit(")");
        reveal_strlit("pending");
        reveal_strlit("active");
        reveal_strlit("done");
        reveal_strlit("\n");
    }
    let dv = chars_of(diff);
    let diff_block = if dv.len() == 0 {
        chars_of("```\n(no uncommitted changes)\n```")
    } else {
        let mut b = chars_of("```\n");
        extend_chars(&mut b, &dv);
        extend_str(&mut b, "\n```");
        b
    };
    let ghost entries_s = ids_view(task_states@).map_values(|p: (Seq<char>, TaskState)| task_entry_s(p));
    let mut progress: Vec<char> = Vec::new();
    if task_states.len() == 0 {
        extend_str(&mut progress, "(no prior task state recorded)");
    } else {
        let mut entries: Vec<Vec<char>> = Vec::new();
        let mut k: usize = 0;
        while k < task_states.len()
            invariant
                k <= task_states.len(),
                entries_s == ids_view(task_states@).map_values(|p: (Seq<char>, TaskState)| task_entry_s(p)),
                views(entries@) == entries_s.take(k as int),
            decreases task_states.len() - k,
        {
            let mut e = chars_of("- ");
            extend_str(&mut e, task_states[k].0.as_str());
            extend_str(&mut e, " (");
            let name = match task_states[k].1 {
                TaskState::Pending => "pending",
                TaskState::Active => "active",
                TaskState::Done => "done",
            };
            extend_str(&mut e, name);
            extend_str(&mut e, ")");
            assert(e@ == entries_s[k as int]);
            let ghost before = views(entries@);
            entries.push(e);
            assert(views(entries@) =~= before.push(entries_s[k as int]));
            assert(entries_s.take(k + 1) =~= entries_s.take(k as int).push(entries_s[k as int]));
            k += 1;
        }
        assert(entries_s.take(task_states.len() as int) =~= entries_s);
        proof {
            assert forall|a: int, b: int| 0 <= a < b < entries@.len() implies (#[trigger] entries@[a])@ != (#[trigger] entries@[b])@ by {
                assert(views(entries@)[a] == entries@[a]@);
                assert(views(entries@)[b] == entries@[b]@);
                let ia = task_states@[a].0@;
                let ib = task_states@[b].0@;
                if entries@[a]@ == entries@[b]@ {
                    lemma_entry_injective(ids_view(task_states@)[a], ids_view(task_states@)[b]);
                }
            }
        }
        let sorted = sort_distinct(&entries);
        let nl = chars_of("\n");
        progress = join_chars(&sorted, &nl);
    }
    let mut out = chars_of("\n\n# Resume context\n\nYou are RESUMING this phase. A prior executor run did not finish; you are\ncontinuing its work, not starting over. Build on what is already on disk. Do\nnot redo tasks already marked done.\n\n## Architect guidance\n\n");
    extend_str(&mut out, guidance);
    extend_str(&mut out, "\n\n## Work already on disk (uncommitted diff vs HEAD)\n\n");
    extend_chars(&mut out, &diff_block);
    extend_str(&mut out, "\n\n## Prior task progress\n\n");
    extend_chars(&mut out, &progress);
    proof {
        reveal_strlit("\n\n# Resume context\n\nYou are RESUMING this phase. A prior executor run did not finish; you are\ncontinuing its work, not starting over. Build on what is already on disk. Do\nnot redo tasks already marked done.\n\n## Architect guidance\n\n");
        reveal_strlit("\n\n## Work already on disk (uncommitted diff vs HEAD)\n\n");
        reveal_strlit("\n\n## Prior task progress\n\n");
    }
    string_of(&out)
}

/// Two entries with the same text name the same task (ids cannot contain
/// the ` (` that follows them without changing the state part).
proof fn lemma_entry_injective(a: (Seq<char>, TaskState), b: (Seq<char>, TaskState))
    requires
        task_entry_s(a) == task_entry_s(b),
    ensures
        a.0 == b.0,
{
    reveal_strlit("- ");
    reveal_strlit(" (");
    reveal_strlit(")");
    reveal_strlit("pending");
    reveal_strlit("active");
    reveal_strlit("done");
    let ta = task_entry_s(a);
    let tb = task_entry_s(b);
    let na = state_name(a.1);
    let nb = state_name(b.1);
    let n = ta.len() as int;
    assert(ta =~= "- "@ + a.0 + " ("@ + na + ")"@);
    assert(tb =~= "- "@ + b.0 + " ("@ + nb + ")"@);
    assert(ta[n - 2] == na[na.len() - 1]);
    assert(tb[n - 2] == nb[nb.len() - 1]);
    assert(ta[n - 3] == na[na.len() - 2]);
    assert(tb[n - 3] == nb[nb.len() - 2]);
    assert(na == nb);
    assert(a.0.len() == b.0.len());
    assert(a.0 =~= ta.subrange(2, 2 + a.0.len() as int));
    assert(b.0 =~= tb.subrange(2, 2 + b.0.len() as int));
}

} // verus!
