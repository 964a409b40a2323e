//! The summary the panels read, folded from a session's records: the
//! latest session start, end and progress, the record times, and the
//! tracked tasks.
use vstd::prelude::*;
use crate::dashboard::panels::{FileNumstat, StatusSummary, TaskRow, TaskState};
use crate::session::{SessionEvent, SessionRecord};

verus! {

pub open spec fn opt_str(o: Option<String>) -> Option<Seq<char>> {
    match o {
        Some(s) => Some(s@),
        None => None,
    }
}

/// The (session id, model, phase) of the latest session start.
pub open spec fn last_start(rs: Seq<SessionRecord>) -> Option<(Seq<char>, Seq<char>, Seq<char>)>
    decreases rs.len(),
{
    if rs.len() == 0 {
        None
    } else {
        match rs.last().event {
            SessionEvent::SessionStart { session_id, model, phase } => Some((session_id@, model@, phase@)),
            _ => last_start(rs.drop_last()),
        }
    }
}

/// The status of the latest session end.
pub open spec fn last_end(rs: Seq<SessionRecord>) -> Option<Seq<char>>
    decreases rs.len(),
{
    if rs.len() == 0 {
        None
    } else {
        match rs.last().event {
            SessionEvent::SessionEnd { status, .. } => Some(status@),
            _ => last_end(rs.drop_last()),
        }
    }
}

/// The turn, stage and changed files of the latest progress record.
pub open spec fn last_progress(rs: Seq<SessionRecord>) -> Option<(usize, Seq<char>, Seq<Seq<char>>)>
    decreases rs.len(),
{
    if rs.len() == 0 {
        None
    } else {
        match rs.last().event {
            SessionEvent::Progress { turn, stage, files_changed, .. } => Some(
                (turn, stage@, files_changed@.map_values(|f: String| f@)),
            ),
            _ => last_progress(rs.drop_last()),
        }
    }
}

pub open spec fn task_view(t: TaskRow) -> (Seq<char>, Seq<char>, TaskState) {
    (t.id@, t.title@, t.state)
}

/// Index of the last task with id `id`, or -1.
pub open spec fn task_idx(ts: Seq<(Seq<char>, Seq<char>, TaskState)>, id: Seq<char>) -> int
    decreases ts.len(),
{
    if ts.len() == 0 {
        -1
    } else if ts.last().0 == id {
        ts.len() - 1
    } else {
        task_idx(ts.drop_last(), id)
    }
}

/// The tracked tasks, in first-update order: each keeps the title of its
/// first update and takes the state of its latest.
pub open spec fn tasks_s(rs: Seq<SessionRecord>) -> Seq<(Seq<char>, Seq<char>, TaskState)>
    decreases rs.len(),
{
    if rs.len() == 0 {
        Seq::empty()
    } else {
        let p = tasks_s(rs.drop_last());
        match rs.last().event {
            SessionEvent::TaskUpdate { id, title, state } => {
                let k = task_idx(p, id@);
                if k >= 0 {
                    p.update(k, (p[k].0, p[k].1, state))
                } else {
                    p.push((id@, title@, state))
                }
            },
            _ => p,
        }
    }
}

/// How many tasks are in state `st`.
pub open spec fn count_state(ts: Seq<(Seq<char>, Seq<char>, TaskState)>, st: TaskState) -> nat
    decreases ts.len(),
{
    if ts.len() == 0 {
        0
    } else {
        count_state(ts.drop_last(), st) + if ts.last().2 == st {
            1nat
        } else {
            0nat
        }
    }
}

/// The summary of the records: session id, model and phase from the latest
/// start; the end status from the latest end; turn, stage and changed
/// files (no line counts) from the latest progress; the first and last
/// record times and the mean gap between records (with at least two); the
/// tasks and how many are done and active.
pub open spec fn summary_ok(rs: Seq<SessionRecord>, s: StatusSummary) -> bool {
    &&& match last_start(rs) {
        Some((id, m, p)) => opt_str(s.session_id) == Some(id) && opt_str(s.model) == Some(m) && opt_str(s.phase)
            == Some(p),
        None => s.session_id is None && s.model is None && s.phase is None,
    }
    &&& opt_str(s.ended) == last_end(rs)
    &&& match last_progress(rs) {
        Some((t, st, fs)) => {
            &&& s.latest_turn == t
            &&& opt_str(s.latest_stage) == Some(st)
            &&& s.files_changed@.map_values(|f: FileNumstat| f.path@) == fs
            &&& forall|k: int| 0 <= k < s.files_changed@.len() ==> (#[trigger] s.files_changed@[k]).added == 0
                && s.files_changed@[k].removed == 0
        },
        None => s.latest_turn == 0 && s.latest_stage is None && s.files_changed@.len() == 0,
    }
    &&& s.started_at == (if rs.len() > 0 { Some(rs[0].ts) } else { None::<u64> })
    &&& s.last_ts == (if rs.len() > 0 { Some(rs.last().ts) } else { None::<u64> })
    &&& s.update_interval_avg_ms == (if rs.len() >= 2 {
        Some(
            ((if rs.last().ts >= rs[0].ts { rs.last().ts - rs[0].ts } else { 0 }) / ((rs.len() - 1) as int)) as u64,
        )
    } else {
        None::<u64>
    })
    &&& s.tasks@.map_values(|t: TaskRow| task_view(t)) == tasks_s(rs)
    &&& s.tasks_total == tasks_s(rs).len()
    &&& s.tasks_done == count_state(tasks_s(rs), TaskState::Done)
    &&& s.tasks_active == count_state(tasks_s(rs), TaskState::Active)
}

fn find_task(ts: &Vec<TaskRow>, id: &String) -> (r: Option<usize>)
    ensures
        match r {
            Some(k) => k as int == task_idx(ts@.map_values(|t: TaskRow| task_view(t)), id@) && k < ts.len(),
            None => task_idx(ts@.map_values(|t: TaskRow| task_view(t)), id@) == -1,
        },
{
    let ghost tv = ts@.map_values(|t: TaskRow| task_view(t));
    let mut j = ts.len();
    assert(tv.take(j as int) =~= tv);
    while j > 0
        invariant
            j <= ts.len(),
            tv == ts@.map_values(|t: TaskRow| task_view(t)),
            task_idx(tv, id@) == task_idx(tv.take(j as int), id@),
        decreases j,
    {
        assert(tv.take(j as int).drop_last() =~= tv.take(j - 1));
        assert(tv.take(j as int).last() == task_view(ts@[j - 1]));
        if ts[j - 1].id == *id {
            return Some(j - 1);
        }
        j -= 1;
    }
    None
}

proof fn lemma_task_idx(ts: Seq<(Seq<char>, Seq<char>, TaskState)>, id: Seq<char>)
    ensures
        -1 <= task_idx(ts, id) < ts.len(),
    decreases ts.len(),
{
    if ts.len() > 0 {
        lemma_task_idx(ts.drop_last(), id);
    }
}

proof fn lemma_count_update(ts: Seq<(Seq<char>, Seq<char>, TaskState)>, k: int, x: (Seq<char>, Seq<char>, TaskState), st: TaskState)
    requires
        0 <= k < ts.len(),
    ensures
        count_state(ts.update(k, x), st) + (if ts[k].2 == st { 1int } else { 0int }) == count_state(ts, st) + (
        if x.2 == st {
            1int
        } else {
            0int
        }),
    decreases ts.len(),
{
    if k < ts.len() - 1 {
        lemma_count_update(ts.drop_last(), k, x, st);
        assert(ts.update(k, x).drop_last() =~= ts.drop_last().update(k, x));
    } else {
        assert(ts.update(k, x).drop_last() =~= ts.drop_last());
    }
}

fn count_tasks(ts: &Vec<TaskRow>, st: TaskState) -> (n: usize)
    ensures
        n == count_state(ts@.map_values(|t: TaskRow| task_view(t)), st),
{
    let ghost tv = ts@.map_values(|t: TaskRow| task_view(t));
    let mut n: usize = 0;
    let mut i: usize = 0;
    while i < ts.len()
        invariant
            i <= ts.len(),
            tv == ts@.map_values(|t: TaskRow| task_view(t)),
            n == count_state(tv.take(i as int), st),
            n <= i,
        decreases ts.len() - i,
    {
        assert(tv.take(i + 1).drop_last() =~= tv.take(i as int));
        assert(tv.take(i + 1).last() == task_view(ts@[i as int]));
        if ts[i].state == st {
            n += 1;
        }
        i += 1;
    }
    assert(tv.take(ts.len() as int) =~= tv);
    n
}

/// The panels' summary of a session, folded from its records.
pub fn summarize(records: &Vec<SessionRecord>) -> (s: StatusSummary)
    ensures
        summary_ok(records@, s),
{
    let mut session_id: Option<String> = None;
    let mut model: Option<String> = None;
    let mut phase: Option<String> = None;
    let mut ended: Option<String> = None;
    let mut latest_turn: usize = 0;
    let mut latest_stage: Option<String> = None;
    let mut files: Vec<FileNumstat> = Vec::new();
    let mut tasks: Vec<TaskRow> = Vec::new();
    let mut i: usize = 0;
    assert(records@.take(0) =~= Seq::<SessionRecord>::empty());
    while i < records.len()
        invariant
            i <= records@.len(),
            ({
                let rs = records@.take(i as int);
                &&& match last_start(rs) {
                    Some((id, m, p)) => opt_str(session_id) == Some(id) && opt_str(model) == Some(m) && opt_str(phase)
                        == Some(p),
                    None => session_id is None && model is None && phase is None,
                }
                &&& opt_str(ended) == last_end(rs)
                &&& match last_progress(rs) {
                    Some((t, st, fs)) => {
                        &&& latest_turn == t
                        &&& opt_str(latest_stage) == Some(st)
                        &&& files@.map_values(|f: FileNumstat| f.path@) == fs
                        &&& forall|k: int| 0 <= k < files@.len() ==> (#[trigger] files@[k]).added == 0 && files@[k].removed == 0
                    },
                    None => latest_turn == 0 && latest_stage is None && files@.len() == 0,
                }
                &&& tasks@.map_values(|t: TaskRow| task_view(t)) == tasks_s(rs)
            }),
        decreases records@.len() - i,
    {
        let ghost pre = records@.take(i as int);
        let ghost cur = records@.take(i + 1);
        assert(cur.drop_last() =~= pre);
        assert(cur.last() == records@[i as int]);
        match &records[i].event {
            SessionEvent::SessionStart { session_id: sid, model: m, phase: p } => {
                session_id = Some(sid.clone());
                model = Some(m.clone());
                phase = Some(p.clone());
            },
            SessionEvent::SessionEnd { status, .. } => {
                ended = Some(status.clone());
            },
            SessionEvent::Progress { turn, stage, files_changed, .. } => {
                latest_turn = *turn;
                latest_stage = Some(stage.clone());
                let mut fs: Vec<FileNumstat> = Vec::new();
                let mut j: usize = 0;
                while j < files_changed.len()
                    invariant
                        j <= files_changed@.len(),
                        fs@.map_values(|f: FileNumstat| f.path@) == files_changed@.take(j as int).map_values(
                            |f: String| f@,
                        ),
                        forall|k: int| 0 <= k < fs@.len() ==> (#[trigger] fs@[k]).added == 0 && fs@[k].removed == 0,
                    decreases files_changed@.len() - j,
                {
                    fs.push(FileNumstat { path: files_changed[j].clone(), added: 0, removed: 0 });
                    assert(files_changed@.take(j + 1).map_values(|f: String| f@) =~= files_changed@.take(
                        j as int,
                    ).map_values(|f: String| f@).push(files_changed@[j as int]@));
                    assert(fs@.map_values(|f: FileNumstat| f.path@) =~= files_changed@.take(j + 1).map_values(
                        |f: String| f@,
                    ));
                    j += 1;
                }
                assert(files_changed@.take(files_changed@.len() as int) =~= files_changed@);
                files = fs;
            },
            SessionEvent::TaskUpdate { id, title, state } => {
                let ghost tv = tasks@.map_values(|t: TaskRow| task_view(t));
                proof {
                    lemma_task_idx(tv, id@);
                }
                match find_task(&tasks, id) {
                    Some(k) => {
                        let t = TaskRow { id: tasks[k].id.clone(), title: tasks[k].title.clone(), state: *state };
                        assert(task_view(tasks@[k as int]) == tv[k as int]);
                        tasks.set(k, t);
                        assert(tasks@.map_values(|t: TaskRow| task_view(t)) =~= tv.update(
                            k as int,
                            (tv[k as int].0, tv[k as int].1, *state),
                        ));
                    },
                    None => {
                        tasks.push(TaskRow { id: id.clone(), title: title.clone(), state: *state });
                        assert(tasks@.map_values(|t: TaskRow| task_view(t)) =~= tv.push((id@, title@, *state)));
                    },
                }
            },
            _ => {},
        }
        i += 1;
    }
    assert(records@.take(records@.len() as int) =~= records@);
    let n = records.len();
    let started_at = if n > 0 { Some(records[0].ts) } else { None };
    let last_ts = if n > 0 { Some(records[n - 1].ts) } else { None };
    let update_interval_avg_ms = if n >= 2 {
        let first = records[0].ts;
        let last = records[n - 1].ts;
        let span = if last >= first { last - first } else { 0 };
        Some(span / ((n - 1) as u64))
    } else {
        None
    };
    let total = tasks.len();
    let done = count_tasks(&tasks, TaskState::Done);
    let active = count_tasks(&tasks, TaskState::Active);
    StatusSummary {
        phase,
        session_id,
        model,
        ended,
        started_at,
        last_ts,
        update_interval_avg_ms,
        latest_turn,
        latest_stage,
        tasks_total: total,
        tasks_done: done,
        tasks_active: active,
        tasks,
        files_changed: files,
    }
}

} // verus!
