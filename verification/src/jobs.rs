//! The run registry: spawned runs by id and their states, with
//! read-after-write semantics; and fresh run ids. Locking, waiting and
//! spawning are the caller's.
use vstd::prelude::*;
use crate::text::chars_eq_str;

verus! {

/// Terminal-or-running state of a spawned run.
pub enum RunState {
    /// Still executing.
    Running,
    /// Finished; holds the serialized (capped) result as JSON text.
    Complete(String),
    /// Errored at the infrastructure level.
    Failed(String),
}

/// A run state as plain values: 0 running, 1 complete, 2 failed, with its
/// text.
pub open spec fn state_view(s: RunState) -> (int, Seq<char>) {
    match s {
        RunState::Running => (0, Seq::empty()),
        RunState::Complete(j) => (1, j@),
        RunState::Failed(e) => (2, e@),
    }
}

impl RunState {
    /// Finished, one way or the other.
    pub fn is_terminal(&self) -> (b: bool)
        ensures
            b == !(*self is Running),
    {
        !matches!(self, RunState::Running)
    }

    pub fn copy(&self) -> (r: RunState)
        ensures
            state_view(r) == state_view(*self),
    {
        match self {
            RunState::Running => RunState::Running,
            RunState::Complete(j) => RunState::Complete(j.clone()),
            RunState::Failed(e) => RunState::Failed(e.clone()),
        }
    }
}

/// Runs by id, each id at most once.
pub struct JobRegistry {
    pub entries: Vec<(String, RunState)>,
}

impl JobRegistry {
    /// The table as a map from run id to state.
    pub open spec fn view_map(&self) -> Map<Seq<char>, (int, Seq<char>)> {
        Map::new(
            |id: Seq<char>| exists|k: int| 0 <= k < self.entries@.len() && (#[trigger] self.entries@[k]).0@ == id,
            |id: Seq<char>| {
                let k = choose|k: int| 0 <= k < self.entries@.len() && (#[trigger] self.entries@[k]).0@ == id;
                state_view(self.entries@[k].1)
            },
        )
    }

    /// Ids are distinct.
    pub open spec fn wf(&self) -> bool {
        forall|a: int, b: int| 0 <= a < b < self.entries@.len() ==> (#[trigger] self.entries@[a]).0@ != (#[trigger] self.entries@[b]).0@
    }

    pub fn new() -> (t: Self)
        ensures
            t.wf(),
            t.view_map() == Map::<Seq<char>, (int, Seq<char>)>::empty(),
    {
        let t = JobRegistry { entries: Vec::new() };
        assert(t.view_map() =~= Map::<Seq<char>, (int, Seq<char>)>::empty());
        t
    }

    fn find(&self, run_id: &str) -> (r: Option<usize>)
        requires
            self.wf(),
        ensures
            match r {
                Some(k) => k < self.entries@.len() && self.entries@[k as int].0@ == run_id@,
                None => !self.view_map().dom().contains(run_id@),
            },
    {
        let mut k: usize = 0;
        while k < self.entries.len()
            invariant
                k <= self.entries@.len(),
                forall|m: int| 0 <= m < k ==> (#[trigger] self.entries@[m]).0@ != run_id@,
            decreases self.entries.len() - k,
        {
            if chars_eq_str(&crate::text::chars_of(self.entries[k].0.as_str()), run_id) {
                return Some(k);
            }
            k += 1;
        }
        None
    }

    proof fn lemma_lookup(&self, k: int)
        requires
            self.wf(),
            0 <= k < self.entries@.len(),
        ensures
            self.view_map().dom().contains(self.entries@[k].0@),
            self.view_map()[self.entries@[k].0@] == state_view(self.entries@[k].1),
    {
        let id = self.entries@[k].0@;
        assert(self.view_map().dom().contains(id));
        let c = choose|c: int| 0 <= c < self.entries@.len() && (#[trigger] self.entries@[c]).0@ == id;
        if c != k {
            if c < k {
                assert(self.entries@[c].0@ != self.entries@[k].0@);
            } else {
                assert(self.entries@[k].0@ != self.entries@[c].0@);
            }
        }
    }

    /// Register a run as running (a known id starts over as running).
    pub fn insert(&mut self, run_id: &str)
        requires
            old(self).wf(),
        ensures
            final(self).wf(),
            final(self).view_map() == old(self).view_map().insert(run_id@, state_view(RunState::Running)),
    {
        let ghost old_map = self.view_map();
        proof {
            self.lemma_table_facts();
        }
        match self.find(run_id) {
            Some(k) => {
                let ghost old_entries = self.entries@;
                let name = self.entries[k].0.clone();
                self.entries.set(k, (name, RunState::Running));
                proof {
                    assert forall|a: int, b: int| 0 <= a < b < self.entries@.len() implies (#[trigger] self.entries@[a]).0@ != (#[trigger] self.entries@[b]).0@ by {
                        assert(self.entries@[a].0@ == old_entries[a].0@);
                        assert(self.entries@[b].0@ == old_entries[b].0@);
                    }
                    self.lemma_same_ids_map(old_entries, old_map, k as int, run_id@, state_view(RunState::Running));
                }
            },
            None => {
                let ghost old_entries = self.entries@;
                self.entries.push((run_id.to_string(), RunState::Running));
                proof {
                    assert forall|a: int, b: int| 0 <= a < b < self.entries@.len() implies (#[trigger] self.entries@[a]).0@ != (#[trigger] self.entries@[b]).0@ by {
                        if b == old_entries.len() {
                            assert(!old_map.dom().contains(run_id@));
                            assert(self.entries@[a] == old_entries[a]);
                            if old_entries[a].0@ == run_id@ {
                                assert(old_map.dom().contains(old_entries[a].0@));
                            }
                        } else {
                            assert(self.entries@[a] == old_entries[a]);
                            assert(self.entries@[b] == old_entries[b]);
                        }
                    }
                    self.lemma_push_map(old_entries, old_map, run_id@);
                }
            },
        }
    }

    proof fn lemma_same_ids_map(
        &self,
        old_entries: Seq<(String, RunState)>,
        old_map: Map<Seq<char>, (int, Seq<char>)>,
        k: int,
        id: Seq<char>,
        st: (int, Seq<char>),
    )
        requires
            self.wf(),
            0 <= k < old_entries.len(),
            self.entries@.len() == old_entries.len(),
            old_entries[k].0@ == id,
            self.entries@[k].0@ == id,
            state_view(self.entries@[k].1) == st,
            forall|m: int| 0 <= m < old_entries.len() && m != k ==> self.entries@[m] == old_entries[m],
            forall|m: int| 0 <= m < old_entries.len() ==> old_map.dom().contains(#[trigger] old_entries[m].0@) && old_map[old_entries[m].0@] == state_view(old_entries[m].1),
            forall|x: Seq<char>| old_map.dom().contains(x) ==> exists|m: int| 0 <= m < old_entries.len() && (#[trigger] old_entries[m]).0@ == x,
        ensures
            self.view_map() == old_map.insert(id, st),
    {
        let nm = self.view_map();
        let want = old_map.insert(id, st);
        assert forall|x: Seq<char>| nm.dom().contains(x) <==> want.dom().contains(x) by {
            if nm.dom().contains(x) {
                let m = choose|m: int| 0 <= m < self.entries@.len() && (#[trigger] self.entries@[m]).0@ == x;
                if m != k {
                    assert(old_map.dom().contains(old_entries[m].0@));
                }
            }
            if want.dom().contains(x) && x != id {
                let m = choose|m: int| 0 <= m < old_entries.len() && (#[trigger] old_entries[m]).0@ == x;
                assert(self.entries@[m].0@ == x);
            }
            if x == id {
                assert(self.entries@[k].0@ == x);
            }
        }
        assert forall|x: Seq<char>| nm.dom().contains(x) implies nm[x] == want[x] by {
            let m = choose|m: int| 0 <= m < self.entries@.len() && (#[trigger] self.entries@[m]).0@ == x;
            self.lemma_lookup(m);
            if m != k {
                assert(self.entries@[m] == old_entries[m]);
            }
        }
        assert(nm =~= want);
    }

    proof fn lemma_push_map(&self, old_entries: Seq<(String, RunState)>, old_map: Map<Seq<char>, (int, Seq<char>)>, id: Seq<char>)
        requires
            self.wf(),
            self.entries@.len() == old_entries.len() + 1,
            forall|m: int| 0 <= m < old_entries.len() ==> self.entries@[m] == old_entries[m],
            self.entries@[old_entries.len() as int].0@ == id,
            self.entries@[old_entries.len() as int].1 is Running,
            forall|m: int| 0 <= m < old_entries.len() ==> old_map.dom().contains(#[trigger] old_entries[m].0@) && old_map[old_entries[m].0@] == state_view(old_entries[m].1),
            forall|x: Seq<char>| old_map.dom().contains(x) ==> exists|m: int| 0 <= m < old_entries.len() && (#[trigger] old_entries[m]).0@ == x,
        ensures
            self.view_map() == old_map.insert(id, state_view(RunState::Running)),
    {
        let nm = self.view_map();
        let want = old_map.insert(id, state_view(RunState::Running));
        assert forall|x: Seq<char>| nm.dom().contains(x) <==> want.dom().contains(x) by {
            if nm.dom().contains(x) {
                let m = choose|m: int| 0 <= m < self.entries@.len() && (#[trigger] self.entries@[m]).0@ == x;
                if m < old_entries.len() {
                    assert(old_map.dom().contains(old_entries[m].0@));
                }
            }
            if want.dom().contains(x) && x != id {
                let m = choose|m: int| 0 <= m < old_entries.len() && (#[trigger] old_entries[m]).0@ == x;
                assert(self.entries@[m].0@ == x);
            }
            if x == id {
                assert(self.entries@[old_entries.len() as int].0@ == x);
            }
        }
        assert forall|x: Seq<char>| nm.dom().contains(x) implies nm[x] == want[x] by {
            let m = choose|m: int| 0 <= m < self.entries@.len() && (#[trigger] self.entries@[m]).0@ == x;
            self.lemma_lookup(m);
        }
        assert(nm =~= want);
    }

    /// Record a run's new state; an unknown id changes nothing.
    pub fn publish(&mut self, run_id: &str, state: RunState)
        requires
            old(self).wf(),
        ensures
            final(self).wf(),
            old(self).view_map().dom().contains(run_id@) ==> final(self).view_map() == old(self).view_map().insert(
                run_id@,
                state_view(state),
            ),
            !old(self).view_map().dom().contains(run_id@) ==> final(self).view_map() == old(self).view_map(),
    {
        let ghost old_map = self.view_map();
        match self.find(run_id) {
            Some(k) => {
                let ghost old_entries = self.entries@;
                let ghost sv = state_view(state);
                proof {
                    self.lemma_lookup(k as int);
                    self.lemma_table_facts();
                }
                let name = self.entries[k].0.clone();
                self.entries.set(k, (name, state));
                proof {
                    assert forall|a: int, b: int| 0 <= a < b < self.entries@.len() implies (#[trigger] self.entries@[a]).0@ != (#[trigger] self.entries@[b]).0@ by {
                        assert(self.entries@[a].0@ == old_entries[a].0@);
                        assert(self.entries@[b].0@ == old_entries[b].0@);
                    }
                    self.lemma_same_ids_map(old_entries, old_map, k as int, run_id@, sv);
                }
            },
            None => {},
        }
    }

    proof fn lemma_table_facts(&self)
        requires
            self.wf(),
        ensures
            forall|m: int| 0 <= m < self.entries@.len() ==> self.view_map().dom().contains(#[trigger] self.entries@[m].0@) && self.view_map()[self.entries@[m].0@] == state_view(self.entries@[m].1),
            forall|x: Seq<char>| self.view_map().dom().contains(x) ==> exists|m: int| 0 <= m < self.entries@.len() && (#[trigger] self.entries@[m]).0@ == x,
    {
        assert forall|m: int| 0 <= m < self.entries@.len() implies self.view_map().dom().contains(#[trigger] self.entries@[m].0@) && self.view_map()[self.entries@[m].0@] == state_view(self.entries@[m].1) by {
            self.lemma_lookup(m);
        }
    }

    /// The run's current state; `None` for an unknown id.
    pub fn snapshot(&self, run_id: &str) -> (r: Option<RunState>)
        requires
            self.wf(),
        ensures
            match r {
                Some(s) => self.view_map().dom().contains(run_id@) && state_view(s) == self.view_map()[run_id@],
                None => !self.view_map().dom().contains(run_id@),
            },
    {
        match self.find(run_id) {
            Some(k) => {
                proof {
                    self.lemma_lookup(k as int);
                }
                Some(self.entries[k].1.copy())
            },
            None => None,
        }
    }
}

/// What is read back of a run is what was last written: after a publish
/// to a registered run, its snapshot is the published state; a freshly
/// registered run reads as running; other runs are untouched.
pub proof fn lemma_read_after_write(m: Map<Seq<char>, (int, Seq<char>)>, id: Seq<char>, other: Seq<char>, st: (int, Seq<char>))
    requires
        id != other,
    ensures
        m.insert(id, st)[id] == st,
        m.insert(id, st).dom().contains(other) == m.dom().contains(other),
        m.dom().contains(other) ==> m.insert(id, st)[other] == m[other],
{
}

/// `uuid::Uuid::new_v4` rendered with `to_string`: a random version-4 UUID
/// in the hyphenated lowercase form. The crate's formatting code makes it 36
/// characters, `-` at positions 8, 13, 18 and 23, the version digit `4` at
/// 14, lowercase hex digits elsewhere. Which digits come out is random and
/// is not stated.
#[verifier::external_body]
fn uuid_v4_text() -> (s: String)
    ensures
        s@.len() == 36,
        s@[8] == '-' && s@[13] == '-' && s@[18] == '-' && s@[23] == '-',
        s@[14] == '4',
        forall|i: int|
            0 <= i < 36 && i != 8 && i != 13 && i != 18 && i != 23 ==> ('0' <= #[trigger] s@[i] <= '9' || 'a'
                <= s@[i] <= 'f'),
{
    uuid::Uuid::new_v4().to_string()
}

/// Fresh run id: a random v4 UUID in its hyphenated lowercase form.
pub fn new_run_id() -> (s: String)
    ensures
        s@.len() == 36,
        s@[8] == '-' && s@[13] == '-' && s@[18] == '-' && s@[23] == '-',
        s@[14] == '4',
        forall|i: int|
            0 <= i < 36 && i != 8 && i != 13 && i != 18 && i != 23 ==> ('0' <= #[trigger] s@[i] <= '9' || 'a'
                <= s@[i] <= 'f'),
{
    uuid_v4_text()
}

} // verus!
