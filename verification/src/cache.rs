//! The flow-session cache: the authoritative in-memory state of active runs,
//! keyed by flow-session id.

use vstd::prelude::*;

verus! {

use crate::action::Task;
use crate::action::Workflow;

/// The in-memory state of one active flow session.
#[derive(Debug, Clone)]
pub struct FlowSessionData {
    pub workflow: Option<Workflow>,
    pub tasks: Vec<Task>,
    pub flow_session_id: u128,
    pub workflow_id: u128,
    pub workflow_version_id: Option<u128>,
}

/// The session stored under a key: the last entry for the key wins.
pub open spec fn cache_get(s: Seq<(u128, FlowSessionData)>, k: u128) -> Option<FlowSessionData>
    decreases s.len(),
{
    if s.len() == 0 {
        None
    } else if s.last().0 == k {
        Some(s.last().1)
    } else {
        cache_get(s.drop_last(), k)
    }
}

/// The task stored under a task id: the last entry for the id wins.
pub open spec fn task_get(ts: Seq<Task>, task_id: u128) -> Option<Task>
    decreases ts.len(),
{
    if ts.len() == 0 {
        None
    } else if ts.last().task_id == task_id {
        Some(ts.last())
    } else {
        task_get(ts.drop_last(), task_id)
    }
}

/// Removing an entry leaves every other key's value alone.
proof fn lemma_cache_get_remove_other(s: Seq<(u128, FlowSessionData)>, i: int, k: u128)
    requires
        0 <= i < s.len(),
        k != s[i].0,
    ensures
        cache_get(s.remove(i), k) == cache_get(s, k),
    decreases s.len(),
{
    if i == s.len() - 1 {
        assert(s.remove(i) =~= s.drop_last());
    } else {
        assert(s.remove(i).last() == s.last());
        assert(s.remove(i).drop_last() =~= s.drop_last().remove(i));
        lemma_cache_get_remove_other(s.drop_last(), i, k);
    }
}

/// Same two facts for tasks within a session.
proof fn lemma_task_get_remove_other(ts: Seq<Task>, i: int, k: u128)
    requires
        0 <= i < ts.len(),
        k != ts[i].task_id,
    ensures
        task_get(ts.remove(i), k) == task_get(ts, k),
    decreases ts.len(),
{
    if i == ts.len() - 1 {
        assert(ts.remove(i) =~= ts.drop_last());
    } else {
        assert(ts.remove(i).last() == ts.last());
        assert(ts.remove(i).drop_last() =~= ts.drop_last().remove(i));
        lemma_task_get_remove_other(ts.drop_last(), i, k);
    }
}

/// The sequence with its last entry for the id dropped (unchanged without
/// one): what replacing a task leaves of the old entries.
pub open spec fn remove_last_task(ts: Seq<Task>, task_id: u128) -> Seq<Task>
    decreases ts.len(),
{
    if ts.len() == 0 {
        ts
    } else if ts.last().task_id == task_id {
        ts.drop_last()
    } else {
        remove_last_task(ts.drop_last(), task_id).push(ts.last())
    }
}

/// Removing at the position of the last entry for the id is what
/// `remove_last_task` says.
proof fn lemma_remove_last_task_at(ts: Seq<Task>, i: int)
    requires
        0 <= i < ts.len(),
        forall|j: int| i < j < ts.len() ==> (#[trigger] ts[j]).task_id != ts[i].task_id,
    ensures
        remove_last_task(ts, ts[i].task_id) == ts.remove(i),
    decreases ts.len(),
{
    if i == ts.len() - 1 {
        assert(ts.remove(i) =~= ts.drop_last());
    } else {
        assert(ts.drop_last()[i] == ts[i]);
        lemma_remove_last_task_at(ts.drop_last(), i);
        assert(ts.remove(i).drop_last() =~= ts.drop_last().remove(i));
        assert(ts.remove(i).last() == ts.last());
        assert(remove_last_task(ts, ts[i].task_id) =~= ts.remove(i));
    }
}

/// Without an entry for the id, nothing is removed.
proof fn lemma_remove_last_task_absent(ts: Seq<Task>, task_id: u128)
    requires
        forall|j: int| 0 <= j < ts.len() ==> (#[trigger] ts[j]).task_id != task_id,
    ensures
        remove_last_task(ts, task_id) == ts,
    decreases ts.len(),
{
    if ts.len() > 0 {
        lemma_remove_last_task_absent(ts.drop_last(), task_id);
        assert(ts.drop_last().push(ts.last()) =~= ts);
    }
}

/// Holds per-session data for every active flow session.
pub struct FlowSessionCache {
    sessions: Vec<(u128, FlowSessionData)>,
}

impl View for FlowSessionCache {
    type V = Seq<(u128, FlowSessionData)>;

    closed spec fn view(&self) -> Seq<(u128, FlowSessionData)> {
        self.sessions@
    }
}

impl FlowSessionCache {
    pub fn new() -> (r: FlowSessionCache)
        ensures
            forall|k: u128| cache_get(r@, k) is None,
    {
        let r = FlowSessionCache { sessions: Vec::new() };
        proof {
            assert(r@ =~= Seq::<(u128, FlowSessionData)>::empty());
        }
        r
    }

    /// The index of the entry a key looks up to, if the key is present.
    #[verifier::loop_isolation(false)]
    fn index_of(&self, id: u128) -> (r: Option<usize>)
        ensures
            match r {
                Some(i) => i < self@.len() && self@[i as int].0 == id && cache_get(self@, id)
                    == Some(self@[i as int].1) && forall|j: int|
                    i < j < self@.len() ==> (#[trigger] self@[j].0) != id,
                None => cache_get(self@, id) is None,
            },
    {
        let mut i: usize = self.sessions.len();
        proof {
            assert(self.sessions@.subrange(0, i as int) =~= self.sessions@);
        }
        while i > 0
            invariant
                i <= self.sessions@.len(),
                cache_get(self@, id) == cache_get(self.sessions@.subrange(0, i as int), id),
                forall|j: int| i <= j < self@.len() ==> (#[trigger] self@[j].0) != id,
            decreases i,
        {
            i = i - 1;
            proof {
                let t = self.sessions@.subrange(0, i as int + 1);
                assert(t.drop_last() =~= self.sessions@.subrange(0, i as int));
                assert(t.last() == self.sessions@[i as int]);
            }
            if self.sessions[i].0 == id {
                return Some(i);
            }
        }
        proof {
            assert(self.sessions@.subrange(0, 0) =~= Seq::<(u128, FlowSessionData)>::empty());
        }
        None
    }

    /// The session stored for an id.
    pub fn get(&self, id: u128) -> (r: Option<&FlowSessionData>)
        ensures
            match r {
                Some(d) => cache_get(self@, id) == Some(*d),
                None => cache_get(self@, id) is None,
            },
    {
        match self.index_of(id) {
            Some(i) => Some(&self.sessions[i].1),
            None => None,
        }
    }

    /// Stores a session under an id, replacing what the id held.
    pub fn set(&mut self, id: u128, data: FlowSessionData)
        ensures
            cache_get(final(self)@, id) == Some(data),
            forall|k: u128|
                k != id ==> #[trigger] cache_get(final(self)@, k) == cache_get(old(self)@, k),
    {
        match self.index_of(id) {
            Some(i) => {
                let _ = self.sessions.remove(i);
                proof {
                    assert forall|k: u128|
                        k != id implies #[trigger] cache_get(self.sessions@, k) == cache_get(
                        old(self)@,
                        k,
                    ) by {
                        lemma_cache_get_remove_other(old(self)@, i as int, k);
                    }
                }
            },
            None => {},
        }
        let ghost mid = self.sessions@;
        self.sessions.push((id, data));
        proof {
            assert(self.sessions@.drop_last() =~= mid);
            assert(self.sessions@.last() == (id, data));
            assert forall|k: u128|
                k != id implies #[trigger] cache_get(self.sessions@, k) == cache_get(
                old(self)@,
                k,
            ) by {
                assert(cache_get(self.sessions@, k) == cache_get(mid, k));
            }
        }
    }

    /// Seeds a session only where the id holds nothing yet: creation is
    /// idempotent, the first population stands and later ones are skipped.
    pub fn set_if_absent(&mut self, id: u128, data: FlowSessionData) -> (b: bool)
        ensures
            b == (cache_get(old(self)@, id) is None),
            !b ==> final(self)@ == old(self)@,
            b ==> cache_get(final(self)@, id) == Some(data),
            b ==> forall|k: u128|
                k != id ==> #[trigger] cache_get(final(self)@, k) == cache_get(old(self)@, k),
    {
        match self.index_of(id) {
            Some(_) => false,
            None => {
                let ghost mid = self.sessions@;
                self.sessions.push((id, data));
                proof {
                    assert(self.sessions@.drop_last() =~= mid);
                    assert(self.sessions@.last() == (id, data));
                    assert forall|k: u128|
                        k != id implies #[trigger] cache_get(self.sessions@, k) == cache_get(
                        old(self)@,
                        k,
                    ) by {
                        assert(cache_get(self.sessions@, k) == cache_get(mid, k));
                    }
                }
                true
            },
        }
    }

    /// Drops whatever the id held.
    #[verifier::loop_isolation(false)]
    pub fn invalidate(&mut self, id: u128)
        ensures
            cache_get(final(self)@, id) is None,
            forall|k: u128|
                k != id ==> #[trigger] cache_get(final(self)@, k) == cache_get(old(self)@, k),
    {
        loop
            invariant
                forall|k: u128|
                    k != id ==> #[trigger] cache_get(self@, k) == cache_get(old(self)@, k),
            decreases self.sessions@.len(),
        {
            let ghost pre = self.sessions@;
            match self.index_of(id) {
                Some(i) => {
                    let _ = self.sessions.remove(i);
                    proof {
                        assert forall|k: u128|
                            k != id implies #[trigger] cache_get(self.sessions@, k) == cache_get(
                            pre,
                            k,
                        ) by {
                            lemma_cache_get_remove_other(pre, i as int, k);
                        }
                    }
                },
                None => {
                    return ;
                },
            }
        }
    }

    /// Adds a task to the session's map, saying whether the session existed.
    pub fn add_task(&mut self, id: u128, task: Task) -> (b: bool)
        ensures
            b == (cache_get(old(self)@, id) is Some),
            !b ==> final(self)@ == old(self)@,
            b ==> (cache_get(final(self)@, id) matches Some(nd) && {
                let od = cache_get(old(self)@, id)->Some_0;
                nd.tasks@ == od.tasks@.push(task) && nd.workflow == od.workflow
                    && nd.flow_session_id == od.flow_session_id && nd.workflow_id == od.workflow_id
                    && nd.workflow_version_id == od.workflow_version_id
            }),
            b ==> forall|k: u128|
                k != id ==> #[trigger] cache_get(final(self)@, k) == cache_get(old(self)@, k),
    {
        match self.index_of(id) {
            Some(i) => {
                let mut entry = self.sessions.remove(i);
                proof {
                    assert forall|k: u128|
                        k != id implies #[trigger] cache_get(self.sessions@, k) == cache_get(
                        old(self)@,
                        k,
                    ) by {
                        lemma_cache_get_remove_other(old(self)@, i as int, k);
                    }
                }
                let ghost old_tasks = entry.1.tasks@;
                entry.1.tasks.push(task);
                proof {
                    assert(entry.1.tasks@.drop_last() =~= old_tasks);
                }
                let ghost ge = entry;
                let ghost mid = self.sessions@;
                self.sessions.push(entry);
                proof {
                    assert(self.sessions@.drop_last() =~= mid);
                    assert(self.sessions@.last() == ge);
                    assert(ge.0 == id);
                    assert(cache_get(self.sessions@, id) == Some(ge.1));
                    assert(ge.1.tasks@ == cache_get(old(self)@, id)->Some_0.tasks@.push(task));
                    assert forall|k: u128|
                        k != id implies #[trigger] cache_get(self.sessions@, k) == cache_get(
                        old(self)@,
                        k,
                    ) by {
                        assert(cache_get(self.sessions@, k) == cache_get(mid, k));
                    }
                }
                true
            },
            None => false,
        }
    }

    /// Replaces (or inserts) a task in the session's map by its task id,
    /// saying whether the session existed.
    #[verifier::loop_isolation(false)]
    pub fn update_task(&mut self, id: u128, task: Task) -> (b: bool)
        ensures
            b == (cache_get(old(self)@, id) is Some),
            !b ==> final(self)@ == old(self)@,
            b ==> (cache_get(final(self)@, id) matches Some(nd) && {
                let od = cache_get(old(self)@, id)->Some_0;
                nd.tasks@ == remove_last_task(od.tasks@, task.task_id).push(task) && task_get(
                    nd.tasks@,
                    task.task_id,
                ) == Some(task) && (forall|t2: u128|
                    t2 != task.task_id ==> #[trigger] task_get(nd.tasks@, t2) == task_get(
                        od.tasks@,
                        t2,
                    )) && nd.workflow == od.workflow && nd.flow_session_id == od.flow_session_id
                    && nd.workflow_id == od.workflow_id && nd.workflow_version_id
                    == od.workflow_version_id
            }),
            b ==> forall|k: u128|
                k != id ==> #[trigger] cache_get(final(self)@, k) == cache_get(old(self)@, k),
    {
        match self.index_of(id) {
            Some(i) => {
                let mut entry = self.sessions.remove(i);
                proof {
                    assert forall|k: u128|
                        k != id implies #[trigger] cache_get(self.sessions@, k) == cache_get(
                        old(self)@,
                        k,
                    ) by {
                        lemma_cache_get_remove_other(old(self)@, i as int, k);
                    }
                }
                let ghost old_tasks = entry.1.tasks@;
                match task_index_of(&entry.1.tasks, task.task_id) {
                    Some(j) => {
                        let _ = entry.1.tasks.remove(j);
                        proof {
                            lemma_remove_last_task_at(old_tasks, j as int);
                            assert(entry.1.tasks@ == remove_last_task(old_tasks, task.task_id));
                            assert forall|t2: u128|
                                t2 != task.task_id implies #[trigger] task_get(
                                entry.1.tasks@,
                                t2,
                            ) == task_get(old_tasks, t2) by {
                                lemma_task_get_remove_other(old_tasks, j as int, t2);
                            }
                        }
                    },
                    None => {
                        proof {
                            lemma_remove_last_task_absent(old_tasks, task.task_id);
                        }
                    },
                }
                let ghost mid_tasks = entry.1.tasks@;
                entry.1.tasks.push(task);
                proof {
                    assert(entry.1.tasks@.drop_last() =~= mid_tasks);
                    assert(entry.1.tasks@.last() == task);
                    assert(task_get(entry.1.tasks@, task.task_id) == Some(task));
                    assert forall|t2: u128|
                        t2 != task.task_id implies #[trigger] task_get(entry.1.tasks@, t2)
                        == task_get(old_tasks, t2) by {
                        assert(task_get(entry.1.tasks@, t2) == task_get(mid_tasks, t2));
                    }
                }
                let ghost ge = entry;
                let ghost mid = self.sessions@;
                self.sessions.push(entry);
                proof {
                    assert(self.sessions@.drop_last() =~= mid);
                    assert(self.sessions@.last() == ge);
                    assert(ge.0 == id);
                    assert(cache_get(self.sessions@, id) == Some(ge.1));
                    assert forall|k: u128|
                        k != id implies #[trigger] cache_get(self.sessions@, k) == cache_get(
                        old(self)@,
                        k,
                    ) by {
                        assert(cache_get(self.sessions@, k) == cache_get(mid, k));
                    }
                }
                true
            },
            None => false,
        }
    }
}

/// After removing the entry a key looks up to, the key is absent, provided no
/// earlier entry carries it either.
proof fn lemma_cache_get_none_after_remove(s: Seq<(u128, FlowSessionData)>, i: int)
    requires
        0 <= i < s.len(),
        forall|j: int| 0 <= j < s.len() && j != i ==> (#[trigger] s[j].0) != s[i].0,
    ensures
        cache_get(s.remove(i), s[i].0) is None,
    decreases s.len(),
{
    if s.len() == 1 {
        assert(s.remove(i) =~= Seq::<(u128, FlowSessionData)>::empty());
    } else if i == s.len() - 1 {
        assert(s.remove(i) =~= s.drop_last());
        lemma_cache_get_absent(s.drop_last(), s[i].0);
    } else {
        assert(s.remove(i).last() == s.last());
        assert(s.remove(i).drop_last() =~= s.drop_last().remove(i));
        assert(forall|j: int|
            0 <= j < s.drop_last().len() && j != i ==> (#[trigger] s.drop_last()[j].0) != s
                .drop_last()[i].0);
        lemma_cache_get_none_after_remove(s.drop_last(), i);
    }
}

/// A key that no entry carries looks up to nothing.
proof fn lemma_cache_get_absent(s: Seq<(u128, FlowSessionData)>, k: u128)
    requires
        forall|j: int| 0 <= j < s.len() ==> (#[trigger] s[j].0) != k,
    ensures
        cache_get(s, k) is None,
    decreases s.len(),
{
    if s.len() > 0 {
        lemma_cache_get_absent(s.drop_last(), k);
    }
}

/// The index of the task an id looks up to, if present.
#[verifier::loop_isolation(false)]
fn task_index_of(ts: &Vec<Task>, task_id: u128) -> (r: Option<usize>)
    ensures
        match r {
            Some(i) => i < ts@.len() && ts@[i as int].task_id == task_id && forall|j: int|
                i < j < ts@.len() ==> (#[trigger] ts@[j]).task_id != task_id,
            None => task_get(ts@, task_id) is None && forall|j: int|
                0 <= j < ts@.len() ==> (#[trigger] ts@[j]).task_id != task_id,
        },
{
    let mut i: usize = ts.len();
    proof {
        assert(ts@.subrange(0, i as int) =~= ts@);
    }
    while i > 0
        invariant
            i <= ts@.len(),
            task_get(ts@, task_id) == task_get(ts@.subrange(0, i as int), task_id),
            forall|j: int| i <= j < ts@.len() ==> (#[trigger] ts@[j]).task_id != task_id,
        decreases i,
    {
        i = i - 1;
        proof {
            let t = ts@.subrange(0, i as int + 1);
            assert(t.drop_last() =~= ts@.subrange(0, i as int));
            assert(t.last() == ts@[i as int]);
        }
        if ts[i].task_id == task_id {
            return Some(i);
        }
    }
    proof {
        assert(ts@.subrange(0, 0) =~= Seq::<Task>::empty());
    }
    None
}

} // verus!
