//! The processor: admission of flow-session runs under a duplicate guard and
//! a global concurrency bound, and the decisions of one session's task loop.
//! The outside work — receiving messages, persisting rows, executing plugins,
//! waiting on the semaphore — is done by the caller, which feeds the results
//! back into these functions.

use vstd::prelude::*;

verus! {

use crate::action::Action;
use crate::action::ActionType;
use crate::action::CreateTaskInput;
use crate::action::RunStatus;
use crate::action::Stage;
use crate::action::Task;
use crate::action::TaskConfig;
use crate::action::Workflow;
use crate::cache::FlowSessionCache;
use crate::cache::cache_get;
use crate::cache::task_get;
use crate::cache::remove_last_task;
use crate::walker::actions_view;
use crate::walker::edges_view;
use crate::walker::neighbors_of;
use crate::walker::select_next;
use crate::walker::next_action;

/// A request to run a workflow, as the inbound channel delivers it.
#[derive(Debug, Clone)]
pub struct ProcessorMessage {
    pub workflow_id: u128,
    pub version_id: Option<u128>,
    pub flow_session_id: u128,
    pub trigger_task: Option<CreateTaskInput>,
}

// ---------- admission and the concurrency bound ----------

/// What admission does to the active-session set: a session already present
/// is turned away, a new one is recorded.
pub open spec fn accept_spec(active: Seq<u128>, sid: u128) -> (Seq<u128>, bool) {
    if active.contains(sid) {
        (active, false)
    } else {
        (active.push(sid), true)
    }
}

/// Guards the processor: at most one worker per flow session, and no more
/// running workers than the concurrency bound allows.
pub struct Dispatcher {
    active: Vec<u128>,
    capacity: usize,
    running: usize,
}

impl Dispatcher {
    /// The flow sessions with an active worker.
    pub closed spec fn active_sessions(&self) -> Seq<u128> {
        self.active@
    }

    /// How many workers hold a permit.
    pub closed spec fn running_workers(&self) -> int {
        self.running as int
    }

    /// The concurrency bound the dispatcher was made with.
    pub closed spec fn bound(&self) -> int {
        self.capacity as int
    }

    /// The dispatcher never hands out more permits than its bound.
    pub open spec fn wf(&self) -> bool {
        self.running_workers() <= self.bound()
    }

    pub fn new(max_concurrent_workflows: usize) -> (r: Dispatcher)
        ensures
            r.wf(),
            r.active_sessions() == Seq::<u128>::empty(),
            r.running_workers() == 0,
            r.bound() == max_concurrent_workflows,
    {
        let r = Dispatcher { active: Vec::new(), capacity: max_concurrent_workflows, running: 0 };
        proof {
            assert(r.active_sessions() =~= Seq::<u128>::empty());
        }
        r
    }

    /// Admission: records the flow session unless it is already being
    /// processed, in which case the message is to be discarded.
    #[verifier::loop_isolation(false)]
    pub fn accept(&mut self, flow_session_id: u128) -> (b: bool)
        ensures
            (final(self).active_sessions(), b) == accept_spec(
                old(self).active_sessions(),
                flow_session_id,
            ),
            final(self).running_workers() == old(self).running_workers(),
            final(self).bound() == old(self).bound(),
            old(self).wf() ==> final(self).wf(),
    {
        let mut i: usize = 0;
        while i < self.active.len()
            invariant
                i <= self.active@.len(),
                forall|j: int| 0 <= j < i ==> self.active@[j] != flow_session_id,
            decreases self.active@.len() - i,
        {
            if self.active[i] == flow_session_id {
                return false;
            }
            i = i + 1;
        }
        proof {
            assert(!self.active@.contains(flow_session_id));
        }
        self.active.push(flow_session_id);
        true
    }

    /// How many workers hold a permit right now.
    pub fn running(&self) -> (r: usize)
        ensures
            r as int == self.running_workers(),
    {
        self.running
    }

    /// Takes one permit if the bound leaves room; the caller waits and tries
    /// again when it does not.
    pub fn try_acquire(&mut self) -> (b: bool)
        ensures
            b == (old(self).running_workers() < old(self).bound()),
            b ==> final(self).running_workers() == old(self).running_workers() + 1,
            !b ==> final(self).running_workers() == old(self).running_workers(),
            final(self).active_sessions() == old(self).active_sessions(),
            final(self).bound() == old(self).bound(),
            old(self).wf() ==> final(self).wf(),
    {
        if self.running < self.capacity {
            self.running = self.running + 1;
            true
        } else {
            false
        }
    }

    /// Returns a worker's permit.
    pub fn release(&mut self)
        requires
            old(self).running_workers() > 0,
        ensures
            final(self).running_workers() == old(self).running_workers() - 1,
            final(self).active_sessions() == old(self).active_sessions(),
            final(self).bound() == old(self).bound(),
            old(self).wf() ==> final(self).wf(),
    {
        self.running = self.running - 1;
    }

    /// Removes a finished flow session from the active set.
    #[verifier::loop_isolation(false)]
    pub fn finish(&mut self, flow_session_id: u128)
        ensures
            !final(self).active_sessions().contains(flow_session_id),
            forall|x: u128|
                x != flow_session_id ==> (final(self).active_sessions().contains(x) <==> old(
                    self,
                ).active_sessions().contains(x)),
            final(self).running_workers() == old(self).running_workers(),
            final(self).bound() == old(self).bound(),
            old(self).wf() ==> final(self).wf(),
    {
        let mut kept: Vec<u128> = Vec::new();
        let mut i: usize = 0;
        proof {
            assert(forall|x: u128| !kept@.contains(x));
        }
        while i < self.active.len()
            invariant
                i <= self.active@.len(),
                !kept@.contains(flow_session_id),
                forall|x: u128|
                    x != flow_session_id ==> (kept@.contains(x) <==> self.active@.subrange(
                        0,
                        i as int,
                    ).contains(x)),
            decreases self.active@.len() - i,
        {
            let ghost pre = self.active@.subrange(0, i as int);
            let ghost cur = self.active@.subrange(0, i as int + 1);
            proof {
                assert(cur.drop_last() =~= pre);
                assert(cur.last() == self.active@[i as int]);
                assert forall|x: u128| cur.contains(x) <==> pre.contains(x) || x == cur.last() by {
                    if cur.contains(x) {
                        let j = choose|j: int| 0 <= j < cur.len() && cur[j] == x;
                        if j < cur.len() - 1 {
                            assert(pre[j] == x);
                        }
                    }
                    if pre.contains(x) {
                        let j = choose|j: int| 0 <= j < pre.len() && pre[j] == x;
                        assert(cur[j] == x);
                    }
                    if x == cur.last() {
                        assert(cur[cur.len() - 1] == x);
                    }
                }
            }
            let ghost k0 = kept@;
            if self.active[i] != flow_session_id {
                kept.push(self.active[i]);
                proof {
                    assert forall|x: u128| kept@.contains(x) <==> k0.contains(x) || x == self
                        .active@[i as int] by {
                        if kept@.contains(x) {
                            let j = choose|j: int| 0 <= j < kept@.len() && kept@[j] == x;
                            if j < kept@.len() - 1 {
                                assert(k0[j] == x);
                            }
                        }
                        if k0.contains(x) {
                            let j = choose|j: int| 0 <= j < k0.len() && k0[j] == x;
                            assert(kept@[j] == x);
                        }
                        if x == self.active@[i as int] {
                            assert(kept@[kept@.len() - 1] == x);
                        }
                    }
                }
            }
            else {
                proof {
                    assert(kept@ == k0);
                }
            }
            proof {
                assert forall|x: u128|
                    x != flow_session_id implies (kept@.contains(x) <==> cur.contains(x)) by {
                    assert(k0.contains(x) <==> pre.contains(x));
                    assert(cur.contains(x) <==> pre.contains(x) || x == cur.last());
                }
                assert(!kept@.contains(flow_session_id));
            }
            i = i + 1;
        }
        proof {
            assert(self.active@.subrange(0, i as int) =~= self.active@);
        }
        self.active = kept;
    }
}

// ---------- laws of admission and the bound ----------

/// The same flow session delivered twice produces exactly one admission: the
/// second delivery is turned away, and the active set is unchanged by it.
pub proof fn lemma_duplicate_admission(active: Seq<u128>, sid: u128)
    ensures
        accept_spec(accept_spec(active, sid).0, sid).1 == false,
        accept_spec(accept_spec(active, sid).0, sid).0 == accept_spec(active, sid).0,
{
    let once = accept_spec(active, sid).0;
    if active.contains(sid) {
    } else {
        assert(once[once.len() - 1] == sid);
        assert(once.contains(sid));
    }
}

/// One step of the dispatcher's life, as the processor drives it.
pub ghost enum DispatcherOp {
    Admit(u128),
    Acquire,
    Release,
    Finish(u128),
}

/// The running-worker count after one step, never passing the bound and
/// never dropping under zero.
pub open spec fn running_after(running: int, bound: int, op: DispatcherOp) -> int {
    match op {
        DispatcherOp::Acquire => if running < bound {
            running + 1
        } else {
            running
        },
        DispatcherOp::Release => if running > 0 {
            running - 1
        } else {
            running
        },
        _ => running,
    }
}

pub open spec fn running_after_ops(running: int, bound: int, ops: Seq<DispatcherOp>) -> int
    decreases ops.len(),
{
    if ops.len() == 0 {
        running
    } else {
        running_after(running_after_ops(running, bound, ops.drop_last()), bound, ops.last())
    }
}

/// However the processor interleaves admissions, permits and completions, no
/// more workers run at once than the bound allows.
pub proof fn lemma_workers_bounded(bound: int, ops: Seq<DispatcherOp>)
    requires
        bound >= 0,
    ensures
        0 <= running_after_ops(0, bound, ops) <= bound,
    decreases ops.len(),
{
    if ops.len() > 0 {
        lemma_workers_bounded(bound, ops.drop_last());
    }
}

// ---------- one session's task loop ----------

/// The first action of type `trigger`, which starts the session.
pub open spec fn trigger_index(actions: Seq<Action>) -> Option<int> {
    if exists|i: int|
        0 <= i < actions.len() && (#[trigger] actions[i]).action_type == ActionType::Trigger {
        Some(
            choose|i: int|
                0 <= i < actions.len() && (#[trigger] actions[i]).action_type
                    == ActionType::Trigger && forall|j: int|
                    0 <= j < i ==> (#[trigger] actions[j]).action_type != ActionType::Trigger,
        )
    } else {
        None
    }
}

/// The first action of type `trigger`, if the workflow has one.
#[verifier::loop_isolation(false)]
pub fn get_trigger_node(actions: &Vec<Action>) -> (r: Option<&Action>)
    ensures
        match r {
            Some(a) => exists|i: int|
                0 <= i < actions@.len() && (#[trigger] actions@[i])@ == a@ && actions@[i].action_type
                    == ActionType::Trigger,
            None => forall|i: int|
                0 <= i < actions@.len() ==> (#[trigger] actions@[i]).action_type
                    != ActionType::Trigger,
        },
{
    let mut i: usize = 0;
    while i < actions.len()
        invariant
            i <= actions@.len(),
            forall|j: int|
                0 <= j < i ==> (#[trigger] actions@[j]).action_type != ActionType::Trigger,
        decreases actions@.len() - i,
    {
        if matches!(actions[i].action_type, ActionType::Trigger) {
            return Some(&actions[i]);
        }
        i = i + 1;
    }
    None
}

/// What a new task's row asks for, synthesized from an action of the
/// workflow: status `running`, the action's template pair as its config.
pub fn make_task_input(
    workflow: &Workflow,
    action: &Action,
    processing_order: u64,
    flow_session_id: u128,
    trigger_session_id: u128,
    trigger_session_status: RunStatus,
    flow_session_status: RunStatus,
    now: i64,
) -> (r: CreateTaskInput)
    ensures
        r.account_id == workflow.account_id,
        r.processing_order == processing_order,
        r.task_status == RunStatus::Running,
        r.flow_id == workflow.workflow_id,
        r.flow_version_id == workflow.flow_version_id,
        r.action_label@ == action@.label,
        r.trigger_id@ == action@.action_id,
        r.trigger_session_id == trigger_session_id,
        r.trigger_session_status == trigger_session_status,
        r.flow_session_id == flow_session_id,
        r.flow_session_status == flow_session_status,
        r.action_id@ == action@.action_id,
        r.action_type == action.action_type,
        r.plugin_id@ == action@.plugin_id,
        r.stage == (if workflow.published {
            Stage::Production
        } else {
            Stage::Testing
        }),
        r.config@.variables == action@.variables,
        r.config@.input == action@.input,
        r.started_at == now,
{
    CreateTaskInput {
        account_id: workflow.account_id,
        processing_order,
        task_status: RunStatus::Running,
        flow_id: workflow.workflow_id,
        flow_version_id: workflow.flow_version_id,
        action_label: action.label.clone(),
        trigger_id: action.action_id.clone(),
        trigger_session_id,
        trigger_session_status,
        flow_session_id,
        flow_session_status,
        action_id: action.action_id.clone(),
        action_type: action.action_type,
        plugin_id: action.plugin_id.clone(),
        stage: Stage::from_published(workflow.published),
        config: TaskConfig {
            variables: action.variables.clone(),
            input: action.input.clone(),
        },
        started_at: now,
    }
}

// ---------- task lifecycle ----------

/// A completed task: status `completed`, the plugin's value as its result,
/// the clock as its end; everything else kept.
pub fn complete_task(task: &Task, result: crate::json::Json, now: i64) -> (r: Task)
    ensures
        r@ == (crate::action::TaskV {
            task_status: RunStatus::Completed,
            result: Some(result@),
            ended_at: Some(now),
            ..task@
        }),
        r.result_matches_status(),
{
    let mut r = task.clone();
    r.task_status = RunStatus::Completed;
    r.result = Some(result);
    r.ended_at = Some(now);
    r
}

/// A failed task: status `failed`, the plugin's error as its result, the
/// clock as its end; everything else kept.
pub fn fail_task(task: &Task, error: crate::json::Json, now: i64) -> (r: Task)
    ensures
        r@ == (crate::action::TaskV {
            task_status: RunStatus::Failed,
            result: Some(error@),
            ended_at: Some(now),
            ..task@
        }),
        r.result_matches_status(),
{
    let mut r = task.clone();
    r.task_status = RunStatus::Failed;
    r.result = Some(error);
    r.ended_at = Some(now);
    r
}

// ---------- the session run ----------

/// The in-memory state a worker keeps while it walks one flow session, with
/// a ghost record of every processing order it has handed out.
pub struct SessionRun {
    pub workflow: Workflow,
    pub flow_session_id: u128,
    pub trigger_session_id: u128,
    pub next_processing_order: u64,
    pub current: Option<Task>,
    pub handed_out: Ghost<Seq<u64>>,
}

impl SessionRun {
    /// The processing orders a session hands out are exactly the count so
    /// far: the k-th task created gets order k.
    pub open spec fn wf(&self) -> bool {
        self.next_processing_order == self.handed_out@.len() && forall|i: int|
            0 <= i < self.handed_out@.len() ==> #[trigger] self.handed_out@[i] == i
    }

    /// A fresh run, about to create its trigger task with order zero.
    pub fn new(workflow: Workflow, flow_session_id: u128, trigger_session_id: u128) -> (r:
        SessionRun)
        ensures
            r.wf(),
            r.workflow == workflow,
            r.flow_session_id == flow_session_id,
            r.trigger_session_id == trigger_session_id,
            r.next_processing_order == 0,
            r.current is None,
    {
        SessionRun {
            workflow,
            flow_session_id,
            trigger_session_id,
            next_processing_order: 0,
            current: None,
            handed_out: Ghost(Seq::empty()),
        }
    }

    /// The row to ask for next, for a given action: it takes the session's
    /// next processing order, which no earlier task of this run carries.
    pub fn make_next_task(&mut self, action: &Action, now: i64) -> (r: CreateTaskInput)
        requires
            old(self).wf(),
            old(self).next_processing_order < u64::MAX,
        ensures
            final(self).wf(),
            r.processing_order == old(self).next_processing_order,
            final(self).next_processing_order == old(self).next_processing_order + 1,
            final(self).handed_out@ == old(self).handed_out@.push(r.processing_order),
            forall|i: int|
                0 <= i < old(self).handed_out@.len() ==> #[trigger] old(self).handed_out@[i]
                    < r.processing_order,
            r.task_status == RunStatus::Running,
            r.account_id == old(self).workflow.account_id,
            r.flow_id == old(self).workflow.workflow_id,
            r.flow_version_id == old(self).workflow.flow_version_id,
            r.action_id@ == action@.action_id,
            r.action_label@ == action@.label,
            r.trigger_id@ == action@.action_id,
            r.action_type == action.action_type,
            r.plugin_id@ == action@.plugin_id,
            r.trigger_session_id == old(self).trigger_session_id,
            r.trigger_session_status == (if old(self).next_processing_order == 0 {
                RunStatus::Running
            } else {
                RunStatus::Pending
            }),
            r.flow_session_status == (if old(self).next_processing_order == 0 {
                RunStatus::Running
            } else {
                RunStatus::Pending
            }),
            r.stage == (if old(self).workflow.published {
                Stage::Production
            } else {
                Stage::Testing
            }),
            r.flow_session_id == old(self).flow_session_id,
            r.config@.variables == action@.variables,
            r.config@.input == action@.input,
            r.started_at == now,
            final(self).workflow == old(self).workflow,
            final(self).flow_session_id == old(self).flow_session_id,
            final(self).trigger_session_id == old(self).trigger_session_id,
            final(self).current == old(self).current,
    {
        let order = self.next_processing_order;
        let sid = self.flow_session_id;
        let tsid = self.trigger_session_id;
        let (tstat, fstat) = if order == 0 {
            (RunStatus::Running, RunStatus::Running)
        } else {
            (RunStatus::Pending, RunStatus::Pending)
        };
        let r = make_task_input(&self.workflow, action, order, sid, tsid, tstat, fstat, now);
        self.next_processing_order = order + 1;
        proof {
            self.handed_out@ = self.handed_out@.push(order);
        }
        r
    }

    /// Records a trigger task that arrived with the message instead of being
    /// synthesized: it must carry this session's next processing order, which
    /// the run then passes over, so every later task stays strictly above it.
    pub fn adopt_trigger_task(&mut self, input: &CreateTaskInput)
        requires
            old(self).wf(),
            old(self).next_processing_order < u64::MAX,
            input.processing_order == old(self).next_processing_order,
        ensures
            final(self).wf(),
            final(self).next_processing_order == old(self).next_processing_order + 1,
            final(self).handed_out@ == old(self).handed_out@.push(input.processing_order),
            final(self).workflow == old(self).workflow,
            final(self).flow_session_id == old(self).flow_session_id,
            final(self).trigger_session_id == old(self).trigger_session_id,
            final(self).current == old(self).current,
    {
        self.next_processing_order = self.next_processing_order + 1;
        proof {
            self.handed_out@ = self.handed_out@.push(input.processing_order);
        }
    }
}

/// On completion or failure, a worker leaves nothing behind: the session is
/// gone from the cache, gone from the active set, and its permit is back.
pub fn worker_cleanup(
    dispatcher: &mut Dispatcher,
    cache: &mut FlowSessionCache,
    flow_session_id: u128,
)
    requires
        old(dispatcher).running_workers() > 0,
    ensures
        (cache_get(final(cache)@, flow_session_id) is None),
        !final(dispatcher).active_sessions().contains(flow_session_id),
        final(dispatcher).running_workers() == old(dispatcher).running_workers() - 1,
        forall|k: u128|
            k != flow_session_id ==> #[trigger] cache_get(final(cache)@, k) == cache_get(
                old(cache)@,
                k,
            ),
        forall|x: u128|
            x != flow_session_id ==> (final(dispatcher).active_sessions().contains(x) <==> old(
                dispatcher,
            ).active_sessions().contains(x)),
        old(dispatcher).wf() ==> final(dispatcher).wf(),
{
    cache.invalidate(flow_session_id);
    dispatcher.finish(flow_session_id);
    dispatcher.release();
}


/// Records a plugin success: the cache's copy of the task is completed with
/// the plugin's value, and the walker picks what runs next over the session's
/// tasks as they then stand.  A next action yields the row to create, with
/// this session's next processing order; no next action means the workflow
/// is complete.
pub fn on_task_success(
    run: &mut SessionRun,
    cache: &mut FlowSessionCache,
    task: &Task,
    result: crate::json::Json,
    now: i64,
) -> (r: Option<CreateTaskInput>)
    requires
        old(run).wf(),
        old(run).next_processing_order < u64::MAX,
    ensures
        final(run).wf(),
        final(run).flow_session_id == old(run).flow_session_id,
        final(run).workflow == old(run).workflow,
        forall|k: u128|
            k != old(run).flow_session_id ==> #[trigger] cache_get(final(cache)@, k) == cache_get(
                old(cache)@,
                k,
            ),
        match cache_get(old(cache)@, old(run).flow_session_id) {
            None => r is None && final(cache)@ == old(cache)@ && *final(run) == *old(run),
            Some(od) => (cache_get(final(cache)@, old(run).flow_session_id) matches Some(nd) && {
                let done = (crate::action::TaskV {
                    task_status: RunStatus::Completed,
                    result: Some(result@),
                    ended_at: Some(now),
                    ..task@
                });
                &&& nd.tasks@.len() == remove_last_task(od.tasks@, task.task_id).len() + 1
                &&& nd.tasks@ == remove_last_task(od.tasks@, task.task_id).push(nd.tasks@.last())
                &&& nd.tasks@.last()@ == done
                &&& (task_get(nd.tasks@, task.task_id) matches Some(ct) && ct@ == done)
                &&& (forall|t2: u128|
                    t2 != task.task_id ==> #[trigger] task_get(nd.tasks@, t2) == task_get(
                        od.tasks@,
                        t2,
                    ))
                &&& match select_next(
                    actions_view(old(run).workflow.actions@),
                    neighbors_of(edges_view(old(run).workflow.edges@), task.action_id@),
                    nd.tasks@,
                ) {
                    Some(a) => (r matches Some(inp) && inp.action_id@ == a.action_id
                        && inp.processing_order == old(run).next_processing_order && inp.task_status
                        == RunStatus::Running && inp.flow_session_id == old(run).flow_session_id
                        && inp.account_id == old(run).workflow.account_id && inp.flow_id == old(
                        run,
                    ).workflow.workflow_id && inp.flow_version_id == old(
                        run,
                    ).workflow.flow_version_id && inp.action_label@ == a.label && inp.trigger_id@
                        == a.action_id && inp.action_type == a.action_type && inp.plugin_id@
                        == a.plugin_id && inp.trigger_session_id == old(run).trigger_session_id
                        && inp.trigger_session_status == (if old(run).next_processing_order == 0 {
                        RunStatus::Running
                    } else {
                        RunStatus::Pending
                    }) && inp.flow_session_status == (if old(run).next_processing_order == 0 {
                        RunStatus::Running
                    } else {
                        RunStatus::Pending
                    }) && inp.stage == (if old(run).workflow.published {
                        Stage::Production
                    } else {
                        Stage::Testing
                    }) && inp.config@.variables == a.variables && inp.config@.input == a.input
                        && inp.started_at == now && final(run).next_processing_order == old(
                        run,
                    ).next_processing_order + 1),
                    None => r is None && final(run).next_processing_order == old(
                        run,
                    ).next_processing_order,
                }
            }),
        },
{
    let completed = complete_task(task, result, now);
    let existed = cache.update_task(run.flow_session_id, completed);
    if !existed {
        return None;
    }
    let next = match cache.get(run.flow_session_id) {
        Some(session) => next_action(
            &run.workflow.actions,
            &run.workflow.edges,
            &session.tasks,
            &task.action_id,
        ),
        None => None,
    };
    match next {
        Some(a) => Some(run.make_next_task(&a, now)),
        None => None,
    }
}

/// Records a plugin failure: the cache's copy of the task is failed with the
/// plugin's error as its result; the session creates nothing further.
pub fn on_task_failure(
    run: &SessionRun,
    cache: &mut FlowSessionCache,
    task: &Task,
    error: crate::json::Json,
    now: i64,
)
    ensures
        forall|k: u128|
            k != run.flow_session_id ==> #[trigger] cache_get(final(cache)@, k) == cache_get(
                old(cache)@,
                k,
            ),
        match cache_get(old(cache)@, run.flow_session_id) {
            None => final(cache)@ == old(cache)@,
            Some(od) => (cache_get(final(cache)@, run.flow_session_id) matches Some(nd) && {
                let done = (crate::action::TaskV {
                    task_status: RunStatus::Failed,
                    result: Some(error@),
                    ended_at: Some(now),
                    ..task@
                });
                &&& nd.tasks@.len() == remove_last_task(od.tasks@, task.task_id).len() + 1
                &&& nd.tasks@ == remove_last_task(od.tasks@, task.task_id).push(nd.tasks@.last())
                &&& nd.tasks@.last()@ == done
                &&& (task_get(nd.tasks@, task.task_id) matches Some(ft) && ft@ == done)
                &&& (forall|t2: u128|
                    t2 != task.task_id ==> #[trigger] task_get(nd.tasks@, t2) == task_get(
                        od.tasks@,
                        t2,
                    ))
            }),
        },
{
    let failed = fail_task(task, error, now);
    let _ = cache.update_task(run.flow_session_id, failed);
}



/// Processing orders are strictly monotonic within a session: of any two
/// tasks the run has created, the later one carries the greater order.
pub proof fn lemma_processing_orders_strictly_monotonic(r: SessionRun)
    requires
        r.wf(),
    ensures
        forall|i: int, j: int|
            0 <= i < j < r.handed_out@.len() ==> r.handed_out@[i] < r.handed_out@[j],
{
}


} // verus!
