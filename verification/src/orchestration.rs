//! Routing, the queue of dependent tasks, and the heartbeat of the agent loop.
use std::collections::{BTreeSet, VecDeque};

use vstd::prelude::*;

use crate::chars;
use crate::text;
use crate::types::{AgentPattern, Heartbeat, TaskId, TaskStatus, WorkerId};

verus! {

#[derive(Debug, Clone, Copy, PartialEq, Eq, Structural)]
pub enum GatewayTarget {
    Coordinator,
    Worker(WorkerId),
    Pipeline,
    MapReduce,
}

#[derive(Debug)]
pub struct Gateway {
    routes: Vec<(String, GatewayTarget)>,
}

/// A route: a prefix and where inputs with it go.
pub type Route = (Seq<char>, GatewayTarget);

impl View for Gateway {
    type V = Seq<Route>;

    closed spec fn view(&self) -> Seq<Route> {
        self.routes@.map_values(|r: (String, GatewayTarget)| (r.0@, r.1))
    }
}

/// The routes that are set up at first.
pub open spec fn default_routes() -> Seq<Route> {
    seq![
        ("/pipeline"@, GatewayTarget::Pipeline),
        ("/map"@, GatewayTarget::MapReduce),
        ("/reduce"@, GatewayTarget::MapReduce),
        ("/exec"@, GatewayTarget::Coordinator),
    ]
}

/// The target of the first route whose prefix starts the input.
pub open spec fn routed_to(routes: Seq<Route>, input: Seq<char>) -> Option<GatewayTarget>
    decreases routes.len(),
{
    if routes.len() == 0 {
        None
    } else if chars::starts_with(chars::trim_start(input), routes[0].0) {
        Some(routes[0].1)
    } else {
        routed_to(routes.skip(1), input)
    }
}

/// The first worker that is not busy.
pub open spec fn idle_worker(workers: Seq<WorkerAgent>) -> Option<WorkerId>
    decreases workers.len(),
{
    if workers.len() == 0 {
        None
    } else if !workers[0].busy {
        Some(workers[0].id)
    } else {
        idle_worker(workers.skip(1))
    }
}

/// Where an input goes: by its route, else to an idle worker, else to the
/// coordinator.
pub open spec fn target_of(
    routes: Seq<Route>,
    workers: Seq<WorkerAgent>,
    input: Seq<char>,
) -> GatewayTarget {
    match routed_to(routes, input) {
        Some(target) => target,
        None => match idle_worker(workers) {
            Some(id) => GatewayTarget::Worker(id),
            None => GatewayTarget::Coordinator,
        },
    }
}

impl Default for Gateway {
    fn default() -> (r: Self)
        ensures
            r@ == default_routes(),
    {
        let mut routes: Vec<(String, GatewayTarget)> = Vec::new();
        routes.push(("/pipeline".to_owned(), GatewayTarget::Pipeline));
        routes.push(("/map".to_owned(), GatewayTarget::MapReduce));
        routes.push(("/reduce".to_owned(), GatewayTarget::MapReduce));
        routes.push(("/exec".to_owned(), GatewayTarget::Coordinator));
        let r = Gateway { routes };
        assert(r@ =~= default_routes());
        r
    }
}

impl Gateway {
    pub fn route(&self, input: &str, workers: &[WorkerAgent]) -> (r: GatewayTarget)
        ensures
            r == target_of(self@, workers@, input@),
    {
        let t = text::trim_start(input);
        let ghost all = self@;
        let mut i: usize = 0;
        assert(all.skip(0) =~= all);
        while i < self.routes.len()
            invariant
                i <= self.routes.len(),
                all == self@,
                all.len() == self.routes.len(),
                t@ == chars::trim_start(input@),
                routed_to(all, input@) == routed_to(all.skip(i as int), input@),
            decreases self.routes.len() - i,
        {
            assert(all.skip(i as int).skip(1) =~= all.skip(i + 1));
            assert(all.skip(i as int)[0] == (self.routes@[i as int].0@, self.routes@[i as int].1));
            if text::starts_with(t, self.routes[i].0.as_str()) {
                return self.routes[i].1;
            }
            i += 1;
        }
        let mut k: usize = 0;
        assert(workers@.skip(0) =~= workers@);
        while k < workers.len()
            invariant
                k <= workers.len(),
                routed_to(self@, input@) is None,
                idle_worker(workers@) == idle_worker(workers@.skip(k as int)),
            decreases workers.len() - k,
        {
            assert(workers@.skip(k as int).skip(1) =~= workers@.skip(k + 1));
            if !workers[k].busy {
                return GatewayTarget::Worker(workers[k].id);
            }
            k += 1;
        }
        GatewayTarget::Coordinator
    }
}

#[derive(Debug)]
pub struct WorkerAgent {
    pub id: WorkerId,
    pub name: String,
    pub busy: bool,
    pub completed: u64,
}

impl WorkerAgent {
    pub fn new(id: WorkerId, name: &str) -> (r: Self)
        ensures
            r.id == id,
            r.name@ == name@,
            !r.busy,
            r.completed == 0,
    {
        WorkerAgent { id, name: name.to_owned(), busy: false, completed: 0 }
    }
}

#[derive(Debug)]
pub struct QueuedTask {
    pub id: TaskId,
    pub input: String,
    pub dependencies: Vec<TaskId>,
    pub status: TaskStatus,
    pub pattern: AgentPattern,
}

/// Tasks that wait for their turn, and how the tasks before them ended.
#[derive(Debug)]
pub struct TaskQueue {
    pending: VecDeque<QueuedTask>,
    completed: BTreeSet<u64>,
    failed: BTreeSet<u64>,
}

/// The contents of a queue; tasks that ended are kept by their numbers.
pub ghost struct QueueModel {
    pub pending: Seq<QueuedTask>,
    pub completed: Set<u64>,
    pub failed: Set<u64>,
}

impl View for TaskQueue {
    type V = QueueModel;

    closed spec fn view(&self) -> QueueModel {
        QueueModel {
            pending: self.pending@,
            completed: self.completed@,
            failed: self.failed@,
        }
    }
}

impl QueueModel {
    /// Every dependency of the task is done and none has failed.
    pub open spec fn is_ready(self, task: QueuedTask) -> bool {
        forall|k: int|
            0 <= k < task.dependencies@.len() ==> self.completed.contains(
                (#[trigger] task.dependencies@[k]).0,
            ) && !self.failed.contains(task.dependencies@[k].0)
    }

    /// Position of the first task that is ready, at or behind a position.
    pub open spec fn first_ready(self, from: int) -> Option<int>
        decreases self.pending.len() - from,
    {
        if from >= self.pending.len() || from < 0 {
            None
        } else if self.is_ready(self.pending[from]) {
            Some(from)
        } else {
            self.first_ready(from + 1)
        }
    }

    /// The queue after a task has ended.
    pub open spec fn ended(self, id: TaskId, status: TaskStatus) -> QueueModel {
        match status {
            TaskStatus::Done => QueueModel { completed: self.completed.insert(id.0), ..self },
            TaskStatus::Failed => QueueModel { failed: self.failed.insert(id.0), ..self },
            _ => self,
        }
    }
}

impl Default for TaskQueue {
    fn default() -> (r: Self)
        ensures
            r@ == (QueueModel {
                pending: seq![],
                completed: Set::empty(),
                failed: Set::empty(),
            }),
    {
        let r = TaskQueue {
            pending: VecDeque::new(),
            completed: BTreeSet::new(),
            failed: BTreeSet::new(),
        };
        assert(r@.pending =~= seq![]);
        r
    }
}

impl TaskQueue {
    pub fn push(&mut self, task: QueuedTask)
        ensures
            final(self)@ == (QueueModel { pending: old(self)@.pending.push(task), ..old(self)@ }),
    {
        self.pending.push_back(task);
    }

    pub fn len(&self) -> (r: usize)
        ensures
            r == self@.pending.len(),
    {
        self.pending.len()
    }

    pub fn is_empty(&self) -> (r: bool)
        ensures
            r == (self@.pending.len() == 0),
    {
        self.pending.len() == 0
    }

    pub fn mark_finished(&mut self, id: TaskId, status: TaskStatus)
        ensures
            final(self)@ == old(self)@.ended(id, status),
    {
        broadcast use vstd::std_specs::btree::group_btree_axioms;

        match status {
            TaskStatus::Done => {
                self.completed.insert(id.0);
            },
            TaskStatus::Failed => {
                self.failed.insert(id.0);
            },
            _ => {},
        }
    }

    fn task_ready(&self, task: &QueuedTask) -> (r: bool)
        ensures
            r == self@.is_ready(*task),
    {
        broadcast use vstd::std_specs::btree::group_btree_axioms;

        let mut k: usize = 0;
        while k < task.dependencies.len()
            invariant
                k <= task.dependencies.len(),
                forall|j: int|
                    0 <= j < k ==> self@.completed.contains((#[trigger] task.dependencies@[j]).0)
                        && !self@.failed.contains(task.dependencies@[j].0),
            decreases task.dependencies.len() - k,
        {
            let id: u64 = task.dependencies[k].0;
            if !self.completed.contains(&id) || self.failed.contains(&id) {
                assert(!self@.completed.contains(task.dependencies@[k as int].0)
                    || self@.failed.contains(task.dependencies@[k as int].0));
                return false;
            }
            k += 1;
        }
        true
    }

    /// Takes the first task out of the queue whose dependencies are all done.
    pub fn next_ready(&mut self) -> (r: Option<QueuedTask>)
        ensures
            match old(self)@.first_ready(0) {
                Some(i) => {
                    &&& 0 <= i < old(self)@.pending.len()
                    &&& r == Some(old(self)@.pending[i])
                    &&& final(self)@ == (QueueModel {
                        pending: old(self)@.pending.remove(i),
                        ..old(self)@
                    })
                },
                None => r is None && final(self)@ == old(self)@,
            },
    {
        let ghost start = self@;
        let mut i: usize = 0;
        while i < self.pending.len()
            invariant
                i <= self.pending.len(),
                self@ == start,
                start == old(self)@,
                start.pending == self.pending@,
                start.first_ready(0) == start.first_ready(i as int),
            decreases self.pending.len() - i,
        {
            if self.task_ready(&self.pending[i]) {
                let r = self.pending.remove(i);
                assert(self@.pending =~= start.pending.remove(i as int));
                return r;
            }
            i += 1;
        }
        None
    }
}

#[derive(Debug)]
pub struct PipelineStage {
    pub name: String,
    pub input: String,
}

#[derive(Debug)]
pub struct PipelineReport {
    pub task_id: TaskId,
    pub stages_run: usize,
    pub output: String,
}

#[derive(Debug)]
pub struct MapReduceReport {
    pub task_id: TaskId,
    pub mapped: usize,
    pub output: String,
}

#[derive(Debug)]
pub struct AgentLoop {
    pub heartbeat: Heartbeat,
}

impl Default for AgentLoop {
    fn default() -> (r: Self)
        ensures
            r.heartbeat == (Heartbeat { tick: 0, last_task: None, last_status: TaskStatus::New }),
    {
        AgentLoop { heartbeat: Heartbeat::default() }
    }
}

/// One more, up to the machine's limit.
pub open spec fn next_count(n: u64) -> u64 {
    if n == u64::MAX {
        n
    } else {
        (n + 1) as u64
    }
}

pub fn count_up(n: u64) -> (r: u64)
    ensures
        r == next_count(n),
{
    if n == u64::MAX {
        n
    } else {
        n + 1
    }
}

impl AgentLoop {
    pub fn tick_started(&mut self)
        ensures
            final(self).heartbeat == (Heartbeat {
                tick: next_count(old(self).heartbeat.tick),
                ..old(self).heartbeat
            }),
    {
        self.heartbeat.tick = count_up(self.heartbeat.tick);
    }

    pub fn tick_finished(&mut self, task_id: Option<TaskId>, status: TaskStatus)
        ensures
            final(self).heartbeat == (Heartbeat {
                last_task: task_id,
                last_status: status,
                ..old(self).heartbeat
            }),
    {
        self.heartbeat.last_task = task_id;
        self.heartbeat.last_status = status;
    }

    pub fn heartbeat(&self) -> (r: &Heartbeat)
        ensures
            *r == self.heartbeat,
    {
        &self.heartbeat
    }
}

// ---------------------------------------------------------------------------
// Laws
// ---------------------------------------------------------------------------

proof fn lemma_first_ready(q: QueueModel, from: int)
    requires
        0 <= from,
    ensures
        match q.first_ready(from) {
            Some(i) => from <= i < q.pending.len() && q.is_ready(q.pending[i]) && forall|j: int|
                from <= j < i ==> !q.is_ready(#[trigger] q.pending[j]),
            None => forall|j: int|
                from <= j < q.pending.len() ==> !q.is_ready(#[trigger] q.pending[j]),
        },
    decreases q.pending.len() - from,
{
    if from < q.pending.len() && !q.is_ready(q.pending[from]) {
        lemma_first_ready(q, from + 1);
    }
}

/// The task that is taken has all its dependencies done and none failed, and it
/// stands before every other such task; where none is taken, none is ready.
pub proof fn law_taken_task_is_ready(q: QueueModel)
    ensures
        match q.first_ready(0) {
            Some(i) => 0 <= i < q.pending.len() && q.is_ready(q.pending[i]) && forall|j: int|
                0 <= j < i ==> !q.is_ready(#[trigger] q.pending[j]),
            None => forall|j: int|
                0 <= j < q.pending.len() ==> !q.is_ready(#[trigger] q.pending[j]),
        },
{
    lemma_first_ready(q, 0);
}

/// A task with a dependency that has failed is never ready again.
pub proof fn law_failed_dependency_blocks(
    q: QueueModel,
    task: QueuedTask,
    dep: TaskId,
    id: TaskId,
    status: TaskStatus,
)
    requires
        task.dependencies@.contains(dep),
    ensures
        !q.ended(dep, TaskStatus::Failed).is_ready(task),
        !q.ended(dep, TaskStatus::Failed).ended(id, status).is_ready(task),
{
    let k = task.dependencies@.index_of(dep);
    assert(task.dependencies@[k] == dep);
}

/// A task whose only missing dependency gets done becomes ready, unless a
/// dependency has failed.
pub proof fn law_done_dependency_releases(q: QueueModel, task: QueuedTask, dep: TaskId)
    requires
        forall|k: int|
            0 <= k < task.dependencies@.len() ==> !q.failed.contains(
                (#[trigger] task.dependencies@[k]).0,
            ) && (task.dependencies@[k] == dep || q.completed.contains(task.dependencies@[k].0)),
    ensures
        q.ended(dep, TaskStatus::Done).is_ready(task),
{
}

}
