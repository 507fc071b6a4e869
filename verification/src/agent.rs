//! The orchestrator: plans tasks from its queue or from callers, and keeps the
//! record of what their steps did.
use vstd::prelude::*;

use crate::chars;
use crate::llm::{conversed, single_turn_system, ChatCall, LlmClient, Turn};
use crate::llm::lemma_conversed_push;
use crate::memory::{lemma_performed_push, performed, performs};
use crate::memory::{MemoryOp, MemoryStore, ProgressiveMemory, ProgressiveModel};
use crate::numbers;
use crate::orchestration::{
    count_up, next_count, target_of, AgentLoop, Gateway, GatewayTarget, MapReduceReport,
    PipelineReport, PipelineStage, QueueModel, QueuedTask, TaskQueue, WorkerAgent,
};
use crate::planner::{planned, selected, Planner};
use crate::skills::{SkillModel, SkillRegistry};
use crate::text;
use crate::tools::{fits, requested, step_result, ToolReply, ToolRequest, ToolRunner};
use crate::types::{
    AgentPattern, Heartbeat, Plan, PlanStep, StepStatus, Task, TaskId, TaskStatus, WorkerId,
};

verus! {

/// How many index entries a recall asks for.
pub const MEMORY_INDEX_LIMIT: usize = 12;

/// How many details a recall asks for.
pub const MEMORY_DETAIL_LIMIT: usize = 4;

/// How many bytes a detail may take.
pub const MEMORY_DETAIL_BYTES: usize = 512;

/// A recall under the orchestrator's limits.
pub open spec fn recall_of(query: Seq<char>, memory: ProgressiveModel) -> MemoryOp {
    MemoryOp::Recall {
        query,
        index_limit: MEMORY_INDEX_LIMIT as nat,
        detail_limit: MEMORY_DETAIL_LIMIT as nat,
        detail_bytes: MEMORY_DETAIL_BYTES as nat,
        memory,
    }
}

#[derive(Debug)]
pub struct AgentOutcome {
    pub task_id: TaskId,
    pub status: TaskStatus,
    pub output: String,
    pub pattern: AgentPattern,
}

/// A plan that is being carried out: the step that is next, what the last one
/// gave, and how the task stands.
#[derive(Debug)]
pub struct PlanRun {
    pub plan: Plan,
    pub next: usize,
    pub output: String,
    pub status: TaskStatus,
    pub pattern: AgentPattern,
    pub worker: Option<WorkerId>,
    pub queued: bool,
}

impl PlanRun {
    /// No step has been carried out yet.
    pub open spec fn is_fresh(self) -> bool {
        self.next == 0 && self.output@.len() == 0 && self.status == TaskStatus::Done
    }

    /// Every step is done, or one was denied or has failed.
    pub open spec fn is_over(self) -> bool {
        self.next >= self.plan.steps@.len() || self.status != TaskStatus::Done
    }
}

pub struct AgentOrchestrator<M: MemoryStore> {
    pub memory: M,
    pub planner: Planner,
    pub tools: ToolRunner,
    pub gateway: Gateway,
    pub queue: TaskQueue,
    pub workers: Vec<WorkerAgent>,
    pub loop_state: AgentLoop,
}

/// The status of a step whose tool did not succeed.
pub open spec fn step_failure(output: Seq<char>) -> StepStatus {
    if chars::contains(output, "denied"@) {
        StepStatus::Denied
    } else {
        StepStatus::Failed
    }
}

/// The status of a task after a step: a denied step leaves it waiting.
pub open spec fn task_status_after(ok: bool, output: Seq<char>) -> TaskStatus {
    if ok {
        TaskStatus::Done
    } else if step_failure(output) == StepStatus::Denied {
        TaskStatus::Waiting
    } else {
        TaskStatus::Failed
    }
}

/// Position of the first worker of an identifier, at or behind a position.
pub open spec fn worker_at(workers: Seq<WorkerAgent>, id: WorkerId, from: int) -> Option<int>
    decreases workers.len() - from,
{
    if from < 0 || from >= workers.len() {
        None
    } else if workers[from].id == id {
        Some(from)
    } else {
        worker_at(workers, id, from + 1)
    }
}

/// The workers after one of them was given a task.
pub open spec fn with_busy(workers: Seq<WorkerAgent>, id: WorkerId) -> Seq<WorkerAgent> {
    match worker_at(workers, id, 0) {
        Some(i) => workers.update(i, WorkerAgent { busy: true, ..workers[i] }),
        None => workers,
    }
}

/// The workers after one of them has finished its task.
pub open spec fn with_finished(workers: Seq<WorkerAgent>, id: WorkerId) -> Seq<WorkerAgent> {
    match worker_at(workers, id, 0) {
        Some(i) => workers.update(
            i,
            WorkerAgent {
                busy: false,
                completed: next_count(workers[i].completed),
                ..workers[i]
            },
        ),
        None => workers,
    }
}

/// The pattern of a queued task: a route fixes it, a worker takes the selected
/// one.
pub open spec fn pattern_on(route: GatewayTarget, picked: AgentPattern) -> AgentPattern {
    match route {
        GatewayTarget::Pipeline => AgentPattern::Pipeline,
        GatewayTarget::MapReduce => AgentPattern::MapReduce,
        GatewayTarget::Coordinator => AgentPattern::HubAndSpoke,
        GatewayTarget::Worker(_) => picked,
    }
}

/// What happened when a caller's task was planned.
pub open spec fn task_planned<M: MemoryStore, L: LlmClient>(
    pre: M,
    post: M,
    llm_pre: L,
    llm_mid: L,
    llm_post: L,
    input: Seq<char>,
    task: Task,
    first: ProgressiveModel,
    second: ProgressiveModel,
    run: PlanRun,
) -> bool {
    &&& performed(
        pre,
        seq![
            MemoryOp::Create { title: input, task },
            MemoryOp::Message { task_id: task.id, role: "user"@, body: input },
            recall_of(input, first),
            MemoryOp::Status { id: task.id, status: TaskStatus::Running },
            recall_of(input, second),
        ],
        post,
    )
    &&& selected(llm_pre, llm_mid, input, first, run.pattern)
    &&& planned(llm_mid, llm_post, input, run.pattern, second, seq![], run.plan)
    &&& run.plan.task_id == task.id
}

/// What happened when a queued task was planned.
pub open spec fn queued_planned<M: MemoryStore, L: LlmClient>(
    pre: M,
    post: M,
    llm_pre: L,
    llm_mid: L,
    llm_post: L,
    queued: QueuedTask,
    route: GatewayTarget,
    found: Option<Task>,
    first: ProgressiveModel,
    second: ProgressiveModel,
    picked: AgentPattern,
    run: PlanRun,
) -> bool {
    let id = match found {
        Some(task) => task.id,
        None => queued.id,
    };
    &&& M::task_found(pre, queued.id, found)
    &&& performed(
        pre,
        seq![
            recall_of(queued.input@, first),
            MemoryOp::Status { id, status: TaskStatus::Running },
            recall_of(queued.input@, second),
        ],
        post,
    )
    &&& selected(llm_pre, llm_mid, queued.input@, first, picked)
    &&& run.pattern == pattern_on(route, picked)
    &&& planned(llm_mid, llm_post, queued.input@, run.pattern, second, seq![], run.plan)
    &&& run.plan.task_id == id
}

/// The prompt of a pipeline stage.
pub open spec fn stage_prompt(
    stage: PipelineStage,
    memory: ProgressiveModel,
    current: Seq<char>,
) -> Seq<char> {
    "Pipeline stage '"@ + stage.name@
        + "'. Use progressive memory index first, then selected details.\n"@ + memory.rendered()
        + "\nInput:\n"@ + current + "\nInstruction:\n"@ + stage.input@
}

/// One question to a model, and its reply.
pub open spec fn question(prompt: Seq<char>, reply: Seq<char>) -> ChatCall {
    ChatCall { system: single_turn_system(), messages: seq![Turn::user(prompt)], reply }
}

/// What a pipeline hands to stage `n`: the reply of the stage before it, the
/// input to the first.
pub open spec fn handed(input: Seq<char>, replies: Seq<Seq<char>>, n: int) -> Seq<char> {
    if n <= 0 {
        input
    } else {
        replies[n - 1]
    }
}

/// The memory operations of the first `n` stages of a pipeline.
pub open spec fn stage_ops(
    id: TaskId,
    input: Seq<char>,
    stages: Seq<PipelineStage>,
    recalls: Seq<ProgressiveModel>,
    replies: Seq<Seq<char>>,
    n: nat,
) -> Seq<MemoryOp>
    decreases n,
{
    if n == 0 {
        seq![]
    } else {
        let i = n - 1;
        stage_ops(id, input, stages, recalls, replies, i as nat).push(
            recall_of(handed(input, replies, i), recalls[i]),
        ).push(
            MemoryOp::Message { task_id: id, role: stages[i].name@, body: replies[i] },
        )
    }
}

/// The questions of the first `n` stages of a pipeline.
pub open spec fn stage_calls(
    input: Seq<char>,
    stages: Seq<PipelineStage>,
    recalls: Seq<ProgressiveModel>,
    replies: Seq<Seq<char>>,
    n: nat,
) -> Seq<ChatCall>
    decreases n,
{
    if n == 0 {
        seq![]
    } else {
        let i = n - 1;
        stage_calls(input, stages, recalls, replies, i as nat).push(
            question(stage_prompt(stages[i], recalls[i], handed(input, replies, i)), replies[i]),
        )
    }
}

/// The operations that queue a task.
pub open spec fn queuing_ops(input: Seq<char>, task: Task) -> Seq<MemoryOp> {
    seq![
        MemoryOp::Create { title: input, task },
        MemoryOp::Message { task_id: task.id, role: "user"@, body: input },
    ]
}

/// The operations that open a supervised task.
pub open spec fn opening_ops(input: Seq<char>, task: Task) -> Seq<MemoryOp> {
    seq![
        MemoryOp::Create { title: input, task },
        MemoryOp::Status { id: task.id, status: TaskStatus::Running },
        MemoryOp::Message { task_id: task.id, role: "user"@, body: input },
    ]
}

/// The operations that close a supervised task.
pub open spec fn closing_ops(id: TaskId, output: Seq<char>) -> Seq<MemoryOp> {
    seq![
        MemoryOp::Message { task_id: id, role: "assistant"@, body: output },
        MemoryOp::Status { id, status: TaskStatus::Done },
    ]
}

/// What a pipeline did: each stage is asked about the reply of the one before
/// it, and every reply is recorded.
pub open spec fn pipeline_run<M: MemoryStore, L: LlmClient>(
    pre: M,
    post: M,
    llm_pre: L,
    llm_post: L,
    input: Seq<char>,
    stages: Seq<PipelineStage>,
    task: Task,
    recalls: Seq<ProgressiveModel>,
    replies: Seq<Seq<char>>,
) -> bool {
    let n = stages.len();
    &&& recalls.len() == n
    &&& replies.len() == n
    &&& performed(
        pre,
        opening_ops(input, task) + stage_ops(task.id, input, stages, recalls, replies, n)
            + closing_ops(task.id, handed(input, replies, n as int)),
        post,
    )
    &&& conversed(llm_pre, stage_calls(input, stages, recalls, replies, n), llm_post)
}

/// The prompt for one item of a map.
pub open spec fn map_prompt(
    input: Seq<char>,
    memory: ProgressiveModel,
    item: Seq<char>,
) -> Seq<char> {
    "Map this item for task '"@ + input + "'. Use progressive memory only if relevant.\n"@
        + memory.rendered() + "\nItem:\n"@ + item
}

/// The prompt that reduces the mapped results.
pub open spec fn reduce_prompt(memory: ProgressiveModel, mapped: Seq<Seq<char>>) -> Seq<char> {
    "Reduce these "@ + numbers::decimal(mapped.len())
        + " mapped results into one concise answer. Use progressive memory for continuity.\n"@
        + memory.rendered() + "\nMapped results:\n"@ + chars::join(mapped, "\n---\n"@)
}

/// The memory operations of the first `n` items of a map.
pub open spec fn map_ops(
    id: TaskId,
    items: Seq<Seq<char>>,
    recalls: Seq<ProgressiveModel>,
    replies: Seq<Seq<char>>,
    n: nat,
) -> Seq<MemoryOp>
    decreases n,
{
    if n == 0 {
        seq![]
    } else {
        let i = n - 1;
        map_ops(id, items, recalls, replies, i as nat).push(recall_of(items[i], recalls[i])).push(
            MemoryOp::Message { task_id: id, role: "map-worker"@, body: replies[i] },
        )
    }
}

/// The questions of the first `n` items of a map.
pub open spec fn map_calls(
    input: Seq<char>,
    items: Seq<Seq<char>>,
    recalls: Seq<ProgressiveModel>,
    replies: Seq<Seq<char>>,
    n: nat,
) -> Seq<ChatCall>
    decreases n,
{
    if n == 0 {
        seq![]
    } else {
        let i = n - 1;
        map_calls(input, items, recalls, replies, i as nat).push(
            question(map_prompt(input, recalls[i], items[i]), replies[i]),
        )
    }
}

/// What a map-reduce did: each item is mapped on its own, and the replies are
/// reduced to the output.
pub open spec fn map_reduce_run<M: MemoryStore, L: LlmClient>(
    pre: M,
    post: M,
    llm_pre: L,
    llm_post: L,
    input: Seq<char>,
    items: Seq<Seq<char>>,
    task: Task,
    recalls: Seq<ProgressiveModel>,
    replies: Seq<Seq<char>>,
    last: ProgressiveModel,
    output: Seq<char>,
) -> bool {
    let n = items.len();
    &&& recalls.len() == n
    &&& replies.len() == n
    &&& performed(
        pre,
        (opening_ops(input, task) + map_ops(task.id, items, recalls, replies, n)).push(
            recall_of(input, last),
        ) + closing_ops(task.id, output),
        post,
    )
    &&& conversed(
        llm_pre,
        map_calls(input, items, recalls, replies, n).push(
            question(reduce_prompt(last, replies), output),
        ),
        llm_post,
    )
}

fn failed_status(output: &str) -> (r: StepStatus)
    ensures
        r == step_failure(output@),
{
    if text::contains(output, "denied") {
        StepStatus::Denied
    } else {
        StepStatus::Failed
    }
}

fn no_skills() -> (r: SkillRegistry)
    ensures
        r@ == Seq::<SkillModel>::empty(),
{
    let r = SkillRegistry { skills: Vec::new() };
    assert(r@ =~= Seq::<SkillModel>::empty());
    r
}

fn recall<M: MemoryStore>(memory: &M, query: &str) -> (r: ProgressiveMemory)
    ensures
        performs(*memory, recall_of(query@, r@), *memory),
{
    memory.progressive_memory(
        query,
        MEMORY_INDEX_LIMIT,
        MEMORY_DETAIL_LIMIT,
        MEMORY_DETAIL_BYTES,
    )
}

fn find_worker(workers: &Vec<WorkerAgent>, id: WorkerId) -> (r: Option<usize>)
    ensures
        match r {
            Some(i) => worker_at(workers@, id, 0) == Some(i as int) && i < workers@.len(),
            None => worker_at(workers@, id, 0) is None,
        },
{
    let mut i: usize = 0;
    while i < workers.len()
        invariant
            i <= workers.len(),
            worker_at(workers@, id, 0) == worker_at(workers@, id, i as int),
        decreases workers.len() - i,
    {
        if workers[i].id.0 == id.0 {
            return Some(i);
        }
        i += 1;
    }
    None
}

impl<M: MemoryStore> AgentOrchestrator<M> {
    pub fn new(memory: M, tools: ToolRunner) -> (r: Self)
        ensures
            r.memory == memory,
            r.tools == tools,
            r.gateway@ == crate::orchestration::default_routes(),
            r.queue@ == (QueueModel {
                pending: seq![],
                completed: Set::empty(),
                failed: Set::empty(),
            }),
            r.workers@.len() == 2,
            r.workers@[0].id == WorkerId(1),
            r.workers@[0].name@ == "local-reader"@,
            r.workers@[1].id == WorkerId(2),
            r.workers@[1].name@ == "local-operator"@,
            forall|i: int|
                0 <= i < 2 ==> !(#[trigger] r.workers@[i]).busy && r.workers@[i].completed == 0,
            r.loop_state.heartbeat == (Heartbeat {
                tick: 0,
                last_task: None,
                last_status: TaskStatus::New,
            }),
    {
        let mut workers: Vec<WorkerAgent> = Vec::new();
        workers.push(WorkerAgent::new(WorkerId(1), "local-reader"));
        workers.push(WorkerAgent::new(WorkerId(2), "local-operator"));
        AgentOrchestrator {
            memory,
            planner: Planner,
            tools,
            gateway: Gateway::default(),
            queue: TaskQueue::default(),
            workers,
            loop_state: AgentLoop::default(),
        }
    }

    pub fn memory(&self) -> (r: &M)
        ensures
            *r == self.memory,
    {
        &self.memory
    }

    pub fn memory_mut(&mut self) -> (r: &mut M)
        ensures
            *r == old(self).memory,
            *final(self) == (AgentOrchestrator { memory: *final(r), ..*old(self) }),
    {
        &mut self.memory
    }

    pub fn heartbeat(&self) -> (r: &Heartbeat)
        ensures
            *r == self.loop_state.heartbeat,
    {
        self.loop_state.heartbeat()
    }

    pub fn queue_len(&self) -> (r: usize)
        ensures
            r == self.queue@.pending.len(),
    {
        self.queue.len()
    }

    /// Queues a task without dependencies.
    pub fn enqueue_task(&mut self, input: &str) -> (r: TaskId)
        ensures
            Self::enqueued(
                *old(self),
                *final(self),
                input@,
                seq![],
                AgentPattern::CoordinatorWorker,
                r,
            ),
    {
        let none: Vec<TaskId> = Vec::new();
        assert(none@ =~= seq![]);
        self.enqueue_task_with_dependencies(input, none, AgentPattern::CoordinatorWorker)
    }

    /// What queuing a task did: the task is created, its input recorded, and it
    /// stands last in the queue.
    pub open spec fn enqueued(
        pre: Self,
        post: Self,
        input: Seq<char>,
        dependencies: Seq<TaskId>,
        pattern: AgentPattern,
        id: TaskId,
    ) -> bool {
        &&& exists|task: Task|
            task.id == id && #[trigger] performed(
                pre.memory,
                queuing_ops(input, task),
                post.memory,
            )
        &&& post.queue@.completed == pre.queue@.completed
        &&& post.queue@.failed == pre.queue@.failed
        &&& post.queue@.pending.len() == pre.queue@.pending.len() + 1
        &&& post.queue@.pending.drop_last() == pre.queue@.pending
        &&& post.queue@.pending.last().id == id
        &&& post.queue@.pending.last().input@ == input
        &&& post.queue@.pending.last().dependencies@ == dependencies
        &&& post.queue@.pending.last().status == TaskStatus::New
        &&& post.queue@.pending.last().pattern == pattern
        &&& post.tools == pre.tools
        &&& post.gateway == pre.gateway
        &&& post.workers == pre.workers
        &&& post.loop_state == pre.loop_state
    }

    pub fn enqueue_task_with_dependencies(
        &mut self,
        input: &str,
        dependencies: Vec<TaskId>,
        pattern: AgentPattern,
    ) -> (r: TaskId)
        ensures
            Self::enqueued(*old(self), *final(self), input@, dependencies@, pattern, r),
    {
        let ghost m0 = self.memory;
        let ghost q0 = self.queue@.pending;
        let task = self.memory.create_task(input);
        let ghost m1 = self.memory;
        self.memory.append_message(task.id, "user", input);
        let id = task.id;
        proof {
            let op0 = MemoryOp::Create { title: input@, task };
            let op1 = MemoryOp::Message { task_id: task.id, role: "user"@, body: input@ };
            lemma_performed_push(m0, seq![], m0, op0, m1);
            lemma_performed_push(m0, seq![].push(op0), m1, op1, self.memory);
            assert(seq![].push(op0).push(op1) =~= queuing_ops(input@, task));
        }
        self.queue.push(
            QueuedTask {
                id,
                input: input.to_owned(),
                dependencies,
                status: TaskStatus::New,
                pattern,
            },
        );
        assert(self.queue@.pending.drop_last() =~= q0);
        assert(performed(m0, queuing_ops(input@, task), self.memory));
        id
    }

    /// Plans a caller's task.
    pub fn run_task<L: LlmClient>(&mut self, input: &str, llm: &mut L) -> (r: PlanRun)
        ensures
            r.is_fresh(),
            r.worker is None,
            !r.queued,
            exists|task: Task, first: ProgressiveModel, second: ProgressiveModel, mid: L| #[trigger]
                task_planned(
                    old(self).memory,
                    final(self).memory,
                    *old(llm),
                    mid,
                    *final(llm),
                    input@,
                    task,
                    first,
                    second,
                    r,
                ),
            *final(self) == (AgentOrchestrator { memory: final(self).memory, ..*old(self) }),
    {
        let ghost m0 = self.memory;
        let ghost l0 = *llm;
        let task = self.memory.create_task(input);
        let ghost m1 = self.memory;
        self.memory.append_message(task.id, "user", input);
        let ghost m2 = self.memory;
        let memory = recall(&self.memory, input);
        let pattern = self.planner.select_pattern_with_memory(input, &memory, llm);
        let ghost l1 = *llm;
        self.memory.update_task_status(task.id, TaskStatus::Running);
        let ghost m3 = self.memory;
        let again = recall(&self.memory, input);
        let plan = self.planner.plan_with_context(
            &task,
            input,
            pattern,
            &again,
            &no_skills(),
            llm,
        );
        let run = PlanRun {
            plan,
            next: 0,
            output: String::new(),
            status: TaskStatus::Done,
            pattern,
            worker: None,
            queued: false,
        };
        proof {
            let op0 = MemoryOp::Create { title: input@, task };
            let op1 = MemoryOp::Message { task_id: task.id, role: "user"@, body: input@ };
            let op2 = recall_of(input@, memory@);
            let op3 = MemoryOp::Status { id: task.id, status: TaskStatus::Running };
            let op4 = recall_of(input@, again@);
            lemma_performed_push(m0, seq![], m0, op0, m1);
            lemma_performed_push(m0, seq![].push(op0), m1, op1, m2);
            lemma_performed_push(m0, seq![].push(op0).push(op1), m2, op2, m2);
            lemma_performed_push(m0, seq![].push(op0).push(op1).push(op2), m2, op3, m3);
            lemma_performed_push(m0, seq![].push(op0).push(op1).push(op2).push(op3), m3, op4, m3);
            assert(seq![].push(op0).push(op1).push(op2).push(op3).push(op4)
                =~= seq![op0, op1, op2, op3, op4]);
            assert(Seq::<SkillModel>::empty() =~= seq![]);
            assert(task_planned(
                m0,
                self.memory,
                l0,
                l1,
                *llm,
                input@,
                task,
                memory@,
                again@,
                run,
            ));
        }
        run
    }

    /// Starts a tick: takes the first ready task out of the queue and plans it.
    pub fn tick<L: LlmClient>(&mut self, llm: &mut L) -> (r: Option<PlanRun>)
        ensures
            final(self).tools == old(self).tools,
            final(self).gateway == old(self).gateway,
            final(self).queue@.completed == old(self).queue@.completed,
            final(self).queue@.failed == old(self).queue@.failed,
            final(self).loop_state.heartbeat.tick == next_count(old(self).loop_state.heartbeat.tick),
            match old(self).queue@.first_ready(0) {
                None => {
                    &&& r is None
                    &&& *final(llm) == *old(llm)
                    &&& final(self).memory == old(self).memory
                    &&& final(self).workers == old(self).workers
                    &&& final(self).queue@ == old(self).queue@
                    &&& final(self).loop_state.heartbeat.last_task is None
                    &&& final(self).loop_state.heartbeat.last_status == TaskStatus::Waiting
                },
                Some(i) => {
                    let queued = old(self).queue@.pending[i];
                    let route = target_of(
                        old(self).gateway@,
                        old(self).workers@,
                        queued.input@,
                    );
                    &&& 0 <= i < old(self).queue@.pending.len()
                    &&& final(self).queue@.pending == old(self).queue@.pending.remove(i)
                    &&& final(self).loop_state.heartbeat.last_task == old(self).loop_state.heartbeat.last_task
                    &&& final(self).loop_state.heartbeat.last_status == old(self).loop_state.heartbeat.last_status
                    &&& r matches Some(run) && run.is_fresh() && run.queued && run.worker
                        == busy_worker(route) && final(self).workers@ == (match busy_worker(
                        route,
                    ) {
                        Some(w) => with_busy(old(self).workers@, w),
                        None => old(self).workers@,
                    }) && exists|
                        found: Option<Task>,
                        first: ProgressiveModel,
                        second: ProgressiveModel,
                        mid: L,
                        picked: AgentPattern,
                    | #[trigger]
                        queued_planned(
                            old(self).memory,
                            final(self).memory,
                            *old(llm),
                            mid,
                            *final(llm),
                            queued,
                            route,
                            found,
                            first,
                            second,
                            picked,
                            run,
                        )
                },
            },
    {
        self.loop_state.tick_started();
        match self.queue.next_ready() {
            None => {
                self.loop_state.tick_finished(None, TaskStatus::Waiting);
                None
            },
            Some(queued) => Some(self.run_queued_task(queued, llm)),
        }
    }

    fn run_queued_task<L: LlmClient>(&mut self, queued: QueuedTask, llm: &mut L) -> (r: PlanRun)
        ensures
            final(self).tools == old(self).tools,
            final(self).gateway == old(self).gateway,
            final(self).queue == old(self).queue,
            final(self).loop_state == old(self).loop_state,
            r.is_fresh(),
            r.queued,
            ({
                let route = target_of(old(self).gateway@, old(self).workers@, queued.input@);
                &&& r.worker == busy_worker(route)
                &&& final(self).workers@ == (match busy_worker(route) {
                    Some(w) => with_busy(old(self).workers@, w),
                    None => old(self).workers@,
                })
                &&& exists|
                    found: Option<Task>,
                    first: ProgressiveModel,
                    second: ProgressiveModel,
                    mid: L,
                    picked: AgentPattern,
                | #[trigger]
                    queued_planned(
                        old(self).memory,
                        final(self).memory,
                        *old(llm),
                        mid,
                        *final(llm),
                        queued,
                        route,
                        found,
                        first,
                        second,
                        picked,
                        r,
                    )
            }),
    {
        let ghost m0 = self.memory;
        let ghost l0 = *llm;
        let found = self.memory.get_task(queued.id);
        let ghost answer = found;
        let task = match found {
            Some(task) => task,
            None => Task {
                id: queued.id,
                title: queued.input.clone(),
                status: queued.status,
                created_at: 0,
                updated_at: 0,
            },
        };
        let input = queued.input.as_str();
        let route = self.gateway.route(input, self.workers.as_slice());
        let memory = recall(&self.memory, input);
        let picked = self.planner.select_pattern_with_memory(input, &memory, llm);
        let ghost l1 = *llm;
        let mut worker: Option<WorkerId> = None;
        let pattern = match route {
            GatewayTarget::Pipeline => AgentPattern::Pipeline,
            GatewayTarget::MapReduce => AgentPattern::MapReduce,
            GatewayTarget::Coordinator => AgentPattern::HubAndSpoke,
            GatewayTarget::Worker(id) => {
                worker = Some(id);
                self.mark_worker_busy(id);
                picked
            },
        };
        self.memory.update_task_status(task.id, TaskStatus::Running);
        let ghost m1 = self.memory;
        let again = recall(&self.memory, input);
        let plan = self.planner.plan_with_context(
            &task,
            input,
            pattern,
            &again,
            &no_skills(),
            llm,
        );
        let run = PlanRun {
            plan,
            next: 0,
            output: String::new(),
            status: TaskStatus::Done,
            pattern,
            worker,
            queued: true,
        };
        proof {
            let op0 = recall_of(input@, memory@);
            let op1 = MemoryOp::Status { id: task.id, status: TaskStatus::Running };
            let op2 = recall_of(input@, again@);
            lemma_performed_push(m0, seq![], m0, op0, m0);
            lemma_performed_push(m0, seq![].push(op0), m0, op1, m1);
            lemma_performed_push(m0, seq![].push(op0).push(op1), m1, op2, m1);
            assert(seq![].push(op0).push(op1).push(op2) =~= seq![op0, op1, op2]);
            assert(Seq::<SkillModel>::empty() =~= seq![]);
            assert(queued_planned(
                m0,
                self.memory,
                l0,
                l1,
                *llm,
                queued,
                route,
                answer,
                memory@,
                again@,
                picked,
                run,
            ));
        }
        run
    }

    /// What the next step of a plan asks of the machine; nothing where the plan
    /// is over.
    pub fn next_request(&self, run: &PlanRun) -> (r: Option<ToolRequest>)
        ensures
            if run.is_over() {
                r is None
            } else {
                r matches Some(q) && q@ == requested(
                    self.tools.policy,
                    run.plan.steps@[run.next as int].kind@,
                )
            },
    {
        if run.next >= run.plan.steps.len() || run.status != TaskStatus::Done {
            None
        } else {
            Some(self.tools.request(&run.plan.steps[run.next].kind))
        }
    }

    /// Records what the next step of a plan gave.
    pub fn record_step(&mut self, run: &mut PlanRun, reply: &ToolReply)
        requires
            !old(run).is_over(),
            fits(
                requested(
                    old(self).tools.policy,
                    old(run).plan.steps@[old(run).next as int].kind@,
                ),
                *reply,
            ),
        ensures
            ({
                let i = old(run).next as int;
                let step = old(run).plan.steps@[i];
                let result = step_result(old(self).tools.policy, step.kind@, *reply);
                &&& M::tool_added(
                    old(self).memory,
                    final(self).memory,
                    old(run).plan.task_id,
                    result,
                )
                &&& final(run).output@ == result.output
                &&& final(run).status == task_status_after(result.ok, result.output)
                &&& final(run).next == i + 1
                &&& final(run).plan.task_id == old(run).plan.task_id
                &&& final(run).plan.steps@.len() == old(run).plan.steps@.len()
                &&& forall|k: int|
                    0 <= k < old(run).plan.steps@.len() && k != i ==> #[trigger] final(run).plan.steps@[k] == old(run).plan.steps@[k]
                &&& final(run).plan.steps@[i].index == step.index
                &&& final(run).plan.steps@[i].kind@ == step.kind@
                &&& final(run).plan.steps@[i].status == (if result.ok {
                    StepStatus::Done
                } else {
                    step_failure(result.output)
                })
            }),
            final(run).pattern == old(run).pattern,
            final(run).worker == old(run).worker,
            final(run).queued == old(run).queued,
            *final(self) == (AgentOrchestrator { memory: final(self).memory, ..*old(self) }),
    {
        let i: usize = run.next;
        assert(i < run.plan.steps.len());
        let next: usize = i + 1;
        let result = self.tools.run_step(&run.plan.steps[i].kind, reply);
        self.memory.append_tool_result(run.plan.task_id, &result);
        let status = if result.ok {
            StepStatus::Done
        } else {
            failed_status(result.output.as_str())
        };
        let step = PlanStep { status, ..run.plan.steps[i].clone() };
        run.plan.steps.set(i, step);
        run.status = if result.ok {
            TaskStatus::Done
        } else if status == StepStatus::Denied {
            TaskStatus::Waiting
        } else {
            TaskStatus::Failed
        };
        run.output = result.output;
        run.next = next;
    }

    /// Closes a plan that is over: records its output and its status, releases
    /// its worker, and tells the queue and the heartbeat of a queued task.
    pub fn finish_run(&mut self, run: PlanRun) -> (r: AgentOutcome)
        requires
            run.is_over(),
        ensures
            r.task_id == run.plan.task_id,
            r.status == run.status,
            r.output@ == run.output@,
            r.pattern == run.pattern,
            performed(
                old(self).memory,
                seq![
                    MemoryOp::Message {
                        task_id: run.plan.task_id,
                        role: "assistant"@,
                        body: run.output@,
                    },
                    MemoryOp::Status { id: run.plan.task_id, status: run.status },
                ],
                final(self).memory,
            ),
            final(self).tools == old(self).tools,
            final(self).gateway == old(self).gateway,
            final(self).workers@ == (match run.worker {
                Some(w) => with_finished(old(self).workers@, w),
                None => old(self).workers@,
            }),
            final(self).queue@ == (if run.queued {
                old(self).queue@.ended(run.plan.task_id, run.status)
            } else {
                old(self).queue@
            }),
            final(self).loop_state.heartbeat == (if run.queued {
                Heartbeat {
                    last_task: Some(run.plan.task_id),
                    last_status: run.status,
                    ..old(self).loop_state.heartbeat
                }
            } else {
                old(self).loop_state.heartbeat
            }),
    {
        let ghost m0 = self.memory;
        let id = run.plan.task_id;
        self.memory.append_message(id, "assistant", run.output.as_str());
        let ghost m1 = self.memory;
        self.memory.update_task_status(id, run.status);
        proof {
            let op0 = MemoryOp::Message { task_id: id, role: "assistant"@, body: run.output@ };
            let op1 = MemoryOp::Status { id, status: run.status };
            lemma_performed_push(m0, seq![], m0, op0, m1);
            lemma_performed_push(m0, seq![].push(op0), m1, op1, self.memory);
            assert(seq![].push(op0).push(op1) =~= seq![op0, op1]);
        }
        match run.worker {
            Some(w) => {
                self.mark_worker_finished(w);
            },
            None => {},
        }
        if run.queued {
            self.queue.mark_finished(id, run.status);
            self.loop_state.tick_finished(Some(id), run.status);
        }
        AgentOutcome { task_id: id, status: run.status, output: run.output, pattern: run.pattern }
    }

    fn mark_worker_busy(&mut self, id: WorkerId)
        ensures
            final(self).workers@ == with_busy(old(self).workers@, id),
            *final(self) == (AgentOrchestrator { workers: final(self).workers, ..*old(self) }),
    {
        match find_worker(&self.workers, id) {
            Some(i) => {
                let w = WorkerAgent {
                    id: self.workers[i].id,
                    name: self.workers[i].name.clone(),
                    busy: true,
                    completed: self.workers[i].completed,
                };
                self.workers.set(i, w);
            },
            None => {},
        }
    }

    fn mark_worker_finished(&mut self, id: WorkerId)
        ensures
            final(self).workers@ == with_finished(old(self).workers@, id),
            *final(self) == (AgentOrchestrator { workers: final(self).workers, ..*old(self) }),
    {
        match find_worker(&self.workers, id) {
            Some(i) => {
                let w = WorkerAgent {
                    id: self.workers[i].id,
                    name: self.workers[i].name.clone(),
                    busy: false,
                    completed: count_up(self.workers[i].completed),
                };
                self.workers.set(i, w);
            },
            None => {},
        }
    }
}

/// The worker that a route occupies.
pub open spec fn busy_worker(route: GatewayTarget) -> Option<WorkerId> {
    match route {
        GatewayTarget::Worker(id) => Some(id),
        _ => None,
    }
}

proof fn lemma_stage_prefix(
    id: TaskId,
    input: Seq<char>,
    stages: Seq<PipelineStage>,
    recalls: Seq<ProgressiveModel>,
    replies: Seq<Seq<char>>,
    memory: ProgressiveModel,
    reply: Seq<char>,
    n: nat,
)
    requires
        n <= recalls.len(),
        recalls.len() == replies.len(),
    ensures
        stage_ops(id, input, stages, recalls.push(memory), replies.push(reply), n) == stage_ops(
            id,
            input,
            stages,
            recalls,
            replies,
            n,
        ),
        stage_calls(input, stages, recalls.push(memory), replies.push(reply), n) == stage_calls(
            input,
            stages,
            recalls,
            replies,
            n,
        ),
    decreases n,
{
    if n > 0 {
        lemma_stage_prefix(id, input, stages, recalls, replies, memory, reply, (n - 1) as nat);
    }
}

proof fn lemma_map_prefix(
    id: TaskId,
    input: Seq<char>,
    items: Seq<Seq<char>>,
    recalls: Seq<ProgressiveModel>,
    replies: Seq<Seq<char>>,
    memory: ProgressiveModel,
    reply: Seq<char>,
    n: nat,
)
    requires
        n <= recalls.len(),
        recalls.len() == replies.len(),
    ensures
        map_ops(id, items, recalls.push(memory), replies.push(reply), n) == map_ops(
            id,
            items,
            recalls,
            replies,
            n,
        ),
        map_calls(input, items, recalls.push(memory), replies.push(reply), n) == map_calls(
            input,
            items,
            recalls,
            replies,
            n,
        ),
    decreases n,
{
    if n > 0 {
        lemma_map_prefix(id, input, items, recalls, replies, memory, reply, (n - 1) as nat);
    }
}

impl<M: MemoryStore> AgentOrchestrator<M> {
    fn open_task(&mut self, input: &str) -> (task: Task)
        ensures
            performed(old(self).memory, opening_ops(input@, task), final(self).memory),
            *final(self) == (AgentOrchestrator { memory: final(self).memory, ..*old(self) }),
    {
        let ghost m0 = self.memory;
        let task = self.memory.create_task(input);
        let ghost m1 = self.memory;
        self.memory.update_task_status(task.id, TaskStatus::Running);
        let ghost m2 = self.memory;
        self.memory.append_message(task.id, "user", input);
        proof {
            let op0 = MemoryOp::Create { title: input@, task };
            let op1 = MemoryOp::Status { id: task.id, status: TaskStatus::Running };
            let op2 = MemoryOp::Message { task_id: task.id, role: "user"@, body: input@ };
            lemma_performed_push(m0, seq![], m0, op0, m1);
            lemma_performed_push(m0, seq![].push(op0), m1, op1, m2);
            lemma_performed_push(m0, seq![].push(op0).push(op1), m2, op2, self.memory);
            assert(seq![].push(op0).push(op1).push(op2) =~= opening_ops(input@, task));
        }
        task
    }

    fn close_task(&mut self, id: TaskId, output: &str)
        ensures
            performed(old(self).memory, closing_ops(id, output@), final(self).memory),
            *final(self) == (AgentOrchestrator { memory: final(self).memory, ..*old(self) }),
    {
        let ghost m0 = self.memory;
        self.memory.append_message(id, "assistant", output);
        let ghost m1 = self.memory;
        self.memory.update_task_status(id, TaskStatus::Done);
        proof {
            let op0 = MemoryOp::Message { task_id: id, role: "assistant"@, body: output@ };
            let op1 = MemoryOp::Status { id, status: TaskStatus::Done };
            lemma_performed_push(m0, seq![], m0, op0, m1);
            lemma_performed_push(m0, seq![].push(op0), m1, op1, self.memory);
            assert(seq![].push(op0).push(op1) =~= closing_ops(id, output@));
        }
    }

    /// Runs a pipeline: every stage is asked about what the stage before it gave.
    pub fn run_pipeline<L: LlmClient>(
        &mut self,
        input: &str,
        stages: &[PipelineStage],
        llm: &mut L,
    ) -> (r: PipelineReport)
        ensures
            r.stages_run == stages@.len(),
            exists|task: Task, recalls: Seq<ProgressiveModel>, replies: Seq<Seq<char>>|
                {
                    &&& #[trigger] pipeline_run(
                        old(self).memory,
                        final(self).memory,
                        *old(llm),
                        *final(llm),
                        input@,
                        stages@,
                        task,
                        recalls,
                        replies,
                    )
                    &&& r.task_id == task.id
                    &&& r.output@ == handed(input@, replies, stages@.len() as int)
                },
            *final(self) == (AgentOrchestrator { memory: final(self).memory, ..*old(self) }),
    {
        let ghost m0 = self.memory;
        let ghost l0 = *llm;
        let ghost start = *self;
        let task = self.open_task(input);
        let id = task.id;
        let ghost head = opening_ops(input@, task);
        let ghost mut recalls: Seq<ProgressiveModel> = Seq::empty();
        let ghost mut replies: Seq<Seq<char>> = Seq::empty();
        let mut current = input.to_owned();
        let mut i: usize = 0;
        assert(head + Seq::<MemoryOp>::empty() =~= head);
        while i < stages.len()
            invariant
                i <= stages.len(),
                recalls.len() == i,
                replies.len() == i,
                id == task.id,
                current@ == handed(input@, replies, i as int),
                performed(
                    m0,
                    head + stage_ops(id, input@, stages@, recalls, replies, i as nat),
                    self.memory,
                ),
                conversed(l0, stage_calls(input@, stages@, recalls, replies, i as nat), *llm),
                *self == (AgentOrchestrator { memory: self.memory, ..start }),
            decreases stages.len() - i,
        {
            let ghost ops = head + stage_ops(id, input@, stages@, recalls, replies, i as nat);
            let ghost calls = stage_calls(input@, stages@, recalls, replies, i as nat);
            let ghost m1 = self.memory;
            let ghost l1 = *llm;
            let stage = &stages[i];
            let memory = recall(&self.memory, current.as_str());
            let mut prompt = "Pipeline stage '".to_owned();
            prompt.append(stage.name.as_str());
            prompt.append("'. Use progressive memory index first, then selected details.\n");
            prompt.append(memory.render().as_str());
            prompt.append("\nInput:\n");
            prompt.append(current.as_str());
            prompt.append("\nInstruction:\n");
            prompt.append(stage.input.as_str());
            let ghost op0 = recall_of(current@, memory@);
            let ghost p = prompt@;
            current = llm.next_step(prompt.as_str());
            self.memory.append_message(id, stage.name.as_str(), current.as_str());
            proof {
                let op1 = MemoryOp::Message { task_id: id, role: stage.name@, body: current@ };
                lemma_performed_push(m0, ops, m1, op0, m1);
                lemma_performed_push(m0, ops.push(op0), m1, op1, self.memory);
                lemma_conversed_push(l0, calls, l1, question(p, current@), *llm);
                lemma_stage_prefix(
                    id,
                    input@,
                    stages@,
                    recalls,
                    replies,
                    memory@,
                    current@,
                    i as nat,
                );
                let more = recalls.push(memory@);
                let said = replies.push(current@);
                assert(handed(input@, said, i as int) == handed(input@, replies, i as int));
                assert(head + stage_ops(id, input@, stages@, more, said, (i + 1) as nat)
                    =~= ops.push(op0).push(op1));
                recalls = more;
                replies = said;
            }
            i += 1;
        }
        let ghost ops = head + stage_ops(id, input@, stages@, recalls, replies, i as nat);
        let ghost m1 = self.memory;
        self.close_task(id, current.as_str());
        proof {
            crate::memory::lemma_performed_concat(
                m0,
                ops,
                m1,
                closing_ops(id, current@),
                self.memory,
            );
            assert(pipeline_run(
                m0,
                self.memory,
                l0,
                *llm,
                input@,
                stages@,
                task,
                recalls,
                replies,
            ));
        }
        PipelineReport { task_id: id, stages_run: stages.len(), output: current }
    }

    /// Maps every item on its own, and reduces the replies to one output.
    pub fn run_map_reduce<L: LlmClient>(
        &mut self,
        input: &str,
        items: &[String],
        llm: &mut L,
    ) -> (r: MapReduceReport)
        ensures
            r.mapped == items@.len(),
            exists|
                task: Task,
                recalls: Seq<ProgressiveModel>,
                replies: Seq<Seq<char>>,
                last: ProgressiveModel,
            |
                {
                    &&& #[trigger] map_reduce_run(
                        old(self).memory,
                        final(self).memory,
                        *old(llm),
                        *final(llm),
                        input@,
                        chars::owned_texts(items@),
                        task,
                        recalls,
                        replies,
                        last,
                        r.output@,
                    )
                    &&& r.task_id == task.id
                },
            *final(self) == (AgentOrchestrator { memory: final(self).memory, ..*old(self) }),
    {
        let ghost m0 = self.memory;
        let ghost l0 = *llm;
        let ghost start = *self;
        let ghost all = chars::owned_texts(items@);
        let task = self.open_task(input);
        let id = task.id;
        let ghost head = opening_ops(input@, task);
        let ghost mut recalls: Seq<ProgressiveModel> = Seq::empty();
        let mut mapped: Vec<String> = Vec::new();
        let mut i: usize = 0;
        assert(head + Seq::<MemoryOp>::empty() =~= head);
        assert(chars::owned_texts(mapped@) =~= Seq::empty());
        while i < items.len()
            invariant
                i <= items.len(),
                all == chars::owned_texts(items@),
                recalls.len() == i,
                mapped@.len() == i,
                id == task.id,
                performed(
                    m0,
                    head + map_ops(id, all, recalls, chars::owned_texts(mapped@), i as nat),
                    self.memory,
                ),
                conversed(
                    l0,
                    map_calls(input@, all, recalls, chars::owned_texts(mapped@), i as nat),
                    *llm,
                ),
                *self == (AgentOrchestrator { memory: self.memory, ..start }),
            decreases items.len() - i,
        {
            let ghost replies = chars::owned_texts(mapped@);
            let ghost ops = head + map_ops(id, all, recalls, replies, i as nat);
            let ghost calls = map_calls(input@, all, recalls, replies, i as nat);
            let ghost m1 = self.memory;
            let ghost l1 = *llm;
            let item = items[i].as_str();
            assert(all[i as int] == item@);
            let memory = recall(&self.memory, item);
            let mut prompt = "Map this item for task '".to_owned();
            prompt.append(input);
            prompt.append("'. Use progressive memory only if relevant.\n");
            prompt.append(memory.render().as_str());
            prompt.append("\nItem:\n");
            prompt.append(item);
            let ghost p = prompt@;
            let output = llm.next_step(prompt.as_str());
            self.memory.append_message(id, "map-worker", output.as_str());
            let ghost said = output@;
            mapped.push(output);
            proof {
                let op0 = recall_of(item@, memory@);
                let op1 = MemoryOp::Message { task_id: id, role: "map-worker"@, body: said };
                lemma_performed_push(m0, ops, m1, op0, m1);
                lemma_performed_push(m0, ops.push(op0), m1, op1, self.memory);
                lemma_conversed_push(l0, calls, l1, question(p, said), *llm);
                lemma_map_prefix(id, input@, all, recalls, replies, memory@, said, i as nat);
                let more = recalls.push(memory@);
                assert(chars::owned_texts(mapped@) =~= replies.push(said));
                assert(head + map_ops(id, all, more, replies.push(said), (i + 1) as nat)
                    =~= ops.push(op0).push(op1));
                recalls = more;
            }
            i += 1;
        }
        let ghost replies = chars::owned_texts(mapped@);
        let ghost ops = head + map_ops(id, all, recalls, replies, i as nat);
        let ghost calls = map_calls(input@, all, recalls, replies, i as nat);
        let ghost m1 = self.memory;
        let ghost l1 = *llm;
        let memory = recall(&self.memory, input);
        let mut prompt = "Reduce these ".to_owned();
        prompt.append(numbers::usize_text(mapped.len()).as_str());
        prompt.append(
            " mapped results into one concise answer. Use progressive memory for continuity.\n",
        );
        prompt.append(memory.render().as_str());
        prompt.append("\nMapped results:\n");
        prompt.append(text::join_owned(&mapped, "\n---\n").as_str());
        let ghost p = prompt@;
        let output = llm.next_step(prompt.as_str());
        self.close_task(id, output.as_str());
        proof {
            let op0 = recall_of(input@, memory@);
            lemma_performed_push(m0, ops, m1, op0, m1);
            crate::memory::lemma_performed_concat(
                m0,
                ops.push(op0),
                m1,
                closing_ops(id, output@),
                self.memory,
            );
            lemma_conversed_push(l0, calls, l1, question(p, output@), *llm);
            assert(map_reduce_run(
                m0,
                self.memory,
                l0,
                *llm,
                input@,
                chars::owned_texts(items@),
                task,
                recalls,
                replies,
                memory@,
                output@,
            ));
        }
        let r = MapReduceReport { task_id: id, mapped: mapped.len(), output };
        assert(r.output@ == output@);
        r
    }
}

}
