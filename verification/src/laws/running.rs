//! Promises of the agent loop: where tasks go, what their stages are asked, and how
//! they end.
use vstd::prelude::*;

use crate::agent::{
    closing_ops, handed, map_calls, map_ops, map_prompt, map_reduce_run, opening_ops, pattern_on,
    pipeline_run, queuing_ops, recall_of, reduce_prompt, stage_calls, stage_ops, stage_prompt,
    step_failure, task_status_after, with_busy, with_finished, worker_at, AgentOrchestrator,
};
use crate::chars;
use crate::laws::recall::lemma_performed_split;
use crate::laws::texts::{
    law_find_is_first_occurrence, law_joined_parts_stand_in_whole, law_prefix_stands_first,
    lemma_part, lemma_within, occurs, stands_at,
};
use crate::llm::{ChatCall, LlmClient, Turn};
use crate::memory::{
    law_operations_keep_bounds, performed, performs, InMemoryStore, MemoryOp, MemoryStore,
    MessageModel, ProgressiveModel,
};
use crate::numbers;
use crate::orchestration::{
    default_routes, idle_worker, next_count, routed_to, target_of, GatewayTarget, PipelineStage,
    QueueModel, Route, WorkerAgent,
};
use crate::types::{AgentPattern, StepStatus, Task, TaskId, TaskStatus, WorkerId};

verus! {

// ---------------------------------------------------------------------------
// Routes
// ---------------------------------------------------------------------------

proof fn lemma_routed(routes: Seq<Route>, input: Seq<char>, i: int)
    requires
        0 <= i <= routes.len(),
        forall|j: int|
            0 <= j < i ==> !stands_at(chars::trim_start(input), (#[trigger] routes[j]).0, 0),
        i < routes.len() ==> stands_at(chars::trim_start(input), routes[i].0, 0),
    ensures
        routed_to(routes, input) == (if i < routes.len() {
            Some(routes[i].1)
        } else {
            None
        }),
    decreases routes.len(),
{
    if routes.len() > 0 {
        law_prefix_stands_first(chars::trim_start(input), routes[0].0);
        if i > 0 {
            assert(!stands_at(chars::trim_start(input), routes[0].0, 0));
            let rest = routes.skip(1);
            assert forall|j: int| 0 <= j < i - 1 implies !stands_at(
                chars::trim_start(input),
                (#[trigger] rest[j]).0,
                0,
            ) by {
                assert(rest[j] == routes[j + 1]);
            }
            if i < routes.len() {
                assert(rest[i - 1] == routes[i]);
            }
            lemma_routed(rest, input, i - 1);
        }
    }
}

/// An input goes where the first route says that it starts with, white space in
/// front of it aside.
pub proof fn law_first_route_counts(
    routes: Seq<Route>,
    workers: Seq<WorkerAgent>,
    input: Seq<char>,
    i: int,
)
    requires
        0 <= i < routes.len(),
        stands_at(chars::trim_start(input), routes[i].0, 0),
        forall|j: int|
            0 <= j < i ==> !stands_at(chars::trim_start(input), (#[trigger] routes[j]).0, 0),
    ensures
        target_of(routes, workers, input) == routes[i].1,
{
    lemma_routed(routes, input, i);
}

/// An input that starts with no route goes to the first worker that is not busy,
/// and to the coordinator where all are.
pub proof fn law_unrouted_input_goes_to_an_idle_worker(
    routes: Seq<Route>,
    workers: Seq<WorkerAgent>,
    input: Seq<char>,
    k: int,
)
    requires
        forall|j: int|
            0 <= j < routes.len() ==> !stands_at(
                chars::trim_start(input),
                (#[trigger] routes[j]).0,
                0,
            ),
        0 <= k <= workers.len(),
        forall|j: int| 0 <= j < k ==> (#[trigger] workers[j]).busy,
        k < workers.len() ==> !workers[k].busy,
    ensures
        target_of(routes, workers, input) == (if k < workers.len() {
            GatewayTarget::Worker(workers[k].id)
        } else {
            GatewayTarget::Coordinator
        }),
{
    lemma_routed(routes, input, routes.len() as int);
    lemma_idle(workers, k);
}

proof fn lemma_idle(workers: Seq<WorkerAgent>, k: int)
    requires
        0 <= k <= workers.len(),
        forall|j: int| 0 <= j < k ==> (#[trigger] workers[j]).busy,
        k < workers.len() ==> !workers[k].busy,
    ensures
        idle_worker(workers) == (if k < workers.len() {
            Some(workers[k].id)
        } else {
            None
        }),
    decreases workers.len(),
{
    if k > 0 {
        assert(workers[0].busy);
        let rest = workers.skip(1);
        assert forall|j: int| 0 <= j < k - 1 implies (#[trigger] rest[j]).busy by {
            assert(rest[j] == workers[j + 1]);
        }
        if k < workers.len() {
            assert(rest[k - 1] == workers[k]);
        }
        lemma_idle(rest, k - 1);
    }
}

/// At first, pipelines, map-reduces and programs have routes of their own.
pub proof fn law_first_routes(workers: Seq<WorkerAgent>, input: Seq<char>)
    ensures
        ({
            let t = chars::trim_start(input);
            let target = target_of(default_routes(), workers, input);
            &&& stands_at(t, "/pipeline"@, 0) ==> target == GatewayTarget::Pipeline
            &&& stands_at(t, "/map"@, 0) ==> target == GatewayTarget::MapReduce
            &&& stands_at(t, "/reduce"@, 0) ==> target == GatewayTarget::MapReduce
            &&& stands_at(t, "/exec"@, 0) ==> target == GatewayTarget::Coordinator
        }),
{
    let t = chars::trim_start(input);
    let r = default_routes();
    reveal_strlit("/pipeline");
    reveal_strlit("/map");
    reveal_strlit("/reduce");
    reveal_strlit("/exec");
    lemma_second(t, "/pipeline"@);
    lemma_second(t, "/map"@);
    lemma_second(t, "/reduce"@);
    lemma_second(t, "/exec"@);
    if stands_at(t, "/pipeline"@, 0) {
        lemma_routed(r, input, 0);
    } else if stands_at(t, "/map"@, 0) {
        lemma_routed(r, input, 1);
    } else if stands_at(t, "/reduce"@, 0) {
        lemma_routed(r, input, 2);
    } else if stands_at(t, "/exec"@, 0) {
        lemma_routed(r, input, 3);
    }
}

proof fn lemma_second(t: Seq<char>, p: Seq<char>)
    requires
        p.len() > 1,
    ensures
        stands_at(t, p, 0) ==> t.len() > 1 && t[1] == p[1],
{
    if stands_at(t, p, 0) {
        assert(t.subrange(0, p.len() as int)[1] == p[1]);
    }
}

/// A route fixes the pattern of a queued task; only a worker keeps the one that
/// was picked.
pub proof fn law_routes_fix_patterns(route: GatewayTarget, picked: AgentPattern)
    ensures
        pattern_on(route, picked) == picked || !(route is Worker),
        route is Worker ==> pattern_on(route, picked) == picked,
        route is Pipeline ==> pattern_on(route, picked) == AgentPattern::Pipeline,
        route is MapReduce ==> pattern_on(route, picked) == AgentPattern::MapReduce,
        route is Coordinator ==> pattern_on(route, picked) == AgentPattern::HubAndSpoke,
{
}

// ---------------------------------------------------------------------------
// Workers and the queue
// ---------------------------------------------------------------------------

proof fn lemma_worker_at(workers: Seq<WorkerAgent>, id: WorkerId, from: int, i: int)
    requires
        0 <= from <= i < workers.len(),
        workers[i].id == id,
        forall|j: int| from <= j < i ==> (#[trigger] workers[j]).id != id,
    ensures
        worker_at(workers, id, from) == Some(i),
    decreases i - from,
{
    if from < i {
        assert(workers[from].id != id);
        lemma_worker_at(workers, id, from + 1, i);
    }
}

/// The worker that is given a task is busy and keeps its count; one that has
/// finished is free and has counted one more. No other worker changes.
pub proof fn law_one_worker_changes(workers: Seq<WorkerAgent>, id: WorkerId, i: int)
    requires
        0 <= i < workers.len(),
        workers[i].id == id,
        forall|j: int| 0 <= j < i ==> (#[trigger] workers[j]).id != id,
    ensures
        ({
            let a = with_busy(workers, id);
            let b = with_finished(workers, id);
            &&& a.len() == workers.len() && b.len() == workers.len()
            &&& a[i].busy && a[i].completed == workers[i].completed && a[i].id == id
            &&& !b[i].busy && b[i].id == id
            &&& workers[i].completed < u64::MAX ==> b[i].completed == workers[i].completed + 1
            &&& workers[i].completed == u64::MAX ==> b[i].completed == u64::MAX
            &&& a[i].name == workers[i].name && b[i].name == workers[i].name
            &&& forall|j: int|
                0 <= j < workers.len() && j != i ==> #[trigger] a[j] == workers[j] && b[j]
                    == workers[j]
        }),
{
    lemma_worker_at(workers, id, 0, i);
}

/// A task that is given to a worker and finished leaves the worker as it was, but
/// for the count.
pub proof fn law_worker_is_free_again(workers: Seq<WorkerAgent>, id: WorkerId, i: int)
    requires
        0 <= i < workers.len(),
        workers[i].id == id,
        !workers[i].busy,
        workers[i].completed < u64::MAX,
        forall|j: int| 0 <= j < i ==> (#[trigger] workers[j]).id != id,
    ensures
        with_finished(with_busy(workers, id), id) == workers.update(
            i,
            WorkerAgent { completed: (workers[i].completed + 1) as u64, ..workers[i] },
        ),
{
    let a = with_busy(workers, id);
    lemma_worker_at(workers, id, 0, i);
    assert forall|j: int| 0 <= j < i implies (#[trigger] a[j]).id != id by {
        assert(a[j] == workers[j]);
    }
    lemma_worker_at(a, id, 0, i);
    assert(with_finished(a, id) =~= workers.update(
        i,
        WorkerAgent { completed: (workers[i].completed + 1) as u64, ..workers[i] },
    ));
}

/// A task that ended is remembered by how it ended, and nothing else of the queue
/// changes.
pub proof fn law_ends_are_remembered(q: QueueModel, id: TaskId, status: TaskStatus, n: u64)
    ensures
        q.ended(id, status).pending == q.pending,
        q.ended(id, status).completed.contains(n) == (q.completed.contains(n) || n == id.0 && status
            == TaskStatus::Done),
        q.ended(id, status).failed.contains(n) == (q.failed.contains(n) || n == id.0 && status
            == TaskStatus::Failed),
{
}

/// Without dependencies a task is ready at once, and an unfinished dependency
/// keeps it waiting.
pub proof fn law_dependencies_are_waited_for(
    q: QueueModel,
    task: crate::orchestration::QueuedTask,
    k: int,
)
    ensures
        task.dependencies@.len() == 0 ==> q.is_ready(task),
        0 <= k < task.dependencies@.len() && !q.completed.contains(task.dependencies@[k].0)
            ==> !q.is_ready(task),
{
}

/// A step that succeeded lets the task go on; a denied one leaves it waiting, and
/// any other failure fails it.
pub proof fn law_steps_decide_the_task(ok: bool, output: Seq<char>)
    ensures
        task_status_after(ok, output) == TaskStatus::Done <==> ok,
        !ok && occurs(output, "denied"@) ==> task_status_after(ok, output) == TaskStatus::Waiting,
        !ok && !occurs(output, "denied"@) ==> task_status_after(ok, output) == TaskStatus::Failed,
        step_failure(output) == StepStatus::Denied <==> occurs(output, "denied"@),
{
    law_find_is_first_occurrence(output, "denied"@);
}

/// Counts go up by one and stop at their end.
pub proof fn law_counts_go_up(n: u64)
    ensures
        n < u64::MAX ==> next_count(n) == n + 1,
        n == u64::MAX ==> next_count(n) == n,
{
}

// ---------------------------------------------------------------------------
// Pipelines and map-reduces
// ---------------------------------------------------------------------------

/// Every stage of a pipeline is asked once, in order: its question has the stage's
/// name and instruction, the memory that was recalled, and what the stage before
/// it replied, the first stage the input.
pub proof fn law_stages_hand_on_their_replies(
    input: Seq<char>,
    stages: Seq<PipelineStage>,
    recalls: Seq<ProgressiveModel>,
    replies: Seq<Seq<char>>,
    n: nat,
    i: int,
)
    requires
        0 <= i < n,
        n <= stages.len(),
    ensures
        ({
            let calls = stage_calls(input, stages, recalls, replies, n);
            &&& calls.len() == n
            &&& calls[i].reply == replies[i]
            &&& calls[i].messages.len() == 1
            &&& calls[i].messages[0].role == "user"@
            &&& occurs(calls[i].messages[0].content, stages[i].name@)
            &&& occurs(calls[i].messages[0].content, stages[i].input@)
            &&& occurs(calls[i].messages[0].content, recalls[i].rendered())
            &&& i == 0 ==> occurs(calls[i].messages[0].content, input)
            &&& i > 0 ==> occurs(calls[i].messages[0].content, replies[i - 1])
        }),
    decreases n,
{
    let m = (n - 1) as nat;
    let before = stage_calls(input, stages, recalls, replies, m);
    if i < n - 1 {
        law_stages_hand_on_their_replies(input, stages, recalls, replies, m, i);
    } else {
        lemma_stage_count(input, stages, recalls, replies, m);
        lemma_stage_prompt(stages[i], recalls[i], handed(input, replies, i));
    }
}

proof fn lemma_stage_count(
    input: Seq<char>,
    stages: Seq<PipelineStage>,
    recalls: Seq<ProgressiveModel>,
    replies: Seq<Seq<char>>,
    n: nat,
)
    ensures
        stage_calls(input, stages, recalls, replies, n).len() == n,
    decreases n,
{
    if n > 0 {
        lemma_stage_count(input, stages, recalls, replies, (n - 1) as nat);
    }
}

proof fn lemma_stage_prompt(stage: PipelineStage, memory: ProgressiveModel, current: Seq<char>)
    ensures
        occurs(stage_prompt(stage, memory, current), stage.name@),
        occurs(stage_prompt(stage, memory, current), stage.input@),
        occurs(stage_prompt(stage, memory, current), memory.rendered()),
        occurs(stage_prompt(stage, memory, current), current),
{
    lemma_four(
        "Pipeline stage '"@,
        stage.name@,
        "'. Use progressive memory index first, then selected details.\n"@,
        memory.rendered(),
        "\nInput:\n"@,
        current,
        "\nInstruction:\n"@,
        stage.input@,
        seq![],
    );
    let all = stage_prompt(stage, memory, current);
    assert(all + Seq::<char>::empty() =~= all);
}

pub(crate) proof fn lemma_four(
    p1: Seq<char>,
    s1: Seq<char>,
    p2: Seq<char>,
    s2: Seq<char>,
    p3: Seq<char>,
    s3: Seq<char>,
    p4: Seq<char>,
    s4: Seq<char>,
    p5: Seq<char>,
)
    ensures
        occurs(p1 + s1 + p2 + s2 + p3 + s3 + p4 + s4 + p5, s1),
        occurs(p1 + s1 + p2 + s2 + p3 + s3 + p4 + s4 + p5, s2),
        occurs(p1 + s1 + p2 + s2 + p3 + s3 + p4 + s4 + p5, s3),
        occurs(p1 + s1 + p2 + s2 + p3 + s3 + p4 + s4 + p5, s4),
{
    let all = p1 + s1 + p2 + s2 + p3 + s3 + p4 + s4 + p5;
    lemma_part(p1, s1, p2 + s2 + p3 + s3 + p4 + s4 + p5);
    assert(p1 + s1 + (p2 + s2 + p3 + s3 + p4 + s4 + p5) =~= all);
    lemma_part(p1 + s1 + p2, s2, p3 + s3 + p4 + s4 + p5);
    assert(p1 + s1 + p2 + s2 + (p3 + s3 + p4 + s4 + p5) =~= all);
    lemma_part(p1 + s1 + p2 + s2 + p3, s3, p4 + s4 + p5);
    assert(p1 + s1 + p2 + s2 + p3 + s3 + (p4 + s4 + p5) =~= all);
    lemma_part(p1 + s1 + p2 + s2 + p3 + s3 + p4, s4, p5);
}

/// What every stage replied is recorded under the stage's name, in order, each
/// behind a recall for what the stage was handed.
pub proof fn law_stages_are_recorded(
    id: TaskId,
    input: Seq<char>,
    stages: Seq<PipelineStage>,
    recalls: Seq<ProgressiveModel>,
    replies: Seq<Seq<char>>,
    n: nat,
    i: int,
)
    requires
        0 <= i < n,
    ensures
        ({
            let ops = stage_ops(id, input, stages, recalls, replies, n);
            &&& ops.len() == 2 * n
            &&& ops[2 * i + 1] == (MemoryOp::Message {
                task_id: id,
                role: stages[i].name@,
                body: replies[i],
            })
            &&& ops[2 * i] matches MemoryOp::Recall { query, memory, .. } && memory == recalls[i]
                && query == (if i == 0 {
                input
            } else {
                replies[i - 1]
            })
        }),
    decreases n,
{
    let m = (n - 1) as nat;
    lemma_stage_ops_count(id, input, stages, recalls, replies, m);
    if i < n - 1 {
        law_stages_are_recorded(id, input, stages, recalls, replies, m, i);
    }
}

proof fn lemma_stage_ops_count(
    id: TaskId,
    input: Seq<char>,
    stages: Seq<PipelineStage>,
    recalls: Seq<ProgressiveModel>,
    replies: Seq<Seq<char>>,
    n: nat,
)
    ensures
        stage_ops(id, input, stages, recalls, replies, n).len() == 2 * n,
    decreases n,
{
    if n > 0 {
        lemma_stage_ops_count(id, input, stages, recalls, replies, (n - 1) as nat);
    }
}

/// What a pipeline gives is what its last stage replied, and its input where it
/// has no stage.
pub proof fn law_last_reply_is_the_output(input: Seq<char>, replies: Seq<Seq<char>>)
    ensures
        replies.len() == 0 ==> handed(input, replies, replies.len() as int) == input,
        replies.len() > 0 ==> handed(input, replies, replies.len() as int) == replies.last(),
{
}

/// Every item of a map is asked about once, in order: its question has the item,
/// the task, and the memory that was recalled.
pub proof fn law_items_are_asked_about_one_by_one(
    input: Seq<char>,
    items: Seq<Seq<char>>,
    recalls: Seq<ProgressiveModel>,
    replies: Seq<Seq<char>>,
    n: nat,
    i: int,
)
    requires
        0 <= i < n,
    ensures
        ({
            let calls = map_calls(input, items, recalls, replies, n);
            &&& calls.len() == n
            &&& calls[i].reply == replies[i]
            &&& calls[i].messages.len() == 1
            &&& calls[i].messages[0].role == "user"@
            &&& occurs(calls[i].messages[0].content, items[i])
            &&& occurs(calls[i].messages[0].content, input)
            &&& occurs(calls[i].messages[0].content, recalls[i].rendered())
        }),
    decreases n,
{
    let m = (n - 1) as nat;
    lemma_map_count(input, items, recalls, replies, m);
    if i < n - 1 {
        law_items_are_asked_about_one_by_one(input, items, recalls, replies, m, i);
    } else {
        lemma_four(
            "Map this item for task '"@,
            input,
            "'. Use progressive memory only if relevant.\n"@,
            recalls[i].rendered(),
            "\nItem:\n"@,
            items[i],
            seq![],
            seq![],
            seq![],
        );
        let all = map_prompt(input, recalls[i], items[i]);
        let none = Seq::<char>::empty();
        assert(all + none + none + none =~= all);
    }
}

proof fn lemma_map_count(
    input: Seq<char>,
    items: Seq<Seq<char>>,
    recalls: Seq<ProgressiveModel>,
    replies: Seq<Seq<char>>,
    n: nat,
)
    ensures
        map_calls(input, items, recalls, replies, n).len() == n,
    decreases n,
{
    if n > 0 {
        lemma_map_count(input, items, recalls, replies, (n - 1) as nat);
    }
}

/// The mapped results are recorded in order, each behind a recall for its item.
pub proof fn law_mapped_results_are_recorded(
    id: TaskId,
    items: Seq<Seq<char>>,
    recalls: Seq<ProgressiveModel>,
    replies: Seq<Seq<char>>,
    n: nat,
    i: int,
)
    requires
        0 <= i < n,
    ensures
        ({
            let ops = map_ops(id, items, recalls, replies, n);
            &&& ops.len() == 2 * n
            &&& ops[2 * i + 1] == (MemoryOp::Message {
                task_id: id,
                role: "map-worker"@,
                body: replies[i],
            })
            &&& ops[2 * i] matches MemoryOp::Recall { query, memory, .. } && memory == recalls[i]
                && query == items[i]
        }),
    decreases n,
{
    let m = (n - 1) as nat;
    lemma_map_ops_count(id, items, recalls, replies, m);
    if i < n - 1 {
        law_mapped_results_are_recorded(id, items, recalls, replies, m, i);
    }
}

proof fn lemma_map_ops_count(
    id: TaskId,
    items: Seq<Seq<char>>,
    recalls: Seq<ProgressiveModel>,
    replies: Seq<Seq<char>>,
    n: nat,
)
    ensures
        map_ops(id, items, recalls, replies, n).len() == 2 * n,
    decreases n,
{
    if n > 0 {
        lemma_map_ops_count(id, items, recalls, replies, (n - 1) as nat);
    }
}

/// The question that reduces the mapped results has every one of them, how many
/// they are, and the memory that was recalled.
pub proof fn law_every_mapped_result_is_reduced(
    memory: ProgressiveModel,
    mapped: Seq<Seq<char>>,
    i: int,
)
    requires
        0 <= i < mapped.len(),
    ensures
        occurs(reduce_prompt(memory, mapped), mapped[i]),
        occurs(reduce_prompt(memory, mapped), numbers::decimal(mapped.len())),
        occurs(reduce_prompt(memory, mapped), memory.rendered()),
{
    let joined = chars::join(mapped, "\n---\n"@);
    law_joined_parts_stand_in_whole(mapped, "\n---\n"@, i);
    lemma_four(
        "Reduce these "@,
        numbers::decimal(mapped.len()),
        " mapped results into one concise answer. Use progressive memory for continuity.\n"@,
        memory.rendered(),
        "\nMapped results:\n"@,
        joined,
        seq![],
        seq![],
        seq![],
    );
    let all = reduce_prompt(memory, mapped);
    let none = Seq::<char>::empty();
    assert(all + none + none + none =~= all);
    lemma_within(all, joined, mapped[i]);
}

/// A supervised task is created under its input, runs, has the input recorded as
/// the user's message, and ends with the output as the assistant's and its status
/// done. A queued task is created and has its input recorded.
pub proof fn law_tasks_are_opened_and_closed(input: Seq<char>, task: Task, output: Seq<char>)
    ensures
        opening_ops(input, task).contains(MemoryOp::Create { title: input, task }),
        opening_ops(input, task).contains(
            MemoryOp::Message { task_id: task.id, role: "user"@, body: input },
        ),
        opening_ops(input, task).contains(
            MemoryOp::Status { id: task.id, status: TaskStatus::Running },
        ),
        opening_ops(input, task).len() == 3,
        closing_ops(task.id, output).contains(
            MemoryOp::Message { task_id: task.id, role: "assistant"@, body: output },
        ),
        closing_ops(task.id, output).last() == (MemoryOp::Status {
            id: task.id,
            status: TaskStatus::Done,
        }),
        closing_ops(task.id, output).len() == 2,
        queuing_ops(input, task).contains(MemoryOp::Create { title: input, task }),
        queuing_ops(input, task).contains(
            MemoryOp::Message { task_id: task.id, role: "user"@, body: input },
        ),
        queuing_ops(input, task).len() == 2,
{
    let a = opening_ops(input, task);
    let b = closing_ops(task.id, output);
    let c = queuing_ops(input, task);
    assert(a[0] == (MemoryOp::Create { title: input, task }));
    assert(a[1] == (MemoryOp::Status { id: task.id, status: TaskStatus::Running }));
    assert(a[2] == (MemoryOp::Message { task_id: task.id, role: "user"@, body: input }));
    assert(b[0] == (MemoryOp::Message { task_id: task.id, role: "assistant"@, body: output }));
    assert(c[0] == (MemoryOp::Create { title: input, task }));
    assert(c[1] == (MemoryOp::Message { task_id: task.id, role: "user"@, body: input }));
}

/// A recall asks for what it was given, with the limits of the orchestrator.
pub proof fn law_recalls_ask_for_their_query(query: Seq<char>, memory: ProgressiveModel)
    ensures
        recall_of(query, memory) matches MemoryOp::Recall {
            query: q,
            index_limit,
            detail_limit,
            detail_bytes,
            memory: m,
        } && q == query && m == memory && index_limit == 12 && detail_limit == 4 && detail_bytes
            == 512,
{
}

/// A queued task stands last, under its input, with its dependencies and its
/// pattern, and the tasks before it stay.
pub proof fn law_queued_task_stands_last<M: MemoryStore>(
    pre: AgentOrchestrator<M>,
    post: AgentOrchestrator<M>,
    input: Seq<char>,
    dependencies: Seq<TaskId>,
    pattern: AgentPattern,
    id: TaskId,
)
    requires
        AgentOrchestrator::<M>::enqueued(pre, post, input, dependencies, pattern, id),
    ensures
        post.queue@.pending.len() == pre.queue@.pending.len() + 1,
        post.queue@.pending.last().id == id,
        post.queue@.pending.last().input@ == input,
        post.queue@.pending.last().dependencies@ == dependencies,
        post.queue@.pending.last().pattern == pattern,
        forall|i: int|
            0 <= i < pre.queue@.pending.len() ==> #[trigger] post.queue@.pending[i]
                == pre.queue@.pending[i],
{
    assert forall|i: int| 0 <= i < pre.queue@.pending.len() implies #[trigger] post.queue@.pending[i]
        == pre.queue@.pending[i] by {
        assert(post.queue@.pending.drop_last()[i] == post.queue@.pending[i]);
    }
}

proof fn lemma_closed(pre: InMemoryStore, post: InMemoryStore, id: TaskId, output: Seq<char>)
    requires
        pre.wf(),
        pre@.max_records > 0,
        performed(pre, closing_ops(id, output), post),
    ensures
        post@.messages.last() == (MessageModel { task_id: id, role: "assistant"@, body: output }),
{
    let ops = closing_ops(id, output);
    let mid = choose|mid: InMemoryStore|
        performed(pre, ops.drop_last(), mid) && #[trigger] performs(mid, ops.last(), post);
    let one = ops.drop_last();
    let start = choose|start: InMemoryStore|
        performed(pre, one.drop_last(), start) && #[trigger] performs(start, one.last(), mid);
    assert(start == pre);
    crate::laws::recall::law_recorded_message_joins_the_others(
        pre,
        mid,
        id,
        "assistant"@,
        output,
    );
    assert(post@.messages == mid@.messages);
}

/// A pipeline leaves what its last stage replied as the last message of its task,
/// said by the assistant.
pub proof fn law_pipeline_leaves_its_output<L: LlmClient>(
    pre: InMemoryStore,
    post: InMemoryStore,
    llm_pre: L,
    llm_post: L,
    input: Seq<char>,
    stages: Seq<PipelineStage>,
    task: Task,
    recalls: Seq<ProgressiveModel>,
    replies: Seq<Seq<char>>,
)
    requires
        pre.wf(),
        pre@.max_records > 0,
        stages.len() > 0,
        pipeline_run(pre, post, llm_pre, llm_post, input, stages, task, recalls, replies),
    ensures
        post@.messages.last() == (MessageModel {
            task_id: task.id,
            role: "assistant"@,
            body: replies.last(),
        }),
{
    let first = opening_ops(input, task) + stage_ops(
        task.id,
        input,
        stages,
        recalls,
        replies,
        stages.len(),
    );
    let mid = lemma_performed_split(pre, first, closing_ops(task.id, replies.last()), post);
    law_operations_keep_bounds(pre, first, mid);
    lemma_closed(mid, post, task.id, replies.last());
}

/// A map-reduce leaves its output as the last message of its task, said by the
/// assistant.
pub proof fn law_map_reduce_leaves_its_output<L: LlmClient>(
    pre: InMemoryStore,
    post: InMemoryStore,
    llm_pre: L,
    llm_post: L,
    input: Seq<char>,
    items: Seq<Seq<char>>,
    task: Task,
    recalls: Seq<ProgressiveModel>,
    replies: Seq<Seq<char>>,
    last: ProgressiveModel,
    output: Seq<char>,
)
    requires
        pre.wf(),
        pre@.max_records > 0,
        map_reduce_run(
            pre,
            post,
            llm_pre,
            llm_post,
            input,
            items,
            task,
            recalls,
            replies,
            last,
            output,
        ),
    ensures
        post@.messages.last() == (MessageModel {
            task_id: task.id,
            role: "assistant"@,
            body: output,
        }),
{
    let first = (opening_ops(input, task) + map_ops(
        task.id,
        items,
        recalls,
        replies,
        items.len(),
    )).push(recall_of(input, last));
    let mid = lemma_performed_split(pre, first, closing_ops(task.id, output), post);
    law_operations_keep_bounds(pre, first, mid);
    lemma_closed(mid, post, task.id, output);
}

/// The output of a map-reduce is the reply to the question that has all mapped
/// results.
pub proof fn law_output_is_the_reduced_reply<M: MemoryStore, L: LlmClient>(
    pre: M,
    post: M,
    llm_pre: L,
    llm_post: L,
    input: Seq<char>,
    items: Seq<Seq<char>>,
    task: Task,
    recalls: Seq<ProgressiveModel>,
    replies: Seq<Seq<char>>,
    last: ProgressiveModel,
    output: Seq<char>,
)
    requires
        map_reduce_run(
            pre,
            post,
            llm_pre,
            llm_post,
            input,
            items,
            task,
            recalls,
            replies,
            last,
            output,
        ),
    ensures
        replies.len() == items.len(),
        exists|mid: L| #[trigger]
            L::replied(
                mid,
                llm_post,
                crate::llm::single_turn_system(),
                seq![Turn { role: "user"@, content: reduce_prompt(last, replies) }],
                output,
            ),
{
    let calls = map_calls(input, items, recalls, replies, items.len()).push(
        crate::agent::question(reduce_prompt(last, replies), output),
    );
    assert(calls.last() == crate::agent::question(reduce_prompt(last, replies), output));
}

}
