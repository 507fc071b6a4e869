use minipaw::orchestration::{
    AgentLoop, Gateway, GatewayTarget, QueuedTask, TaskQueue, WorkerAgent,
};
use minipaw::types::{AgentPattern, TaskId, TaskStatus, WorkerId};

#[test]
fn dependency_resolution_waits_for_parent() {
    let mut queue = TaskQueue::default();
    queue.push(QueuedTask {
        id: TaskId(2),
        input: "child".into(),
        dependencies: vec![TaskId(1)],
        status: TaskStatus::New,
        pattern: AgentPattern::CoordinatorWorker,
    });
    assert!(queue.next_ready().is_none());
    queue.mark_finished(TaskId(1), TaskStatus::Done);
    assert_eq!(queue.next_ready().unwrap().id, TaskId(2));
}

fn queued(id: u64, dependencies: &[u64]) -> QueuedTask {
    QueuedTask {
        id: TaskId(id),
        input: "x".into(),
        dependencies: dependencies.iter().map(|d| TaskId(*d)).collect(),
        status: TaskStatus::New,
        pattern: AgentPattern::Direct,
    }
}

#[test]
fn the_first_ready_task_is_taken() {
    let mut queue = TaskQueue::default();
    assert!(queue.is_empty());
    queue.push(queued(5, &[4]));
    queue.push(queued(6, &[]));
    queue.push(queued(7, &[]));
    assert_eq!(queue.len(), 3);
    assert_eq!(queue.next_ready().unwrap().id, TaskId(6));
    queue.mark_finished(TaskId(4), TaskStatus::Failed);
    assert_eq!(queue.next_ready().unwrap().id, TaskId(7));
    assert!(queue.next_ready().is_none());
    assert_eq!(queue.len(), 1);
}

#[test]
fn gateway_routes_to_a_worker_or_the_coordinator() {
    let gateway = Gateway::default();
    let workers = vec![WorkerAgent::new(WorkerId(1), "one"), WorkerAgent::new(WorkerId(2), "two")];
    assert_eq!(gateway.route("anything", &[]), GatewayTarget::Coordinator);
    let mut busy = workers;
    assert_eq!(gateway.route("anything", &busy), GatewayTarget::Worker(WorkerId(1)));
    busy[0].busy = true;
    assert_eq!(gateway.route("anything", &busy), GatewayTarget::Worker(WorkerId(2)));
    assert_eq!(gateway.route(" /pipeline x", &busy), GatewayTarget::Pipeline);
    assert_eq!(gateway.route("/mapping", &busy), GatewayTarget::MapReduce);
    assert_eq!(gateway.route("/reduce", &busy), GatewayTarget::MapReduce);
    assert_eq!(gateway.route("/exec ls", &busy), GatewayTarget::Coordinator);
}

#[test]
fn loop_counts_its_ticks() {
    let mut agent_loop = AgentLoop::default();
    assert_eq!(agent_loop.heartbeat().tick, 0);
    agent_loop.tick_started();
    agent_loop.tick_finished(Some(TaskId(3)), TaskStatus::Done);
    assert_eq!(agent_loop.heartbeat().tick, 1);
    assert_eq!(agent_loop.heartbeat().last_task, Some(TaskId(3)));
    assert_eq!(agent_loop.heartbeat().last_status, TaskStatus::Done);
}
