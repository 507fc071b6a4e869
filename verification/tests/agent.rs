use minipaw::agent::{AgentOrchestrator, AgentOutcome, PlanRun};
use minipaw::llm::{ChatMessage, LlmClient, OfflineLlm};
use minipaw::memory::{InMemoryStore, MemoryStore};
use minipaw::orchestration::PipelineStage;
use minipaw::tools::{DirEntry, ProcessReply, ToolPolicy, ToolReply, ToolRequest, ToolRunner};
use minipaw::types::{AgentPattern, TaskId, TaskStatus};

fn test_agent() -> AgentOrchestrator<InMemoryStore> {
    agent_with(false)
}

fn agent_with(allow_exec: bool) -> AgentOrchestrator<InMemoryStore> {
    AgentOrchestrator::new(
        InMemoryStore::new(8),
        ToolRunner::new(ToolPolicy {
            workspace: ".".to_owned(),
            max_file_bytes: 1024,
            max_output_bytes: 4096,
            timeout: 1,
            allow_exec,
            allowed_exec: Vec::new(),
            skill_exec: Vec::new(),
        }),
    )
}

struct ScriptedLlm {
    responses: std::collections::VecDeque<String>,
    prompts: Vec<String>,
}

impl ScriptedLlm {
    fn new(responses: &[&str]) -> Self {
        Self {
            responses: responses.iter().map(|value| value.to_string()).collect(),
            prompts: Vec::new(),
        }
    }
}

impl LlmClient for ScriptedLlm {
    fn chat(&mut self, _system: &str, messages: &[ChatMessage]) -> String {
        let last = messages.last().map(|m| m.content.clone()).unwrap_or_default();
        self.next_step(&last)
    }

    fn next_step(&mut self, prompt: &str) -> String {
        self.prompts.push(prompt.to_owned());
        self.responses
            .pop_front()
            .unwrap_or_else(|| "direct".into())
    }
}

/// Answers each request of a run: every directory holds two entries and every
/// file holds one line.
fn drive(agent: &mut AgentOrchestrator<InMemoryStore>, mut run: PlanRun) -> AgentOutcome {
    while let Some(request) = agent.next_request(&run) {
        let reply = match request {
            ToolRequest::Ready(_) => ToolReply::Nothing,
            ToolRequest::ReadFile { .. } => ToolReply::File(Ok(b"line\n".to_vec())),
            ToolRequest::ListDir { .. } => ToolReply::Listing(Ok(vec![
                DirEntry { name: "main.rs".into(), is_dir: false },
                DirEntry { name: "channels".into(), is_dir: true },
            ])),
            ToolRequest::Spawn { .. } => ToolReply::Process(ProcessReply::TimedOut),
        };
        agent.record_step(&mut run, &reply);
    }
    agent.finish_run(run)
}

#[test]
fn tick_runs_queued_task_and_updates_heartbeat() {
    let mut agent = test_agent();
    let mut llm = OfflineLlm;
    let task_id = agent.enqueue_task("/ls src");

    let run = agent.tick(&mut llm).unwrap();
    let outcome = drive(&mut agent, run);

    assert_eq!(outcome.task_id, task_id);
    assert_eq!(outcome.status, TaskStatus::Done);
    assert_eq!(agent.heartbeat().tick, 1);
    assert_eq!(agent.heartbeat().last_task, Some(task_id));
}

#[test]
fn dependent_task_waits_until_parent_done() {
    let mut agent = test_agent();
    let mut llm = OfflineLlm;
    let parent = agent.enqueue_task("/ls src");
    let child = agent.enqueue_task_with_dependencies(
        "/ls .",
        vec![parent],
        AgentPattern::CoordinatorWorker,
    );

    let first = agent.tick(&mut llm).unwrap();
    assert_eq!(drive(&mut agent, first).task_id, parent);
    let second = agent.tick(&mut llm).unwrap();
    assert_eq!(drive(&mut agent, second).task_id, child);
}

#[test]
fn run_task_uses_llm_pattern_selection() {
    let mut agent = test_agent();
    let mut llm = ScriptedLlm::new(&["map-reduce", "selected pattern answer"]);

    let run = agent.run_task("compare alpha beta gamma", &mut llm);
    let outcome = drive(&mut agent, run);

    assert_eq!(outcome.pattern, AgentPattern::MapReduce);
    assert_eq!(outcome.output, "selected pattern answer");
}

#[test]
fn tick_uses_llm_pattern_selection_for_queued_task() {
    let mut agent = test_agent();
    let mut llm = ScriptedLlm::new(&["pipeline", "pipeline answer"]);
    let task_id = agent.enqueue_task("turn draft into final answer");

    let run = agent.tick(&mut llm).unwrap();
    let outcome = drive(&mut agent, run);

    assert_eq!(outcome.task_id, task_id);
    assert_eq!(outcome.pattern, AgentPattern::Pipeline);
    assert_eq!(outcome.output, "pipeline answer");
}

#[test]
fn listing_is_sorted_and_recorded() {
    let mut agent = test_agent();
    let mut llm = OfflineLlm;
    let run = agent.run_task("/ls src", &mut llm);
    let outcome = drive(&mut agent, run);
    assert_eq!(outcome.output, "channels/\nmain.rs");
    let (id, result) = agent.memory().last_tool_result().unwrap();
    assert_eq!(id, outcome.task_id);
    assert_eq!((result.name.as_str(), result.ok), ("fs.list", true));
    assert_eq!(agent.memory().get_task(id).unwrap().status, TaskStatus::Done);
}

#[test]
fn denied_program_leaves_the_task_waiting() {
    let mut agent = test_agent();
    let mut llm = OfflineLlm;
    let run = agent.run_task("/exec git status", &mut llm);
    let outcome = drive(&mut agent, run);
    assert_eq!(outcome.status, TaskStatus::Waiting);
    assert_eq!(outcome.output, "exec denied: git is not allowlisted");
}

#[test]
fn failed_program_fails_the_task_and_what_depends_on_it() {
    let mut agent = agent_with(true);
    let mut llm = OfflineLlm;
    let parent = agent.enqueue_task_with_dependencies("/exec git status", vec![], AgentPattern::Direct);
    agent.enqueue_task_with_dependencies("/ls .", vec![parent], AgentPattern::Direct);
    assert_eq!(agent.queue_len(), 2);
    let run = agent.tick(&mut llm).unwrap();
    let outcome = drive(&mut agent, run);
    assert_eq!(outcome.status, TaskStatus::Failed);
    assert_eq!(outcome.output, "exec timed out");
    assert!(agent.tick(&mut llm).is_none());
    assert_eq!(agent.queue_len(), 1);
    assert_eq!(agent.heartbeat().last_status, TaskStatus::Waiting);
}

#[test]
fn pipeline_hands_each_answer_on() {
    let mut agent = test_agent();
    let mut llm = ScriptedLlm::new(&["first", "second"]);
    let stages = vec![
        PipelineStage { name: "draft".into(), input: "write".into() },
        PipelineStage { name: "final".into(), input: "polish".into() },
    ];
    let report = agent.run_pipeline("essay", &stages, &mut llm);
    assert_eq!(report.stages_run, 2);
    assert_eq!(report.output, "second");
    assert_eq!(llm.prompts.len(), 2);
    assert!(llm.prompts[1].contains("first"));
    assert_eq!(agent.memory().get_task(report.task_id).unwrap().status, TaskStatus::Done);
}

#[test]
fn map_reduce_asks_for_each_item_and_then_for_all() {
    let mut agent = test_agent();
    let mut llm = ScriptedLlm::new(&["one", "two", "whole"]);
    let items = vec!["a".to_owned(), "b".to_owned()];
    let report = agent.run_map_reduce("goal", &items, &mut llm);
    assert_eq!(report.mapped, 2);
    assert_eq!(report.output, "whole");
    assert_eq!(llm.prompts.len(), 3);
    assert!(llm.prompts[2].contains("one"));
    assert!(llm.prompts[2].contains("two"));
    assert_eq!(report.task_id, TaskId(1));
    assert_eq!(agent.memory_mut().list_tasks().len(), 1);
}
