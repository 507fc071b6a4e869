use std::cell::RefCell;
use std::collections::VecDeque;
use std::rc::Rc;

use minipaw::adjustments::AdjustmentDirective;
use minipaw::advisor::{compare, DivergenceVerdict};
use minipaw::channels::AgentHandler;
use minipaw::cli::Line;
use minipaw::config::Routing;
use minipaw::llm::{ChatMessage, LlmClient};
use minipaw::log::{
    adjustment_line, content_line, divergence_line, request_line, response_line,
};
use minipaw::memory::{InMemoryStore, MemoryStore};
use minipaw::minicore::{
    cap, max_session_steps, render_outcome, Adjustment, IncomingMessage, MiniCore, ProcessStep,
    SessionReport,
};
use minipaw::prompts::PromptStore;
use minipaw::skills::SkillRegistry;
use minipaw::table::Table;
use minipaw::tools::{ToolPolicy, ToolRunner};
use minipaw::types::{AdvisorMode, AgentChoice, MessageClass, TaskId, TaskStatus};

type Asked = Rc<RefCell<Vec<(String, Vec<String>)>>>;

struct Script {
    replies: VecDeque<String>,
    asked: Asked,
}

fn script(replies: &[&str]) -> (Script, Asked) {
    let asked: Asked = Rc::new(RefCell::new(Vec::new()));
    let replies = replies.iter().map(|r| r.to_string()).collect();
    (Script { replies, asked: asked.clone() }, asked)
}

impl LlmClient for Script {
    fn chat(&mut self, system: &str, messages: &[ChatMessage]) -> String {
        let contents = messages.iter().map(|m| m.content.clone()).collect();
        self.asked.borrow_mut().push((system.to_owned(), contents));
        self.replies.pop_front().unwrap_or_default()
    }

    fn next_step(&mut self, prompt: &str) -> String {
        self.chat("", &[ChatMessage::user(prompt)])
    }
}

/// Echoes its commands under a name, and fails on `bad`.
struct Echo {
    name: &'static str,
}

impl AgentHandler for Echo {
    fn name(&self) -> &str {
        self.name
    }

    fn execute(&self, command: &str) -> Result<String, String> {
        if command == "bad" {
            Err("no".to_owned())
        } else {
            Ok(format!("{}<{command}>", self.name))
        }
    }
}

type Core = MiniCore<InMemoryStore, Script, Echo>;

fn core_with(llm: Script, max_steps: usize) -> Core {
    let mut files = Table::new();
    files.insert(
        "clock.md",
        "---\nname: clock\ndescription: current time of day\nexec: date -u\n---\n",
    );
    let skills = SkillRegistry::load(&files);
    let prompts = PromptStore::install("/ws".to_owned(), Table::new(), files, Table::new());
    let tools = ToolRunner::new(ToolPolicy {
        workspace: "/ws".to_owned(),
        max_file_bytes: 64,
        max_output_bytes: 64,
        timeout: 1,
        allow_exec: false,
        allowed_exec: vec![],
        skill_exec: vec![],
    });
    let mut core = MiniCore::new(
        InMemoryStore::new(64),
        llm,
        tools,
        skills,
        prompts,
        "TestOS".to_owned(),
        max_steps,
    );
    core.register(Echo { name: "exec" });
    core.register(Echo { name: "mail" });
    core
}

fn message(text: &str, context: Option<&str>) -> IncomingMessage {
    IncomingMessage {
        text: text.to_owned(),
        context_id: context.map(|c| c.to_owned()),
        source: "test".to_owned(),
        subclass: None,
    }
}

fn finished(step: ProcessStep) -> SessionReport {
    match step {
        ProcessStep::Finished(report) => report,
        ProcessStep::Shadow(_) => panic!("no shadow was planned"),
    }
}

#[test]
fn commands_run_until_the_model_is_done() {
    let (llm, asked) = script(&[
        "minihow",
        "let me look\nEXEC: ls -l\nEXEC: clock --now\n",
        "EXEC: mail: hi",
        "DONE: all\nset",
    ]);
    let mut core = core_with(llm, 16);
    let report = finished(core.process(&message("look around", None)));
    assert_eq!(report.output, "all\nset");
    assert_eq!(report.steps, 3);
    assert_eq!(report.class, MessageClass::MiniHow);
    let asked = asked.borrow();
    assert_eq!(
        asked[2].1,
        vec![
            "look around",
            "let me look\nEXEC: ls -l\nEXEC: clock --now\n",
            "Result of `ls -l`:\nexec<ls -l>\n\nResult of `clock --now`:\nexec<date -u --now>",
        ]
    );
    assert_eq!(asked[3].1[4], "Result of `mail: hi`:\nmail<hi>");
    assert!(asked[1].0.contains("TestOS"));
    assert!(asked[1].0.contains("Workspace: /ws"));
    let task = core.memory().get_task(report.task_id).unwrap();
    assert_eq!(task.status, TaskStatus::Done);
    assert_eq!(
        core.memory().last_message(),
        Some((report.task_id, "assistant", "all\nset"))
    );
}

#[test]
fn a_repeated_command_is_not_run_again() {
    let (llm, _) = script(&["minihow", "EXEC: ls", "EXEC: ls"]);
    let mut core = core_with(llm, 16);
    let report = finished(core.process(&message("go", None)));
    assert_eq!((report.output.as_str(), report.steps), ("exec<ls>", 2));
}

#[test]
fn sessions_stop_at_the_step_limit() {
    let (llm, asked) = script(&["minihow", "EXEC: a", "EXEC: b", "EXEC: c"]);
    let mut core = core_with(llm, 2);
    let report = finished(core.process(&message("go", None)));
    assert_eq!(report.output, "Session reached step limit (2).");
    assert_eq!(report.steps, 2);
    assert_eq!(asked.borrow().len(), 3);
}

#[test]
fn analysis_may_ask_for_data() {
    let (llm, asked) = script(&["miniwhy", "DATA: sqlite setup", "because"]);
    let mut core = core_with(llm, 16);
    core.memory_mut().set_fact("sqlite", "needs setup");
    let report = finished(core.process(&message("why", None)));
    assert_eq!((report.output.as_str(), report.steps), ("because", 2));
    let asked = asked.borrow();
    assert!(asked[2].1[2].starts_with("Data for 'sqlite setup':\n"));
    assert!(asked[2].1[2].contains("sqlite=needs setup"));
    let (llm, _) = script(&["miniwhy", "DATA: a | b"]);
    let mut other = core_with(llm, 16);
    let refused = finished(other.process(&message("why", None)));
    assert_eq!(refused.output, "DATA: a | b");
}

#[test]
fn queries_take_one_step_unless_a_skill_fits() {
    let (llm, asked) = script(&["miniwhat", " Paris \n"]);
    let mut core = core_with(llm, 16);
    let report = finished(core.process(&message("capital of France", None)));
    assert_eq!((report.output.as_str(), report.steps), ("Paris", 1));
    assert_eq!(report.class, MessageClass::MiniWhat);
    assert_eq!(asked.borrow().len(), 2);
    let (llm, _) = script(&["miniwhat", "EXEC: clock", "DONE: noon"]);
    let mut other = core_with(llm, 16);
    let upgraded = finished(other.process(&message("what time is it", None)));
    assert_eq!(upgraded.class, MessageClass::MiniHow);
    assert_eq!(upgraded.output, "noon");
}

#[test]
fn conversations_go_on_until_restarted() {
    let (llm, asked) = script(&["miniwhat", "one", "miniwhat", "two", "miniwhat", "three"]);
    let mut core = core_with(llm, 16);
    let first = finished(core.process(&message("first", Some("c"))));
    let second = finished(core.process(&message("second", Some("c"))));
    assert_eq!(first.task_id, second.task_id);
    assert!(asked.borrow()[3].1[0].contains("New message:\nsecond"));
    assert!(asked.borrow()[3].1[0].starts_with("Conversation history:\n"));
    let restart = finished(core.process(&message(" /new ", Some("c"))));
    assert_eq!((restart.output.as_str(), restart.steps), ("New conversation started.", 0));
    let third = finished(core.process(&message("third", Some("c"))));
    assert_ne!(third.task_id, first.task_id);
    assert_eq!(asked.borrow()[5].1[0], "third");
}

#[test]
fn failed_sessions_fail_their_task() {
    let (llm, _) = script(&["miniwhat", "error: lost"]);
    let mut core = core_with(llm, 16);
    let report = finished(core.process(&message("go", None)));
    assert_eq!(core.memory().get_task(report.task_id).unwrap().status, TaskStatus::Failed);
}

#[test]
fn commands_are_dispatched_by_name() {
    let (llm, _) = script(&[]);
    let core = core_with(llm, 16);
    assert_eq!(core.agents(), vec!["exec", "mail"]);
    assert_eq!(core.run_exec("mail: to you"), "mail<to you>");
    assert_eq!(core.run_exec("mail:bad"), "error: no");
    assert_eq!(core.run_exec("post: x"), "error: no agent named 'post'");
    assert_eq!(core.run_exec("12: x"), "exec<12: x>");
    assert_eq!(core.run_exec("echo a: b"), "exec<echo a: b>");
    assert_eq!(core.run_exec("CLOCK"), "exec<date -u>");
}

#[test]
fn shadow_runs_are_compared_and_adjustments_proposed() {
    let (llm, _) = script(&["miniwhat", "apples and pears"]);
    let (advisor, _) = script(&["entirely different words", "PROMPT_RULE_APPEND: be brief"]);
    let mut core = core_with(llm, 16);
    core.set_advisor(advisor, AdvisorMode::Trial, Routing::new());
    assert!(core.should_shadow());
    let run = match core.process(&message("go", None)) {
        ProcessStep::Shadow(run) => run,
        ProcessStep::Finished(_) => panic!("a shadow was planned"),
    };
    let record = core.run_shadow(&run).unwrap();
    assert_eq!(record.verdict, DivergenceVerdict::Divergent);
    assert_eq!(record.served_by, AgentChoice::Primary);
    let adjustment = core.settle(run.task_id, &run.context, &record, "0.00");
    let path = match &adjustment {
        Adjustment::Proposed { path, .. } => path.clone(),
        other => panic!("unexpected adjustment {other:?}"),
    };
    assert!(path.starts_with("/ws/proposals/"));
    assert_eq!(core.prompts().proposals.len(), 1);
    core.confirm_adjustment(run.task_id, &adjustment);
    let (id, role, body) = core.memory().last_message().unwrap();
    assert_eq!((id, role), (run.task_id, "advisor-adjust"));
    assert_eq!(body, format!("[advisor proposal] rule-append [miniwhat]: be brief → {path}"));
    let report = core.conclude(run);
    assert_eq!(report.output, "apples and pears");
    assert_eq!(core.memory().get_task(report.task_id).unwrap().status, TaskStatus::Done);
}

#[test]
fn training_is_served_by_the_advisor_and_applied() {
    let (llm, _) = script(&["miniwhat", "apples and pears"]);
    let (advisor, _) = script(&["entirely different words", "SKILL_NEW: up | show uptime | uptime"]);
    let mut core = core_with(llm, 16);
    core.set_advisor(advisor, AdvisorMode::Training, Routing::new());
    assert_eq!(core.choose_executor(MessageClass::MiniWhat), AgentChoice::Advisor);
    let run = match core.process(&message("go", None)) {
        ProcessStep::Shadow(run) => run,
        ProcessStep::Finished(_) => panic!("a shadow was planned"),
    };
    assert_eq!(run.trace.output, "entirely different words");
    let record = core.run_shadow(&run).unwrap();
    assert_eq!(record.primary, "apples and pears");
    let adjustment = core.settle(run.task_id, &run.context, &record, "0.00");
    assert!(matches!(adjustment, Adjustment::Applied { .. }));
    core.confirm_adjustment(run.task_id, &adjustment);
    assert!(core.skills_index_text().contains("up: show uptime"));
}

#[test]
fn working_mode_routes_without_a_shadow() {
    let (llm, _) = script(&["miniwhy"]);
    let (advisor, _) = script(&["wise words"]);
    let mut core = core_with(llm, 16);
    let mut routing = Routing::new();
    routing.insert(MessageClass::MiniWhy, AgentChoice::Advisor);
    core.set_advisor(advisor, AdvisorMode::Work, routing);
    assert!(!core.should_shadow());
    assert_eq!(core.choose_executor(MessageClass::MiniHow), AgentChoice::Primary);
    let report = finished(core.process(&message("why", None)));
    assert_eq!(report.output, "wise words");
}

#[test]
fn adjustments_may_be_declined() {
    let (llm, _) = script(&[]);
    let (advisor, _) = script(&["NO_CHANGE", "no idea\nat all", "PROMPT_RULE_APPEND: more"]);
    let mut core = core_with(llm, 16);
    let skipped = core.run_adjustment(TaskId(1), "t", MessageClass::MiniHow, "a", "b");
    assert!(matches!(skipped, Adjustment::Skipped));
    core.set_advisor(advisor, AdvisorMode::Training, Routing::new());
    assert!(matches!(
        core.run_adjustment(TaskId(1), "t", MessageClass::MiniHow, "a", "b"),
        Adjustment::NoChange
    ));
    match core.run_adjustment(TaskId(1), "t", MessageClass::MiniHow, "a", "b") {
        Adjustment::Unparsed(raw) => assert_eq!(raw, "no idea↵at all"),
        other => panic!("unexpected adjustment {other:?}"),
    }
    let rules: String = (1..25).map(|i| format!("{i}. rule\n")).collect();
    core.prompts.prompts.insert("minihow.md", &rules);
    assert!(matches!(
        core.run_adjustment(TaskId(1), "t", MessageClass::MiniHow, "a", "b"),
        Adjustment::RuleCap
    ));
}

#[test]
fn evaluations_leave_memory_alone() {
    let (llm, asked) = script(&["EXEC: ls", "DONE: ok"]);
    let mut core = core_with(llm, 16);
    core.prompts.append_rule_to_subclass(MessageClass::MiniHow, "survey", "look twice");
    let trace = core.run_eval(AgentChoice::Advisor, "survey the yard", Some("survey"));
    assert_eq!((trace.output.as_str(), trace.steps), ("ok", 2));
    assert_eq!(trace.execs.len(), 1);
    assert_eq!(trace.execs[0].cmd, "ls");
    assert!(trace.execs[0].ok);
    assert_eq!(core.memory().message_count(), 0);
    assert!(core.memory().list_tasks().is_empty());
    assert!(asked.borrow()[0].0.contains("1. look twice"));
}

#[test]
fn directives_are_asked_of_the_advisor() {
    let (llm, _) = script(&[]);
    let mut core = core_with(llm, 16);
    assert!(core.ask_directive("t", "p", "a", MessageClass::MiniHow, "s", "none", "r").is_none());
    let (advisor, asked) = script(&["NO_CHANGE"]);
    core.set_advisor(advisor, AdvisorMode::Trial, Routing::new());
    core.prompts.append_rule_to_subclass(MessageClass::MiniHow, "s", "x");
    let d = core.ask_directive("the task", "p", "a", MessageClass::MiniHow, "s", "none", "r");
    assert!(d.is_some());
    let asked = asked.borrow();
    assert_eq!(asked[0].0, "You are minipaw's offline coach.");
    assert!(asked[0].1[0].contains("[per-subclass overlay s]\n1. x\n"));
}

#[test]
fn step_limit_is_read_from_a_setting() {
    assert_eq!(max_session_steps(None), 16);
    assert_eq!(max_session_steps(Some("x")), 16);
    assert_eq!(max_session_steps(Some("5")), 5);
}

#[test]
fn outcomes_and_caps_are_rendered() {
    assert_eq!(render_outcome(Ok("x".into())), "x");
    assert_eq!(render_outcome(Err("x".into())), "error: x");
    assert_eq!(cap("a\nb", 3), "a↵b");
    assert_eq!(cap("a\nbé", 4), "a↵b…");
}

fn printed(text: &str) -> Line {
    Line::Printed(text.to_owned())
}

#[test]
fn served_sessions_are_logged_step_by_step() {
    let (llm, _) = script(&[
        "minihow",
        "EXEC: ls \"a\"\nEXEC: clock --now\n",
        "EXEC: mail: bad",
        "DONE: all set",
    ]);
    let mut core = core_with(llm, 16);
    finished(core.process(&message("look around", None)));
    assert_eq!(
        core.take_log(),
        vec![
            printed(
                "minicore task=t1 class=minihow source=test resumed=false mode=work \
                 executor=primary"
            ),
            printed(r#"minihow step=1 exec="ls \"a\"" ok=true out="exec<ls \"a\">""#),
            printed(r#"minicore skill-resolve from="clock" to="date -u --now""#),
            printed(r#"minihow step=1 exec="clock --now" ok=true out="exec<date -u --now>""#),
            printed(r#"minihow step=2 exec="mail: bad" ok=false out="error: no""#),
            printed("minihow done task=t1 steps=3"),
        ]
    );
    assert!(core.take_log().is_empty());
}

#[test]
fn ends_of_sessions_are_logged() {
    let (llm, _) = script(&["minihow", "just words"]);
    let mut core = core_with(llm, 16);
    finished(core.process(&message("go", None)));
    assert_eq!(core.take_log()[1..], [printed("minihow free-form task=t1 steps=1")]);
    let (llm, _) = script(&["minihow", "EXEC: a", "EXEC: b"]);
    let mut core = core_with(llm, 2);
    finished(core.process(&message("go", None)));
    assert_eq!(
        core.take_log().last(),
        Some(&Line::Complaint("minihow step-limit task=t1".to_owned()))
    );
    let (llm, _) = script(&["minihow", "EXEC: ls", "EXEC: ls"]);
    let mut core = core_with(llm, 16);
    finished(core.process(&message("go", None)));
    assert_eq!(core.take_log().len(), 2);
}

#[test]
fn long_results_are_cut_in_the_log() {
    let long = "x".repeat(200);
    let (llm, _) = script(&["minihow", &format!("EXEC: {long}"), "DONE: ok"]);
    let mut core = core_with(llm, 16);
    finished(core.process(&message("go", None)));
    let shown = "x".repeat(115);
    assert_eq!(
        core.take_log()[1],
        Line::Printed(format!(
            "minihow step=1 exec=\"{long}\" ok=true out=\"exec<{shown}\""
        ))
    );
}

#[test]
fn shadows_are_logged_under_another_word() {
    let (llm, _) = script(&["minihow", "EXEC: ls", "DONE: ok"]);
    let (advisor, _) = script(&["EXEC: pwd", "DONE: ok"]);
    let mut core = core_with(llm, 16);
    core.set_advisor(advisor, AdvisorMode::Trial, Routing::new());
    let run = match core.process(&message("go", None)) {
        ProcessStep::Shadow(run) => run,
        ProcessStep::Finished(_) => panic!("a shadow was planned"),
    };
    core.take_log();
    core.run_shadow(&run);
    assert_eq!(
        core.take_log(),
        vec![
            printed("shadow step=1 exec=\"pwd\" ok=true"),
            printed("shadow done task=t1 steps=2"),
        ]
    );
    let (llm, _) = script(&["EXEC: ls", "DONE: ok"]);
    let mut other = core_with(llm, 16);
    other.run_eval(AgentChoice::Primary, "t", None);
    assert_eq!(other.take_log()[0], printed("shadow step=1 exec=\"ls\" ok=true"));
}

#[test]
fn searches_and_queries_are_logged() {
    let (llm, _) = script(&["miniwhy", "DATA: yard", "because"]);
    let mut core = core_with(llm, 16);
    finished(core.process(&message("why", None)));
    let log = core.take_log();
    assert_eq!(log.len(), 5);
    assert_eq!(log[1], printed("miniwhy step=1 task=t1"));
    match &log[2] {
        Line::Printed(line) => {
            assert!(line.starts_with("miniwhy data-fetch task=t1 query=\"yard\" bytes="))
        }
        other => panic!("unexpected line {other:?}"),
    }
    assert_eq!(log[3], printed("miniwhy step=2 task=t1"));
    assert_eq!(log[4], printed("miniwhy done task=t1 steps=2"));
    let (llm, _) = script(&["miniwhy", "DATA: ls | wc"]);
    let mut core = core_with(llm, 16);
    finished(core.process(&message("why", None)));
    assert_eq!(
        core.take_log()[2],
        printed("miniwhy data-rejected task=t1 query=\"ls | wc\"")
    );
    let (llm, _) = script(&["miniwhy", "DATA: a"]);
    let mut core = core_with(llm, 1);
    finished(core.process(&message("why", None)));
    assert_eq!(
        core.take_log().last(),
        Some(&Line::Complaint("miniwhy step-limit task=t1".to_owned()))
    );
    let (llm, _) = script(&["miniwhat", "Paris"]);
    let mut core = core_with(llm, 16);
    finished(core.process(&message("capital of France", Some("c"))));
    assert_eq!(core.take_log()[1], printed("miniwhat task=t1"));
}

#[test]
fn overrides_and_resumed_tasks_are_logged() {
    let (llm, _) = script(&["miniwhat", "DONE: noon", "miniwhat", "x"]);
    let mut core = core_with(llm, 16);
    finished(core.process(&message("what time is it", Some("c"))));
    let log = core.take_log();
    assert_eq!(log[0], printed("classify class=minihow (skill-override)"));
    assert_eq!(
        log[1],
        printed(
            "minicore task=t1 class=minihow source=test resumed=false mode=work executor=primary"
        )
    );
    finished(core.process(&message("capital of France", Some("c"))));
    assert_eq!(
        core.take_log()[0],
        printed(
            "minicore task=t1 class=miniwhat source=test resumed=true mode=work executor=primary"
        )
    );
    assert_eq!(
        core.exec_note("clock"),
        Some(printed("minicore skill-resolve from=\"clock\" to=\"date -u\""))
    );
    assert_eq!(core.exec_note("mail: clock"), None);
    assert_eq!(core.exec_note("ls"), None);
}

#[test]
fn adjustments_and_divergences_are_logged() {
    let id = TaskId(3);
    let class = MessageClass::MiniWhy;
    let line = |a: &Adjustment| adjustment_line(id, class, a);
    assert_eq!(line(&Adjustment::Skipped), None);
    assert_eq!(
        line(&Adjustment::Unparsed("a\"b".into())),
        Some(printed(r#"advisor adjust task=t3 class=miniwhy parsed=none raw="a\"b""#))
    );
    assert_eq!(
        line(&Adjustment::NoChange),
        Some(printed("advisor adjust task=t3 class=miniwhy kind=no-change"))
    );
    assert_eq!(
        line(&Adjustment::RuleCap),
        Some(printed("advisor adjust task=t3 class=miniwhy skipped: rule cap reached"))
    );
    assert_eq!(
        line(&Adjustment::Applied {
            directive: AdjustmentDirective::NoChange,
            outcome: "done".into()
        }),
        Some(printed("advisor adjust task=t3 mode=training applied: done"))
    );
    assert_eq!(
        line(&Adjustment::Proposed {
            directive: AdjustmentDirective::NoChange,
            path: "/ws/p".into()
        }),
        Some(printed("advisor adjust task=t3 mode=trial proposal=/ws/p"))
    );
    let record = compare(class, AgentChoice::Primary, "one two three", "one two three");
    assert_eq!(
        divergence_line(id, &record, "1.00"),
        printed("advisor divergence task=t3 class=miniwhy verdict=Match similarity=1.00")
    );
}

#[test]
fn requests_to_models_are_logged() {
    let messages = [ChatMessage::user("a"), ChatMessage::user("b\né")];
    assert_eq!(request_line("s", &messages), "llm >> (3 msgs, 4 chars) b↵é");
    assert_eq!(request_line("", &[]), "llm >> (0 msgs, 0 chars) ");
    let long = [ChatMessage::user(&"é".repeat(151))];
    assert_eq!(
        request_line("", &long),
        format!("llm >> (1 msgs, 302 chars) {}", "é".repeat(150))
    );
    assert_eq!(response_line("{\n}"), "llm << raw (3 chars) {↵}");
    assert_eq!(content_line("a\nb"), "llm << content: a↵b");
}
