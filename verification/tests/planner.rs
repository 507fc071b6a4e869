use minipaw::llm::{ChatMessage, LlmClient};
use minipaw::planner::{
    class_for_reply, classify_message, help_text, local_pattern, parse_local_intent,
    parse_natural_action, parse_pattern, pattern_for_reply, skill_allowed_for_input,
    step_for_reply, validate_pattern, Planner,
};
use minipaw::skills::{Skill, SkillRegistry};
use minipaw::types::{AgentPattern, MessageClass, PlanStepKind, Task, TaskId, TaskStatus};

#[test]
fn parses_list_intent() {
    assert_eq!(
        parse_local_intent("/ls src"),
        Some(PlanStepKind::ListDir("src".into()))
    );
}

#[test]
fn parses_natural_list_action() {
    assert_eq!(
        parse_natural_action("list src"),
        Some(PlanStepKind::ListDir("src".into()))
    );
    assert_eq!(
        parse_natural_action("ls ."),
        Some(PlanStepKind::ListDir(".".into()))
    );
    assert_eq!(
        parse_natural_action("list the files in src"),
        Some(PlanStepKind::ListDir("src".into()))
    );
    // "list" with no path falls back to current directory.
    assert_eq!(
        parse_natural_action("list"),
        Some(PlanStepKind::ListDir(".".into()))
    );
}

#[test]
fn parses_natural_read_action() {
    assert_eq!(
        parse_natural_action("read src/main.rs"),
        Some(PlanStepKind::ReadFile("src/main.rs".into()))
    );
    assert_eq!(
        parse_natural_action("read the file README.md"),
        Some(PlanStepKind::ReadFile("README.md".into()))
    );
    // No path-like token: the model answers.
    assert_eq!(parse_natural_action("read about sqlite"), None);
}

#[test]
fn parses_natural_exec_action() {
    assert_eq!(
        parse_natural_action("run git status"),
        Some(PlanStepKind::Exec {
            program: "git".into(),
            args: vec!["status".into()]
        })
    );
    assert_eq!(
        parse_natural_action("exec ls"),
        Some(PlanStepKind::Exec {
            program: "ls".into(),
            args: vec![]
        })
    );
}

#[test]
fn programs_stand_behind_stop_words() {
    assert_eq!(
        parse_natural_action("run the git status"),
        Some(PlanStepKind::Exec { program: "git".into(), args: vec!["status".into()] })
    );
    assert_eq!(
        parse_natural_action("Execute my The make all"),
        Some(PlanStepKind::Exec { program: "make".into(), args: vec!["all".into()] })
    );
    assert_eq!(parse_natural_action("run it for me"), None);
    assert_eq!(parse_natural_action("run"), None);
    assert_eq!(
        parse_local_intent("/exec at now"),
        Some(PlanStepKind::Exec { program: "at".into(), args: vec!["now".into()] })
    );
    assert_eq!(parse_local_intent("/exec"), None);
}

#[test]
fn parses_pattern_response() {
    assert_eq!(parse_pattern("map-reduce"), Some(AgentPattern::MapReduce));
    assert_eq!(
        parse_pattern("Pattern: hub-and-spoke"),
        Some(AgentPattern::HubAndSpoke)
    );
    assert_eq!(
        parse_pattern("Allowed values: direct, pipeline, map-reduce"),
        None
    );
}

#[test]
fn validates_risky_direct_selection() {
    assert_eq!(
        validate_pattern(
            "run a local command to inspect the kernel",
            AgentPattern::Direct
        ),
        AgentPattern::HubAndSpoke
    );
}

fn current_time() -> Skill {
    Skill {
        name: "current-time".into(),
        description: "Get the current date and time on the local machine".into(),
        command: Some("date -u".into()),
    }
}

#[test]
fn gates_skill_calls_by_generic_term_overlap() {
    let skill = Skill {
        name: "current-time".into(),
        description: "Get the current date and time on the local machine".into(),
        command: Some("date".into()),
    };

    assert!(!skill_allowed_for_input("add 7 again", &skill));
    assert!(skill_allowed_for_input("what time is it", &skill));
}

#[test]
fn replies_run_skills_only() {
    let registry = SkillRegistry { skills: vec![current_time()] };
    assert_eq!(
        step_for_reply("what time is it", "SKILL:current-time", &registry),
        PlanStepKind::Exec { program: "date".into(), args: vec!["-u".into()] }
    );
    assert!(matches!(
        step_for_reply("what time is it", "SKILL:rm", &registry),
        PlanStepKind::Answer(_)
    ));
    assert!(matches!(
        step_for_reply("add 7 again", "SKILL:current-time", &registry),
        PlanStepKind::Answer(_)
    ));
    assert_eq!(
        step_for_reply("what time is it", "noon", &registry),
        PlanStepKind::Answer("noon".into())
    );
}

#[test]
fn local_patterns_need_no_model() {
    assert!(local_pattern("/ls src").is_some());
    assert_eq!(pattern_for_reply("say hello", "map-reduce"), AgentPattern::MapReduce);
    assert!(help_text().starts_with("minipaw commands:"));
    assert_eq!(parse_local_intent("/help"), Some(PlanStepKind::Answer(help_text())));
    assert_eq!(
        parse_local_intent("/read a.txt"),
        Some(PlanStepKind::ReadFile("a.txt".into()))
    );
    assert_eq!(
        parse_local_intent("/exec ls -l"),
        Some(PlanStepKind::Exec { program: "ls".into(), args: vec!["-l".into()] })
    );
    assert_eq!(parse_local_intent("tell me"), None);
}

struct Echo {
    reply: String,
    calls: usize,
}

impl LlmClient for Echo {
    fn chat(&mut self, _system: &str, _messages: &[ChatMessage]) -> String {
        self.next_step("")
    }

    fn next_step(&mut self, _prompt: &str) -> String {
        self.calls += 1;
        self.reply.clone()
    }
}

#[test]
fn messages_are_classified_by_the_reply() {
    for (reply, class) in [
        ("miniwhy", MessageClass::MiniWhy),
        (" MiniWhat\n", MessageClass::MiniWhat),
        ("no idea", MessageClass::MiniHow),
    ] {
        assert_eq!(class_for_reply(reply), class);
        let mut llm = Echo { reply: reply.to_owned(), calls: 0 };
        assert_eq!(classify_message("text", &mut llm), class);
        assert_eq!(llm.calls, 1);
    }
}

#[test]
fn plans_answer_what_is_not_local() {
    let task = Task {
        id: TaskId(4),
        title: "/ls src".into(),
        status: TaskStatus::New,
        created_at: 0,
        updated_at: 0,
    };
    let mut llm = Echo { reply: "fine".into(), calls: 0 };
    let plan = Planner.plan(&task, &mut llm);
    assert_eq!(plan.task_id, TaskId(4));
    assert_eq!(plan.steps.len(), 1);
    assert_eq!(plan.steps[0].kind, PlanStepKind::ListDir("src".into()));
    assert_eq!(llm.calls, 0);
    let other = Planner.plan_with_pattern(&task, "say hello", AgentPattern::Direct, &mut llm);
    assert_eq!(other.steps[0].kind, PlanStepKind::Answer("fine".into()));
    assert_eq!(llm.calls, 1);
    llm.reply = "pipeline".into();
    assert_eq!(Planner.select_pattern("turn this into that", &mut llm), AgentPattern::Pipeline);
}

#[test]
fn names_may_be_in_any_script() {
    assert_eq!(
        parse_natural_action("list données"),
        Some(PlanStepKind::ListDir("données".into()))
    );
    assert_eq!(
        parse_natural_action("list → 数据"),
        Some(PlanStepKind::ListDir("数据".into()))
    );
    assert_eq!(parse_natural_action("list →"), Some(PlanStepKind::ListDir(".".into())));
}
