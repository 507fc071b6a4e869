use minipaw::cli::commands::{
    advisor_line, list_tasks, memory_command, parse_command, parse_task_args, read_repl_line,
    heartbeat_line, map_reduce_text, pipeline_stages, pipeline_text, queued_line, ready_line,
    show_task, skills_loaded, tick_text, tool_policy, unknown_command, Command, ReplCommand,
    TaskCommand,
};
use minipaw::cli::setup::{
    agreed, answer_to, choose_mode, parse_uninstall_args, plan_removal, question_text,
    remove_managed_block, settled_mode, unsafe_dir, Onboarding, OnboardingStage, Removal,
    UninstallMode,
};
use minipaw::cli::uninstall::{Uninstall, UninstallStage};
use minipaw::cli::{mask_token, parse_task_id, quote_compact, validate_telegram_token, Line};
use minipaw::config::{read_file_config, AdvisorConfig, AgentConfig, LlmConfig};
use minipaw::memory::{InMemoryStore, MemoryStore};
use minipaw::skills::{Skill, SkillRegistry};
use minipaw::agent::AgentOutcome;
use minipaw::orchestration::{MapReduceReport, PipelineReport};
use minipaw::types::{AgentPattern, Heartbeat, TaskId, TaskStatus};

fn words(args: &[&str]) -> Vec<String> {
    args.iter().map(|a| a.to_string()).collect()
}

fn printed(lines: &[Line]) -> Vec<String> {
    lines
        .iter()
        .map(|line| match line {
            Line::Printed(t) => t.clone(),
            Line::Complaint(t) => format!("! {t}"),
        })
        .collect()
}

const TOKEN: &str = "123456:abcdefghijklmnopqrstuvwxyz_ABC-123";

#[test]
fn onboarding_asks_for_a_model_and_a_channel() {
    let mut o = Onboarding::start(None);
    assert_eq!(o.label(), "model provider (llamacpp/deepseek)");
    assert_eq!(o.default_answer(), "llamacpp");
    o.answer("deepseek");
    assert_eq!(o.default_answer(), "https://api.deepseek.com/v1");
    o.answer("");
    assert_eq!(o.default_answer(), "deepseek-chat");
    o.answer("");
    assert_eq!(o.stage, OnboardingStage::Key);
    o.answer("sk");
    assert_eq!(printed(&o.lines), vec!["model configured: provider=deepseek model=deepseek-chat"]);
    let llm = read_file_config(o.write.as_deref()).primary_agent.unwrap();
    assert_eq!(llm.api_key.as_deref(), Some("sk"));
    assert_eq!(o.stage, OnboardingStage::Channel);
    o.answer("telegram");
    o.answer(TOKEN);
    assert_eq!(o.stage, OnboardingStage::Chats);
    o.answer("4, 5");
    assert_eq!(o.stage, OnboardingStage::Over);
    assert_eq!(o.code, 0);
    assert_eq!(
        printed(&o.lines),
        vec!["telegram configured: token=123456:***-123 chats=4,5"]
    );
    let telegram = read_file_config(o.write.as_deref()).telegram.unwrap();
    assert_eq!(telegram.token, TOKEN);
}

#[test]
fn onboarding_may_end_without_telegram() {
    let mut o = Onboarding::start(None);
    o.answer("");
    o.answer("");
    o.answer("");
    assert_eq!(o.stage, OnboardingStage::Channel);
    o.answer("smoke");
    assert_eq!(o.stage, OnboardingStage::Over);
    assert_ne!(o.code, 0);
    assert_eq!(
        printed(&o.lines),
        vec!["! unknown channel: smoke", "! supported channels: none, telegram"]
    );
    let mut local = Onboarding::start(None);
    for _ in 0..4 {
        local.answer("");
    }
    assert_eq!((local.stage, local.code), (OnboardingStage::Over, 0));
    assert_eq!(printed(&local.lines), vec!["channel configured: local CLI only"]);
    let mut skipped = Onboarding::start(None);
    for typed in ["", "", "", "telegram", "", ""] {
        skipped.answer(typed);
    }
    assert_eq!(skipped.stage, OnboardingStage::Over);
    assert!(printed(&skipped.lines)[0].contains("telegram setup skipped"));
}

#[test]
fn questions_show_their_default() {
    assert_eq!(question_text("name", ""), "name: ");
    assert_eq!(question_text("name", "x"), "name [x]: ");
    assert_eq!(answer_to("x", " \n"), "x");
    assert_eq!(answer_to("x", " y \n"), "y");
}

#[test]
fn uninstall_options_are_read() {
    assert_eq!(
        parse_uninstall_args(&words(&["--purge", "-y"])).unwrap(),
        (Some(UninstallMode::Purge), true)
    );
    assert_eq!(parse_uninstall_args(&words(&[])).unwrap(), (None, false));
    let bad = parse_uninstall_args(&words(&["--x"])).unwrap_err();
    assert_eq!(printed(&bad.lines)[0], "! unknown uninstall option: --x");
    assert_eq!(settled_mode(None, true), Some(UninstallMode::KeepData));
    assert_eq!(settled_mode(None, false), None);
    assert_eq!(choose_mode(" 2\n"), Some(UninstallMode::RemoveUserData));
    assert_eq!(choose_mode("9"), None);
    assert!(agreed("YES"));
    assert!(!agreed("sure"));
}

#[test]
fn only_own_files_are_removed() {
    assert!(unsafe_dir(""));
    assert!(unsafe_dir("/"));
    assert!(unsafe_dir("/./"));
    assert!(!unsafe_dir("/home/a/.minipaw"));
    let (removals, summary) = plan_removal(UninstallMode::KeepData, "/m");
    assert_eq!(removals.len(), 1);
    assert!(matches!(&removals[0], Removal::File(p) if p == "/m/minipaw"));
    assert_eq!(summary, "removed minipaw binary and shell profile block; kept user data");
    let (removals, _) = plan_removal(UninstallMode::Purge, "/m");
    assert!(matches!(&removals[0], Removal::Dir(p) if p == "/m"));
    assert_eq!(plan_removal(UninstallMode::RemoveUserData, "/m").0.len(), 6);
}

#[test]
fn managed_block_is_removed() {
    let profile = "a\n# minipaw managed block\nexport X\n# end minipaw managed block\nb\n";
    assert_eq!(remove_managed_block(profile), "a\nb\n");
    assert_eq!(remove_managed_block("a\nb\n"), "a\nb\n");
}

#[test]
fn commands_are_recognized() {
    assert_eq!(parse_command(&words(&[])), Command::Repl);
    assert_eq!(parse_command(&words(&["onboard"])), Command::Onboarding);
    assert_eq!(parse_command(&words(&["-V"])), Command::Version);
    assert_eq!(parse_command(&words(&["zap"])), Command::Unknown);
    let reply = unknown_command("zap");
    assert_eq!(printed(&reply.lines)[0], "! unknown command: zap");
    assert_eq!(reply.code, 2);
}

#[test]
fn prompt_lines_are_read() {
    assert!(matches!(read_repl_line("/quit"), ReplCommand::Quit));
    assert!(matches!(read_repl_line("help"), ReplCommand::Help));
    match read_repl_line("/ls src") {
        ReplCommand::Exec(c) => assert_eq!(c, "ls src"),
        _ => panic!("the line is a command"),
    }
    match read_repl_line("hello you") {
        ReplCommand::Message(m) => {
            assert_eq!((m.text.as_str(), m.source.as_str()), ("hello you", "cli"));
        }
        _ => panic!("the line is a message"),
    }
}

#[test]
fn loop_commands_are_read() {
    assert!(matches!(read_repl_line(" /tick "), ReplCommand::Tick));
    assert!(matches!(read_repl_line("/heartbeat"), ReplCommand::Heartbeat));
    match read_repl_line("/enqueue  tidy up ") {
        ReplCommand::Enqueue(task) => assert_eq!(task, "tidy up"),
        other => panic!("unexpected command {other:?}"),
    }
    match read_repl_line("/pipeline essay | draft |  | polish ") {
        ReplCommand::Pipeline { input, steps } => {
            assert_eq!(input, "essay");
            assert_eq!(steps, vec!["draft", "polish"]);
            let stages = pipeline_stages(&steps);
            assert_eq!((stages[1].name.as_str(), stages[1].input.as_str()), ("stage-2", "polish"));
        }
        other => panic!("unexpected command {other:?}"),
    }
    match read_repl_line("/mapreduce goal | a | b") {
        ReplCommand::MapReduce { goal, items } => {
            assert_eq!(goal, "goal");
            assert_eq!(items, vec!["a", "b"]);
        }
        other => panic!("unexpected command {other:?}"),
    }
    for (line, usage) in [
        ("/enqueue", "usage: /enqueue <task>"),
        ("/pipeline essay", "usage: /pipeline input | step | step"),
        ("/mapreduce | a", "usage: /mapreduce goal | item | item"),
    ] {
        assert!(matches!(read_repl_line(line), ReplCommand::Usage(u) if u == usage));
    }
    assert!(matches!(read_repl_line("/ticks"), ReplCommand::Message(_)));
    assert!(matches!(read_repl_line("/pipelines a | b"), ReplCommand::Message(_)));
}

#[test]
fn loop_results_are_printed() {
    assert_eq!(queued_line(TaskId(4), 2), "queued t4 queue=2");
    let fresh = Heartbeat { tick: 0, last_task: None, last_status: TaskStatus::New };
    assert_eq!(heartbeat_line(&fresh, 0), "tick=0 last_task=none last_status=new queue=0");
    let beat = Heartbeat { tick: 3, last_task: Some(TaskId(4)), last_status: TaskStatus::Done };
    assert_eq!(heartbeat_line(&beat, 1), "tick=3 last_task=t4 last_status=done queue=1");
    let outcome = AgentOutcome {
        task_id: TaskId(4),
        status: TaskStatus::Done,
        output: "x".into(),
        pattern: AgentPattern::MapReduce,
    };
    assert_eq!(tick_text(&Some(outcome)), "t4 [done] pattern=map-reduce\nx");
    assert_eq!(tick_text(&None), "no task is ready");
    let pipeline = PipelineReport { task_id: TaskId(5), stages_run: 2, output: "y".into() };
    assert_eq!(pipeline_text(&pipeline), "t5 stages=2\ny");
    let reduced = MapReduceReport { task_id: TaskId(6), mapped: 3, output: "z".into() };
    assert_eq!(map_reduce_text(&reduced), "t6 mapped=3\nz");
}

#[test]
fn tasks_are_made_listed_and_shown() {
    match parse_task_args(&words(&["new", "a", "b"])) {
        TaskCommand::New(m) => assert_eq!(m.text, "a b"),
        _ => panic!("a task is made"),
    }
    assert!(matches!(parse_task_args(&words(&["list"])), TaskCommand::List));
    assert!(matches!(parse_task_args(&words(&["show", "t3"])), TaskCommand::Show(TaskId(3))));
    match parse_task_args(&words(&["show", "x"])) {
        TaskCommand::Fail(reply) => {
            assert_eq!(printed(&reply.lines), vec!["! task show requires a task id like t1"]);
        }
        _ => panic!("the id is malformed"),
    }
    let mut memory = InMemoryStore::new(4);
    let task = memory.create_task("one");
    assert_eq!(printed(&list_tasks(&memory.list_tasks())), vec!["t1 [new] one"]);
    let at = task.created_at;
    assert_eq!(
        show_task(task.id, &memory.get_task(task.id)),
        format!("t1 [new] created={at} updated={at}\none")
    );
    assert_eq!(show_task(TaskId(9), &None), "task not found: t9");
    assert_eq!(parse_task_id("t12"), Some(TaskId(12)));
    assert_eq!(parse_task_id("x"), None);
}

#[test]
fn memory_is_set_and_read() {
    let mut memory = InMemoryStore::new(4);
    let set = memory_command(&mut memory, &words(&["set", "k", "a", "b"]));
    assert_eq!(printed(&set.lines), vec!["ok"]);
    let get = memory_command(&mut memory, &words(&["get", "k"]));
    assert_eq!(printed(&get.lines), vec!["a b"]);
    let usage = memory_command(&mut memory, &words(&["zap"]));
    assert_eq!(usage.code, 2);
}

#[test]
fn policies_come_from_settings_and_skills() {
    let mut config = AgentConfig::constrained("/w".to_owned());
    config.allow_exec = false;
    let none = SkillRegistry { skills: vec![] };
    assert!(!tool_policy(&config, &none).allow_exec);
    let skill = |name: &str| Skill {
        name: name.into(),
        description: "d".into(),
        command: Some("date -u".into()),
    };
    let some = SkillRegistry { skills: vec![skill("b"), skill("a")] };
    let policy = tool_policy(&config, &some);
    assert!(policy.allow_exec);
    assert_eq!(policy.skill_exec, vec!["date"]);
    assert!(policy.allows_program("date"));
    assert!(!policy.allows_program("rm"));
    let silent = SkillRegistry {
        skills: vec![Skill { name: "c".into(), description: "d".into(), command: None }],
    };
    assert!(!tool_policy(&config, &silent).allow_exec);
    config.allowed_exec = vec!["git".into()];
    assert!(!tool_policy(&config, &some).allows_program("git"));
    config.allow_exec = true;
    assert!(tool_policy(&config, &some).allows_program("git"));
    assert!(tool_policy(&config, &some).allows_program("date"));
    assert!(!tool_policy(&config, &some).allows_program("rm"));
    assert_eq!(printed(&skills_loaded(&some)), vec!["skills loaded: b, a"]);
    assert!(skills_loaded(&none).is_empty());
}

#[test]
fn texts_are_masked_and_quoted() {
    assert_eq!(mask_token("12:abcdefgh"), "12:***efgh");
    assert_eq!(mask_token("plain"), "***");
    assert_eq!(quote_compact("a\n\"b\""), "\"a \\\"b\\\"\"");
    assert_eq!(
        validate_telegram_token("x:abcdefghijklmnopqrstuvwxyz").unwrap_err(),
        "bot id before ':' must be numeric"
    );
}

#[test]
fn uninstalling_asks_before_it_removes() {
    let mut u = Uninstall::start("/m", &words(&[]));
    assert_eq!(u.stage, UninstallStage::Choose);
    assert_eq!(printed(&u.lines)[0], "Choose uninstall mode:");
    u.answer("9");
    assert_eq!(printed(&u.lines), vec!["! enter 1, 2, or 3"]);
    u.answer("purge");
    assert_eq!(printed(&u.lines), vec!["minipaw uninstall", "install_dir=/m", "mode=purge"]);
    assert_eq!((u.label(), u.default_answer()), ("continue?", "no"));
    assert!(u.removals().is_empty());
    u.answer("yes");
    assert_eq!(u.stage, UninstallStage::Remove);
    assert_eq!(u.removals().len(), 1);
    u.removed();
    assert_eq!(printed(&u.lines), vec!["removed minipaw folder"]);
    assert_eq!(u.stage, UninstallStage::Over(0));
}

#[test]
fn uninstalling_may_be_refused_or_cancelled() {
    let refused = Uninstall::start("/", &words(&["--purge", "--yes"]));
    assert_eq!(refused.stage, UninstallStage::Over(2));
    assert_eq!(printed(&refused.lines), vec!["! refusing to uninstall from unsafe path: /"]);
    let mut cancelled = Uninstall::start("/m", &words(&["--keep-data"]));
    cancelled.answer("");
    assert_eq!(cancelled.stage, UninstallStage::Over(0));
    assert_eq!(printed(&cancelled.lines), vec!["uninstall cancelled"]);
    let quiet = Uninstall::start("/m", &words(&["--yes"]));
    assert_eq!(quiet.stage, UninstallStage::Remove);
    let unknown = Uninstall::start("/m", &words(&["--x"]));
    assert_eq!(unknown.stage, UninstallStage::Over(2));
}

#[test]
fn start_is_announced() {
    let advisor = AdvisorConfig::new(LlmConfig {
        provider: "p".into(),
        url: "u".into(),
        model: "m".into(),
        api_key: None,
        thinking: false,
    });
    assert_eq!(
        printed(&[advisor_line(&advisor, None), advisor_line(&advisor, Some("why"))]),
        vec!["advisor configured: provider=p model=m mode=trial", "! advisor disabled: why"]
    );
    assert_eq!(printed(&[ready_line(&words(&["a", "b"]))]), vec!["minicore ready. agents: a, b"]);
}
