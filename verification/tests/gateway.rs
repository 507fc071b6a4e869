use std::collections::BTreeSet;

use minipaw::channels::telegram::{TelegramChannel, TelegramConfig, TelegramMessage};
use minipaw::cli::gateway::{
    after_poll_failure, answer_agent, answer_chat,
    gateway_start, next_offset, parse_gateway_args, parse_gateway_word, parse_simulate_args,
    parse_telegram_word,
    parse_simulated_gateway_event, read_gateway_line, report_delivery, report_runner_delivery,
    report_runner_reply, report_update, simulate_start, take_agent_message, take_chat_message,
    take_update, telegram_start, ChatStep, GatewayArgs, GatewayCommand, GatewayLine, GatewayOptions, LoopStep,
};
use minipaw::cli::loops::{GatewayAction, GatewayRun, RunnerRun};
use minipaw::cli::{format_session_report, pairing_chat_id, Line};
use minipaw::config::AgentConfig;
use minipaw::minicore::SessionReport;
use minipaw::types::{MessageClass, TaskId};

fn words(args: &[&str]) -> Vec<String> {
    args.iter().map(|a| a.to_string()).collect()
}

fn channel() -> TelegramChannel {
    TelegramChannel::new(TelegramConfig {
        token: "t".to_owned(),
        allowed_chats: BTreeSet::from([7]),
    })
}

fn report(output: &str) -> SessionReport {
    SessionReport {
        task_id: TaskId(3),
        class: MessageClass::MiniHow,
        output: output.to_owned(),
        steps: 2,
    }
}

fn text(line: &Line) -> String {
    match line {
        Line::Printed(t) => t.clone(),
        Line::Complaint(t) => format!("! {t}"),
    }
}

#[test]
fn gateway_options_are_read() {
    match parse_gateway_args(&words(&["run", "--once", "--no-stdin", "--poll-timeout", "7"])) {
        GatewayArgs::Run(o) => assert_eq!((o.once, o.read_stdin, o.poll_timeout), (true, false, 7)),
        GatewayArgs::Exit(_) => panic!("the options are in order"),
    }
    match parse_gateway_args(&words(&["run", "--poll-timeout"])) {
        GatewayArgs::Exit(reply) => {
            assert_eq!(reply.code, 2);
            assert_eq!(text(&reply.lines[0]), "! --poll-timeout requires seconds");
        }
        GatewayArgs::Run(_) => panic!("a number is missing"),
    }
    match parse_gateway_args(&words(&["run", "--x"])) {
        GatewayArgs::Exit(reply) => {
            assert_eq!(text(&reply.lines[0]), "! unknown gateway run option: --x");
        }
        GatewayArgs::Run(_) => panic!("an option is unknown"),
    }
    assert_eq!(parse_simulate_args(&words(&["simulate", "--once"])).unwrap(), true);
    assert_eq!(parse_simulate_args(&words(&["simulate"])).unwrap(), false);
    assert_eq!(parse_simulate_args(&words(&["simulate", "--help"])).unwrap_err().code, 0);
}

#[test]
fn gateway_needs_an_input() {
    let config = AgentConfig::constrained("/w".to_owned());
    let deaf = GatewayOptions { once: false, read_stdin: false, poll_timeout: 20 };
    let (code, lines) = gateway_start("/w", &config, &deaf);
    assert_eq!(code, Some(2));
    assert_eq!(
        text(lines.last().unwrap()),
        "! gateway has no inputs: configure telegram or omit --no-stdin"
    );
    let fed = GatewayOptions { once: false, read_stdin: true, poll_timeout: 20 };
    let (code, lines) = gateway_start("/w", &config, &fed);
    assert_eq!(code, None);
    assert_eq!(text(&lines[2]), "config=/w/minipaw.json");
    assert_eq!(text(&lines[3]), "model=offline");
    assert_eq!(telegram_start(&config).0, Some(2));
    assert_eq!(text(&simulate_start("/w")[1]), "workspace=/w");
}

#[test]
fn malformed_tokens_stop_the_gateway() {
    let mut config = AgentConfig::constrained("/w".to_owned());
    config.telegram_token = Some("x".to_owned());
    let (code, lines) = telegram_start(&config);
    assert_eq!(code, Some(2));
    assert_eq!(
        text(&lines[0]),
        "! telegram token is invalid: expected <numeric-bot-id>:<token-secret>"
    );
}

#[test]
fn lines_are_read() {
    let quit = read_gateway_line(" /exit ");
    assert!(matches!(quit, GatewayLine::Quit));
    let empty = read_gateway_line("  ");
    assert!(matches!(empty, GatewayLine::Empty));
    match read_gateway_line("nonsense") {
        GatewayLine::Malformed(lines) => {
            assert_eq!(text(&lines[0]), "! ignored malformed gateway event: nonsense");
        }
        _ => panic!("the line is no event"),
    }
    assert!(matches!(read_gateway_line("tg 5 hi"), GatewayLine::Event(_)));
    assert!(parse_simulated_gateway_event("telegram x hi").is_none());
    assert!(parse_simulated_gateway_event("telegram 5  ").is_none());
    assert!(parse_simulated_gateway_event("mail 5 hi").is_none());
}

#[test]
fn chats_are_processed_or_paired() {
    let (lines, step) = take_chat_message(&channel(), 7, "do\n\"it\"");
    match step {
        ChatStep::Process(message) => {
            assert_eq!(message.text, "do\n\"it\"");
            assert_eq!(message.context_id.as_deref(), Some("7"));
            assert_eq!(message.source, "telegram");
        }
        ChatStep::Pair(_) => panic!("the chat is paired"),
    }
    assert_eq!(lines.len(), 2);
    let (_, step) = take_chat_message(&channel(), 8, "hi");
    match step {
        ChatStep::Pair(instructions) => assert_eq!(pairing_chat_id(&instructions), Some(8)),
        ChatStep::Process(_) => panic!("the chat is not paired"),
    }
    let update = TelegramMessage { update_id: 1, chat_id: 8, text: "é".into() };
    assert_eq!(text(&report_update("update ", &update)), "update 1 chat=8 bytes=2");
    assert!(matches!(take_update(&channel(), update), Some(ChatStep::Pair(_))));
}

#[test]
fn answers_and_deliveries_are_reported() {
    let (lines, reply) = answer_chat(7, &report("fine"));
    assert_eq!(reply, "Done:\nfine");
    assert_eq!(text(&lines[0]), "gateway task [minihow] steps=2");
    assert_eq!(format_session_report(&report("error: x")), "Failed:\nerror: x");
    assert_eq!(format_session_report(&report("  ")), "Done: (no output)");
    assert_eq!(
        text(&report_delivery(7, false, &Some(Ok(())))),
        "gateway deliver channel=telegram to=telegram:7 sent=true"
    );
    assert_eq!(
        text(&report_delivery(7, true, &None)),
        "gateway deliver channel=telegram to=telegram:7 pairing=required sent=false"
    );
    assert_eq!(
        text(&report_delivery(7, false, &Some(Err("down".into())))),
        "! gateway telegram send failed: down"
    );
    assert_eq!(text(&report_runner_reply(&report("x"))), "telegram reply [minihow] steps=2");
    assert_eq!(text(&report_runner_delivery(None, &Ok(()))), "telegram reply sent");
    assert_eq!(
        text(&report_runner_delivery(Some(8), &Ok(()))),
        "telegram pairing instructions sent: 8"
    );
    assert_eq!(
        text(&report_runner_delivery(None, &Err("x".into()))),
        "! telegram send failed: x"
    );
}

#[test]
fn other_agents_are_quoted() {
    let (lines, message) = take_agent_message("agent:a", "note");
    assert_eq!(
        message.text,
        "[Inter-session message] sourceSessionKey=agent:a isUser=false\nnote"
    );
    assert_eq!(message.source, "agent");
    assert_eq!(lines.len(), 2);
    assert!(text(&answer_agent("agent:a", &report("yes"))).contains("role=\"assistant\""));
}

#[test]
fn offsets_move_on_and_unknown_bots_stop() {
    assert_eq!(next_offset(41), 42);
    let (step, lines) = after_poll_failure("poll failed: ", "The requested URL returned error: 404", true);
    assert_eq!(step, LoopStep::Exit(2));
    assert!(lines.len() > 1);
    let (step, lines) = after_poll_failure("poll failed: ", "timeout", true);
    assert_eq!(step, LoopStep::Continue);
    assert_eq!(text(&lines[0]), "! poll failed: timeout");
}

#[test]
fn gateway_words_are_read() {
    assert!(matches!(parse_gateway_word(&words(&["run"])), GatewayCommand::Run));
    assert!(matches!(parse_gateway_word(&words(&["simulate"])), GatewayCommand::Simulate));
    match parse_gateway_word(&words(&[])) {
        GatewayCommand::Fail(reply) => assert_eq!(reply.code, 2),
        _ => panic!("a word is missing"),
    }
    assert!(parse_telegram_word(&words(&["run"])).is_none());
    assert_eq!(
        text(&parse_telegram_word(&words(&["walk"])).unwrap().lines[0]),
        "! usage: minipaw telegram run"
    );
}

fn printed(lines: &[Line]) -> Vec<String> {
    lines.iter().map(text).collect()
}

fn update(id: i64, chat_id: i64, body: &str) -> TelegramMessage {
    TelegramMessage { update_id: id, chat_id, text: body.into() }
}

#[test]
fn gateway_takes_lines_before_it_polls() {
    let options = GatewayOptions { once: false, read_stdin: true, poll_timeout: 9 };
    let mut run = GatewayRun::start(options, Some("t".to_owned()), channel());
    assert!(matches!(run.next_action(), GatewayAction::TakeLine));
    run.took_line(Some("agent agent:a note"));
    match run.next_action() {
        GatewayAction::Process(m) => assert_eq!(m.source, "agent"),
        other => panic!("unexpected action {other:?}"),
    }
    run.processed(&report("fine"));
    assert_eq!(run.lines.len(), 1);
    run.took_line(Some("telegram 8 hi"));
    assert_eq!(
        printed(&run.lines)[2],
        "gateway deliver channel=telegram to=telegram:8 pairing=required sent=false"
    );
    run.took_line(None);
    match run.next_action() {
        GatewayAction::Poll { token, offset, timeout } => {
            assert_eq!((token.as_str(), offset, timeout), ("t", None, 9));
        }
        other => panic!("unexpected action {other:?}"),
    }
    run.polled(Ok(vec![update(4, 7, "do it"), update(5, 8, "hello")]));
    assert_eq!(printed(&run.lines)[0], "gateway recv channel=telegram update=4 chat=7 bytes=5");
    match run.next_action() {
        GatewayAction::Process(m) => assert_eq!(m.text, "do it"),
        other => panic!("unexpected action {other:?}"),
    }
    run.processed(&report("fine"));
    match run.next_action() {
        GatewayAction::Deliver { chat_id, reply, .. } => {
            assert_eq!((chat_id, reply.as_str()), (7, "Done:\nfine"));
        }
        other => panic!("unexpected action {other:?}"),
    }
    run.delivered(Ok(()));
    match run.next_action() {
        GatewayAction::Deliver { chat_id, reply, .. } => {
            assert_eq!(chat_id, 8);
            assert_eq!(pairing_chat_id(&reply), Some(8));
        }
        other => panic!("unexpected action {other:?}"),
    }
    run.delivered(Err("down".to_owned()));
    assert_eq!(printed(&run.lines), vec!["! gateway telegram pairing send failed: down"]);
    assert_eq!(run.offset, Some(6));
    assert!(matches!(run.next_action(), GatewayAction::TakeLine));
    run.took_line(Some("/quit"));
    assert_eq!(printed(&run.lines), vec!["gateway stopping"]);
    assert!(matches!(run.next_action(), GatewayAction::Exit(0)));
}

#[test]
fn gateway_ends_after_one_message() {
    let options = GatewayOptions { once: true, read_stdin: false, poll_timeout: 9 };
    let mut run = GatewayRun::start(options, Some("t".to_owned()), channel());
    run.polled(Err("The requested URL returned error: 500".to_owned()));
    assert!(matches!(run.next_action(), GatewayAction::Poll { .. }));
    run.polled(Ok(vec![update(1, 7, "a"), update(2, 7, "b")]));
    run.processed(&report("fine"));
    run.delivered(Ok(()));
    assert!(matches!(run.next_action(), GatewayAction::Exit(0)));
    let idle = GatewayOptions { once: false, read_stdin: false, poll_timeout: 9 };
    let mut quiet = GatewayRun::start(idle, None, channel());
    assert!(matches!(quiet.next_action(), GatewayAction::Wait));
    quiet.waited();
    assert!(matches!(quiet.next_action(), GatewayAction::Wait));
    let mut lost = GatewayRun::start(idle, Some("t".to_owned()), channel());
    lost.polled(Err("returned error: 404".to_owned()));
    assert!(matches!(lost.next_action(), GatewayAction::Exit(2)));
}

#[test]
fn simulated_gateway_reads_lines_only() {
    let mut run = GatewayRun::simulated(true, channel());
    run.took_line(Some("  "));
    run.took_line(Some("nonsense"));
    assert_eq!(run.lines.len(), 2);
    assert!(matches!(run.next_action(), GatewayAction::TakeLine));
    run.took_line(Some("tg 7 go"));
    run.processed(&report("fine"));
    assert!(matches!(run.next_action(), GatewayAction::Exit(0)));
    let mut ended = GatewayRun::simulated(false, channel());
    ended.took_line(None);
    assert!(matches!(ended.next_action(), GatewayAction::Exit(0)));
    let mut quit = GatewayRun::simulated(false, channel());
    quit.took_line(Some("/exit"));
    assert!(quit.lines.is_empty());
}

#[test]
fn runner_answers_paired_chats() {
    let mut run = RunnerRun::start(channel());
    match run.next_action() {
        GatewayAction::Poll { timeout, offset, .. } => assert_eq!((timeout, offset), (25, None)),
        other => panic!("unexpected action {other:?}"),
    }
    run.polled(Ok(vec![]));
    assert_eq!(printed(&run.lines), vec!["telegram poll: no updates"]);
    run.polled(Ok(vec![update(1, 0, "x"), update(2, 7, "y"), update(3, 8, "z")]));
    assert_eq!(
        printed(&run.lines),
        vec!["telegram update=1 chat=0 bytes=1", "telegram update=2 chat=7 bytes=1"]
    );
    run.processed(&report("fine"));
    assert_eq!(printed(&run.lines), vec!["telegram reply [minihow] steps=2"]);
    run.delivered(Ok(()));
    assert_eq!(
        printed(&run.lines),
        vec!["telegram reply sent", "telegram update=3 chat=8 bytes=1"]
    );
    run.delivered(Ok(()));
    assert_eq!(printed(&run.lines), vec!["telegram pairing instructions sent: 8"]);
    assert_eq!(run.offset, Some(4));
    run.polled(Err("returned error: 404".to_owned()));
    assert_eq!(run.lines.len(), 2);
    assert!(matches!(run.next_action(), GatewayAction::Exit(2)));
}
