//! The gateway: its options, its start, the events that come in, and what is
//! printed and delivered for each.
use vstd::prelude::*;

use crate::channels::telegram::{
    pairing_instructions, TelegramAdmission, TelegramChannel, TelegramMessage,
};
use crate::chars;
use crate::cli::settings::arg;
use crate::cli::{
    cap_gateway_text, chat_in, chat_reply, chats_text, compact, complain, format_session_report,
    is_not_found, is_telegram_not_found_error, join_chat_ids, line_models, no_lines, pair,
    pairing_chat_id, quote_compact, say, token_fault, validate_telegram_token, CommandReply, Line,
    LineModel, ReplyModel,
};
use crate::config;
use crate::config::{joined, AgentConfig};
use crate::minicore::{IncomingMessage, SessionReport};
use crate::numbers;
use crate::text;

verus! {

// ---------------------------------------------------------------------------
// Options
// ---------------------------------------------------------------------------

/// How the gateway runs. `poll_timeout` is in seconds.
#[derive(Debug, Clone, Copy, PartialEq, Eq, Structural)]
pub struct GatewayOptions {
    pub once: bool,
    pub read_stdin: bool,
    pub poll_timeout: u64,
}

/// How reading the gateway's options ended.
#[derive(Debug)]
pub enum GatewayArgs {
    Run(GatewayOptions),
    Exit(CommandReply),
}

/// How reading the gateway's options ended, by its contents.
pub ghost enum GatewayArgsModel {
    Run(GatewayOptions),
    Exit(ReplyModel),
}

impl View for GatewayArgs {
    type V = GatewayArgsModel;

    open spec fn view(&self) -> GatewayArgsModel {
        match self {
            GatewayArgs::Run(o) => GatewayArgsModel::Run(*o),
            GatewayArgs::Exit(r) => GatewayArgsModel::Exit(r@),
        }
    }
}

/// The help of `gateway run`.
pub const GATEWAY_RUN_HELP: &'static str =
    "usage: minipaw gateway run [--once] [--no-stdin] [--poll-timeout <secs>]
Runs the foreground gateway using minipaw.json from the default workspace.
Inputs:
- Telegram long polling when telegram.bot_token is configured
- stdin events unless --no-stdin is set:
telegram <chat-id> <message>
agent <session-key> <message>
/quit";

/// The help of `gateway simulate`.
pub const GATEWAY_SIMULATE_HELP: &'static str = "usage: minipaw gateway simulate [--once]
Reads simulated gateway events from stdin:
telegram <chat-id> <message>
agent <session-key> <message>
/quit";

/// A timeout from 1 to 25 seconds, 5 where the setting is no number.
pub open spec fn timeout_of(v: Seq<char>) -> u64 {
    match numbers::unsigned_value(v, 10, u64::MAX as nat) {
        Ok(n) => if n < 1 {
            1
        } else if n > 25 {
            25
        } else {
            n as u64
        },
        Err(_) => 5,
    }
}

/// The options that the arguments from number `i` on leave.
pub open spec fn gateway_options(
    args: Seq<Seq<char>>,
    i: int,
    o: GatewayOptions,
) -> GatewayArgsModel
    decreases args.len() - i,
{
    if i < 0 || i >= args.len() {
        GatewayArgsModel::Run(o)
    } else if args[i] == "--once"@ {
        gateway_options(args, i + 1, GatewayOptions { once: true, ..o })
    } else if args[i] == "--no-stdin"@ {
        gateway_options(args, i + 1, GatewayOptions { read_stdin: false, ..o })
    } else if args[i] == "--poll-timeout"@ {
        if i + 1 >= args.len() {
            GatewayArgsModel::Exit(ReplyModel::fails("--poll-timeout requires seconds"@))
        } else {
            gateway_options(
                args,
                i + 2,
                GatewayOptions { poll_timeout: timeout_of(args[i + 1]), ..o },
            )
        }
    } else if args[i] == "--help"@ || args[i] == "-h"@ {
        GatewayArgsModel::Exit(
            ReplyModel::says(0, seq![LineModel::Complaint(GATEWAY_RUN_HELP@)]),
        )
    } else {
        GatewayArgsModel::Exit(
            ReplyModel::says(
                2,
                seq![
                    LineModel::Complaint("unknown gateway run option: "@ + args[i]),
                    LineModel::Complaint(GATEWAY_RUN_HELP@),
                ],
            ),
        )
    }
}

/// The options before the arguments.
pub open spec fn default_options() -> GatewayOptions {
    GatewayOptions { once: false, read_stdin: true, poll_timeout: 5 }
}

fn parse_timeout(v: &str) -> (r: u64)
    ensures
        r == timeout_of(v@),
{
    match numbers::parse_u64(v) {
        Some(n) => if n < 1 {
            1
        } else if n > 25 {
            25
        } else {
            n
        },
        None => 5,
    }
}

fn help_reply(code: i32, help: &str) -> (r: CommandReply)
    ensures
        r@ == ReplyModel::says(code as int, seq![LineModel::Complaint(help@)]),
{
    let mut lines = no_lines();
    complain(&mut lines, help.to_owned());
    assert(line_models(lines@) =~= seq![LineModel::Complaint(help@)]);
    CommandReply::says(code, lines)
}

fn unknown_reply(head: &str, a: &str, help: &str) -> (r: CommandReply)
    ensures
        r@ == ReplyModel::says(
            2,
            seq![LineModel::Complaint(head@ + a@), LineModel::Complaint(help@)],
        ),
{
    let mut lines = no_lines();
    complain(&mut lines, pair(head, a));
    complain(&mut lines, help.to_owned());
    assert(line_models(lines@) =~= seq![
        LineModel::Complaint(head@ + a@),
        LineModel::Complaint(help@),
    ]);
    CommandReply::says(2, lines)
}

/// What `gateway` is asked for.
#[derive(Debug)]
pub enum GatewayCommand {
    Run,
    Simulate,
    Fail(CommandReply),
}

/// Reads the word after `gateway`.
pub fn parse_gateway_word(args: &Vec<String>) -> (r: GatewayCommand)
    ensures
        ({
            let word = arg(chars::owned_texts(args@), 0);
            if word == Some("run"@) {
                r is Run
            } else if word == Some("simulate"@) {
                r is Simulate
            } else {
                r matches GatewayCommand::Fail(reply) && reply@ == ReplyModel::fails(
                    "usage: minipaw gateway run [--once] [--no-stdin] [--poll-timeout <secs>] | gateway simulate [--once]"@,
                )
            }
        }),
{
    proof {
        reveal_strlit("run");
        reveal_strlit("simulate");
        assert("run"@.len() == 3 && "simulate"@.len() == 8);
    }
    if args.len() > 0 {
        assert(chars::owned_texts(args@)[0] == args@[0]@);
        if text::same(args[0].as_str(), "run") {
            return GatewayCommand::Run;
        }
        if text::same(args[0].as_str(), "simulate") {
            return GatewayCommand::Simulate;
        }
    }
    GatewayCommand::Fail(
        CommandReply::fails(
            "usage: minipaw gateway run [--once] [--no-stdin] [--poll-timeout <secs>] | gateway simulate [--once]".to_owned(),
        ),
    )
}

/// Reads the word after `telegram`: the runner is asked for, or nothing that is
/// known.
pub fn parse_telegram_word(args: &Vec<String>) -> (r: Option<CommandReply>)
    ensures
        match r {
            None => arg(chars::owned_texts(args@), 0) == Some("run"@),
            Some(reply) => arg(chars::owned_texts(args@), 0) != Some("run"@) && reply@
                == ReplyModel::fails("usage: minipaw telegram run"@),
        },
{
    if args.len() > 0 {
        assert(chars::owned_texts(args@)[0] == args@[0]@);
        if text::same(args[0].as_str(), "run") {
            return None;
        }
    }
    Some(CommandReply::fails("usage: minipaw telegram run".to_owned()))
}

/// The options of `gateway run`, which is the first argument.
pub fn parse_gateway_args(args: &Vec<String>) -> (r: GatewayArgs)
    requires
        args@.len() > 0,
    ensures
        r@ == gateway_options(chars::owned_texts(args@), 1, default_options()),
{
    let ghost all = chars::owned_texts(args@);
    let mut o = GatewayOptions { once: false, read_stdin: true, poll_timeout: 5 };
    let mut i: usize = 1;
    while i < args.len()
        invariant
            1 <= i <= args.len(),
            all == chars::owned_texts(args@),
            gateway_options(all, 1, default_options()) == gateway_options(all, i as int, o),
        decreases args.len() - i,
    {
        let a = args[i].as_str();
        assert(all[i as int] == a@);
        if text::same(a, "--once") {
            o.once = true;
            i += 1;
        } else if text::same(a, "--no-stdin") {
            o.read_stdin = false;
            i += 1;
        } else if text::same(a, "--poll-timeout") {
            if args.len() - i < 2 {
                return GatewayArgs::Exit(
                    CommandReply::fails("--poll-timeout requires seconds".to_owned()),
                );
            }
            assert(all[i + 1] == args@[i + 1]@);
            o.poll_timeout = parse_timeout(args[i + 1].as_str());
            i += 2;
        } else if text::same(a, "--help") || text::same(a, "-h") {
            return GatewayArgs::Exit(help_reply(0, GATEWAY_RUN_HELP));
        } else {
            return GatewayArgs::Exit(
                unknown_reply("unknown gateway run option: ", a, GATEWAY_RUN_HELP),
            );
        }
    }
    GatewayArgs::Run(o)
}

/// How reading the options of `gateway simulate` ended: whether one event is
/// enough, or a reply.
pub open spec fn simulate_options(
    args: Seq<Seq<char>>,
    i: int,
    once: bool,
) -> Result<bool, ReplyModel>
    decreases args.len() - i,
{
    if i < 0 || i >= args.len() {
        Ok(once)
    } else if args[i] == "--once"@ {
        simulate_options(args, i + 1, true)
    } else if args[i] == "--help"@ || args[i] == "-h"@ {
        Err(ReplyModel::says(0, seq![LineModel::Complaint(GATEWAY_SIMULATE_HELP@)]))
    } else {
        Err(
            ReplyModel::says(
                2,
                seq![
                    LineModel::Complaint("unknown gateway simulate option: "@ + args[i]),
                    LineModel::Complaint(GATEWAY_SIMULATE_HELP@),
                ],
            ),
        )
    }
}

/// The options of `gateway simulate`, which is the first argument.
pub fn parse_simulate_args(args: &Vec<String>) -> (r: Result<bool, CommandReply>)
    requires
        args@.len() > 0,
    ensures
        match r {
            Ok(once) => simulate_options(chars::owned_texts(args@), 1, false) == Ok::<
                bool,
                ReplyModel,
            >(once),
            Err(e) => simulate_options(chars::owned_texts(args@), 1, false) == Err::<
                bool,
                ReplyModel,
            >(e@),
        },
{
    let ghost all = chars::owned_texts(args@);
    let mut once = false;
    let mut i: usize = 1;
    while i < args.len()
        invariant
            1 <= i <= args.len(),
            all == chars::owned_texts(args@),
            simulate_options(all, 1, false) == simulate_options(all, i as int, once),
        decreases args.len() - i,
    {
        let a = args[i].as_str();
        assert(all[i as int] == a@);
        if text::same(a, "--once") {
            once = true;
            i += 1;
        } else if text::same(a, "--help") || text::same(a, "-h") {
            return Err(help_reply(0, GATEWAY_SIMULATE_HELP));
        } else {
            return Err(
                unknown_reply("unknown gateway simulate option: ", a, GATEWAY_SIMULATE_HELP),
            );
        }
    }
    Ok(once)
}

// ---------------------------------------------------------------------------
// Start
// ---------------------------------------------------------------------------

/// How to get a token that is accepted.
pub open spec fn token_advice() -> Seq<char> {
    "fix it with: minipaw config telegram set --token <bot-token> --chats <chat-id[,chat-id...]>"@
}

/// What is printed about a token of the wrong shape.
pub open spec fn token_complaint(fault: Seq<char>) -> Seq<LineModel> {
    seq![
        LineModel::Complaint("telegram token is invalid: "@ + fault),
        LineModel::Complaint(token_advice()),
    ]
}

/// The fault of a token, where one is set.
pub open spec fn fault_of(token: Option<Seq<char>>) -> Option<Seq<char>> {
    match token {
        Some(t) => token_fault(t),
        None => None,
    }
}

/// The model that the gateway runs with.
pub open spec fn model_text(c: AgentConfig) -> Seq<char> {
    match c.primary_agent {
        Some(llm) => llm.provider@ + ":"@ + llm.model@,
        None => "offline"@,
    }
}

/// What the gateway prints when it starts.
pub open spec fn start_lines(workspace: Seq<char>, c: AgentConfig, o: GatewayOptions) -> Seq<
    LineModel,
> {
    seq![
        LineModel::Printed("minipaw gateway running"@),
        LineModel::Printed("workspace="@ + workspace),
        LineModel::Printed("config="@ + joined(workspace, "minipaw.json"@)),
        LineModel::Printed("model="@ + model_text(c)),
        LineModel::Printed(
            "telegram="@ + (if c.telegram_token is Some {
                "configured"@
            } else {
                "not-configured"@
            }) + " allowed_chats="@ + chats_text(c.telegram_allowed_chats@),
        ),
    ] + (if o.read_stdin {
        seq![
            LineModel::Printed(
                "stdin: agent <session-key> <message> | telegram <chat-id> <message> | /quit"@,
            ),
        ]
    } else {
        seq![]
    })
}

/// How the gateway starts: an exit code where it does not, and the lines that it
/// prints. It does not start with a token of the wrong shape, nor without any
/// input.
pub open spec fn gateway_start_reply(
    workspace: Seq<char>,
    c: AgentConfig,
    o: GatewayOptions,
) -> (Option<int>, Seq<LineModel>) {
    match fault_of(chars::opt_text(c.telegram_token)) {
        Some(fault) => (Some(2), token_complaint(fault)),
        None => if c.telegram_token is None && !o.read_stdin {
            (
                Some(2),
                start_lines(workspace, c, o).push(
                    LineModel::Complaint(
                        "gateway has no inputs: configure telegram or omit --no-stdin"@,
                    ),
                ),
            )
        } else {
            (None, start_lines(workspace, c, o))
        },
    }
}

fn complain_token(fault: &str) -> (r: Vec<Line>)
    ensures
        line_models(r@) == token_complaint(fault@),
{
    let mut lines = no_lines();
    complain(&mut lines, pair("telegram token is invalid: ", fault));
    complain(
        &mut lines,
        "fix it with: minipaw config telegram set --token <bot-token> --chats <chat-id[,chat-id...]>".to_owned(),
    );
    assert(line_models(lines@) =~= token_complaint(fault@));
    lines
}

/// Starts the gateway under its settings.
pub fn gateway_start(workspace: &str, c: &AgentConfig, o: &GatewayOptions) -> (r: (
    Option<i32>,
    Vec<Line>,
))
    ensures
        (
            match r.0 {
                Some(code) => Some(code as int),
                None => None,
            },
            line_models(r.1@),
        ) == gateway_start_reply(workspace@, *c, *o),
{
    match &c.telegram_token {
        Some(token) => match validate_telegram_token(token.as_str()) {
            Ok(_) => {},
            Err(fault) => {
                return (Some(2), complain_token(fault));
            },
        },
        None => {},
    }
    let mut lines = no_lines();
    say(&mut lines, "minipaw gateway running".to_owned());
    say(&mut lines, pair("workspace=", workspace));
    say(&mut lines, pair("config=", config::join_path(workspace, "minipaw.json").as_str()));
    let model = match &c.primary_agent {
        Some(llm) => {
            let mut m = llm.provider.clone();
            m.append(":");
            m.append(llm.model.as_str());
            m
        },
        None => "offline".to_owned(),
    };
    say(&mut lines, pair("model=", model.as_str()));
    let mut telegram = "telegram=".to_owned();
    if c.telegram_token.is_some() {
        telegram.append("configured");
    } else {
        telegram.append("not-configured");
    }
    telegram.append(" allowed_chats=");
    telegram.append(join_chat_ids(&c.telegram_allowed_chats).as_str());
    say(&mut lines, telegram);
    if o.read_stdin {
        say(
            &mut lines,
            "stdin: agent <session-key> <message> | telegram <chat-id> <message> | /quit".to_owned(),
        );
    }
    assert(line_models(lines@) =~= start_lines(workspace@, *c, *o));
    if c.telegram_token.is_none() && !o.read_stdin {
        complain(
            &mut lines,
            "gateway has no inputs: configure telegram or omit --no-stdin".to_owned(),
        );
        return (Some(2), lines);
    }
    (None, lines)
}

/// What the simulated gateway prints when it starts.
pub fn simulate_start(workspace: &str) -> (r: Vec<Line>)
    ensures
        line_models(r@) == seq![
            LineModel::Printed("minipaw simulated gateway"@),
            LineModel::Printed("workspace="@ + workspace@),
            LineModel::Printed("input: telegram <chat-id> <message>"@),
            LineModel::Printed("input: agent <session-key> <message>"@),
            LineModel::Printed("input: /quit"@),
        ],
{
    let mut lines = no_lines();
    say(&mut lines, "minipaw simulated gateway".to_owned());
    say(&mut lines, pair("workspace=", workspace));
    say(&mut lines, "input: telegram <chat-id> <message>".to_owned());
    say(&mut lines, "input: agent <session-key> <message>".to_owned());
    say(&mut lines, "input: /quit".to_owned());
    assert(line_models(lines@) =~= seq![
        LineModel::Printed("minipaw simulated gateway"@),
        LineModel::Printed("workspace="@ + workspace@),
        LineModel::Printed("input: telegram <chat-id> <message>"@),
        LineModel::Printed("input: agent <session-key> <message>"@),
        LineModel::Printed("input: /quit"@),
    ]);
    lines
}

/// How the Telegram runner starts: an exit code where it does not, and the lines
/// that it prints.
pub open spec fn telegram_start_reply(c: AgentConfig) -> (Option<int>, Seq<LineModel>) {
    match c.telegram_token {
        None => (Some(2), seq![LineModel::Complaint("telegram token is not configured"@)]),
        Some(token) => match token_fault(token@) {
            Some(fault) => (Some(2), token_complaint(fault)),
            None => (
                None,
                seq![
                    LineModel::Printed(
                        "telegram runner started; allowed_chats="@ + chats_text(
                            c.telegram_allowed_chats@,
                        ),
                    ),
                ],
            ),
        },
    }
}

/// Starts the Telegram runner under its settings.
pub fn telegram_start(c: &AgentConfig) -> (r: (Option<i32>, Vec<Line>))
    ensures
        (
            match r.0 {
                Some(code) => Some(code as int),
                None => None,
            },
            line_models(r.1@),
        ) == telegram_start_reply(*c),
{
    let mut lines = no_lines();
    match &c.telegram_token {
        None => {
            complain(&mut lines, "telegram token is not configured".to_owned());
            assert(line_models(lines@) =~= seq![
                LineModel::Complaint("telegram token is not configured"@),
            ]);
            (Some(2), lines)
        },
        Some(token) => match validate_telegram_token(token.as_str()) {
            Err(fault) => (Some(2), complain_token(fault)),
            Ok(_) => {
                let line = pair(
                    "telegram runner started; allowed_chats=",
                    join_chat_ids(&c.telegram_allowed_chats).as_str(),
                );
                let ghost x = line@;
                say(&mut lines, line);
                assert(line_models(lines@) =~= seq![LineModel::Printed(x)]);
                (None, lines)
            },
        },
    }
}

// ---------------------------------------------------------------------------
// Events
// ---------------------------------------------------------------------------

/// An event that comes in on a line.
#[derive(Debug, PartialEq, Eq)]
pub enum SimulatedGatewayEvent {
    Telegram { chat_id: i64, text: String },
    Agent { session_key: String, text: String },
}

/// An event by its texts.
pub ghost enum EventModel {
    Telegram { chat_id: int, text: Seq<char> },
    Agent { session_key: Seq<char>, text: Seq<char> },
}

impl View for SimulatedGatewayEvent {
    type V = EventModel;

    open spec fn view(&self) -> EventModel {
        match self {
            SimulatedGatewayEvent::Telegram { chat_id, text } => EventModel::Telegram {
                chat_id: *chat_id as int,
                text: text@,
            },
            SimulatedGatewayEvent::Agent { session_key, text } => EventModel::Agent {
                session_key: session_key@,
                text: text@,
            },
        }
    }
}

/// The contents of an optional event.
pub open spec fn opt_event(e: Option<SimulatedGatewayEvent>) -> Option<EventModel> {
    match e {
        Some(x) => Some(x@),
        None => None,
    }
}

/// The event on a line: the word for its channel, who it is from, and its text.
pub open spec fn event_in(line: Seq<char>) -> Option<EventModel> {
    match chars::around(line, " "@) {
        None => None,
        Some((kind, rest)) => match chars::around(chars::trim(rest), " "@) {
            None => None,
            Some((from, body)) => if kind == "telegram"@ || kind == "tg"@ {
                match numbers::signed_value(from) {
                    Some(chat_id) => Some(
                        EventModel::Telegram { chat_id, text: chars::trim(body) },
                    ),
                    None => None,
                }
            } else if kind == "agent"@ {
                Some(
                    EventModel::Agent {
                        session_key: chars::trim(from),
                        text: chars::trim(body),
                    },
                )
            } else {
                None
            },
        },
    }
}

/// The event on a line.
pub fn parse_simulated_gateway_event(line: &str) -> (r: Option<SimulatedGatewayEvent>)
    ensures
        opt_event(r) == event_in(line@),
{
    let (kind, rest) = match text::around(line, " ") {
        Some(parts) => parts,
        None => {
            return None;
        },
    };
    let (from, body) = match text::around(text::trim(rest), " ") {
        Some(parts) => parts,
        None => {
            return None;
        },
    };
    if text::same(kind, "telegram") || text::same(kind, "tg") {
        match numbers::parse_i64(from) {
            Some(chat_id) => Some(
                SimulatedGatewayEvent::Telegram { chat_id, text: text::trim(body).to_owned() },
            ),
            None => None,
        }
    } else if text::same(kind, "agent") {
        Some(
            SimulatedGatewayEvent::Agent {
                session_key: text::trim(from).to_owned(),
                text: text::trim(body).to_owned(),
            },
        )
    } else {
        None
    }
}

/// What a line that came in means.
#[derive(Debug)]
pub enum GatewayLine {
    Empty,
    Quit,
    Event(SimulatedGatewayEvent),
    Malformed(Vec<Line>),
}

/// What a line that came in means, by its contents.
pub ghost enum GatewayLineModel {
    Empty,
    Quit,
    Event(EventModel),
    Malformed(Seq<LineModel>),
}

impl View for GatewayLine {
    type V = GatewayLineModel;

    open spec fn view(&self) -> GatewayLineModel {
        match self {
            GatewayLine::Empty => GatewayLineModel::Empty,
            GatewayLine::Quit => GatewayLineModel::Quit,
            GatewayLine::Event(e) => GatewayLineModel::Event(e@),
            GatewayLine::Malformed(lines) => GatewayLineModel::Malformed(line_models(lines@)),
        }
    }
}

/// What a line means.
pub open spec fn line_meaning(line: Seq<char>) -> GatewayLineModel {
    let t = chars::trim(line);
    if t.len() == 0 {
        GatewayLineModel::Empty
    } else if t == "/quit"@ || t == "/exit"@ {
        GatewayLineModel::Quit
    } else {
        match event_in(t) {
            Some(e) => GatewayLineModel::Event(e),
            None => GatewayLineModel::Malformed(
                seq![
                    LineModel::Complaint("ignored malformed gateway event: "@ + t),
                    LineModel::Complaint(
                        "expected: telegram <chat-id> <message> | agent <session-key> <message>"@,
                    ),
                ],
            ),
        }
    }
}

/// What a line that came in means.
pub fn read_gateway_line(line: &str) -> (r: GatewayLine)
    ensures
        r@ == line_meaning(line@),
{
    let t = text::trim(line);
    if t.unicode_len() == 0 {
        return GatewayLine::Empty;
    }
    if text::same(t, "/quit") || text::same(t, "/exit") {
        return GatewayLine::Quit;
    }
    match parse_simulated_gateway_event(t) {
        Some(e) => GatewayLine::Event(e),
        None => {
            let mut lines = no_lines();
            complain(&mut lines, pair("ignored malformed gateway event: ", t));
            complain(
                &mut lines,
                "expected: telegram <chat-id> <message> | agent <session-key> <message>".to_owned(),
            );
            assert(line_models(lines@) =~= seq![
                LineModel::Complaint("ignored malformed gateway event: "@ + t@),
                LineModel::Complaint(
                    "expected: telegram <chat-id> <message> | agent <session-key> <message>"@,
                ),
            ]);
            GatewayLine::Malformed(lines)
        },
    }
}

/// Whether a loop goes on.
#[derive(Debug, Clone, Copy, PartialEq, Eq, Structural)]
pub enum LoopStep {
    Continue,
    Exit(i32),
}

/// The update to ask for after an update, up to the machine's limit.
pub fn next_offset(update_id: i64) -> (r: i64)
    ensures
        r == (if update_id == i64::MAX {
            i64::MAX
        } else {
            (update_id + 1) as i64
        }),
{
    if update_id == i64::MAX {
        update_id
    } else {
        update_id + 1
    }
}

/// What follows a failed poll: a token that is not known ends the loop.
pub open spec fn poll_failure(
    head: Seq<char>,
    error: Seq<char>,
    advise: bool,
) -> (LoopStep, Seq<LineModel>) {
    let first = LineModel::Complaint(head + error);
    if is_not_found(error) {
        let two = seq![
            first,
            LineModel::Complaint(
                "telegram returned 404; the configured bot token is not recognized by Telegram"@,
            ),
        ];
        (
            LoopStep::Exit(2),
            if advise {
                two.push(LineModel::Complaint(token_advice()))
            } else {
                two
            },
        )
    } else {
        (LoopStep::Continue, seq![first])
    }
}

/// What follows a failed poll.
pub fn after_poll_failure(head: &str, error: &str, advise: bool) -> (r: (LoopStep, Vec<Line>))
    ensures
        (r.0, line_models(r.1@)) == poll_failure(head@, error@, advise),
{
    let mut lines = no_lines();
    complain(&mut lines, pair(head, error));
    if is_telegram_not_found_error(error) {
        complain(
            &mut lines,
            "telegram returned 404; the configured bot token is not recognized by Telegram".to_owned(),
        );
        if advise {
            complain(
                &mut lines,
                "fix it with: minipaw config telegram set --token <bot-token> --chats <chat-id[,chat-id...]>".to_owned(),
            );
        }
        assert(line_models(lines@) =~= poll_failure(head@, error@, advise).1);
        (LoopStep::Exit(2), lines)
    } else {
        assert(line_models(lines@) =~= poll_failure(head@, error@, advise).1);
        (LoopStep::Continue, lines)
    }
}

// ---------------------------------------------------------------------------
// Messages
// ---------------------------------------------------------------------------

/// The line of an event.
pub open spec fn event_line(
    session_key: Seq<char>,
    channel: Seq<char>,
    to: Seq<char>,
    role: Seq<char>,
    body: Seq<char>,
) -> LineModel {
    LineModel::Printed(
        "event=session.message sessionKey="@ + compact(session_key) + " channel="@ + compact(
            channel,
        ) + " to="@ + compact(to) + " role="@ + compact(role) + " text="@ + compact(
            chars::capped(body, 1200, " [truncated]"@),
        ),
    )
}

/// The session of a Telegram chat.
pub open spec fn chat_session(chat_id: int) -> Seq<char> {
    "agent:main:telegram:chat:"@ + numbers::signed(chat_id)
}

/// The address of a Telegram chat.
pub open spec fn chat_address(chat_id: int) -> Seq<char> {
    "telegram:"@ + numbers::signed(chat_id)
}

/// The line of a chat's event.
pub open spec fn chat_event(chat_id: int, role: Seq<char>, body: Seq<char>) -> LineModel {
    event_line(chat_session(chat_id), "telegram"@, chat_address(chat_id), role, body)
}

fn render_event(session_key: &str, channel: &str, to: &str, role: &str, body: &str) -> (r: String)
    ensures
        LineModel::Printed(r@) == event_line(session_key@, channel@, to@, role@, body@),
{
    let mut out = "event=session.message sessionKey=".to_owned();
    out.append(quote_compact(session_key).as_str());
    out.append(" channel=");
    out.append(quote_compact(channel).as_str());
    out.append(" to=");
    out.append(quote_compact(to).as_str());
    out.append(" role=");
    out.append(quote_compact(role).as_str());
    out.append(" text=");
    out.append(quote_compact(cap_gateway_text(body, 1200).as_str()).as_str());
    out
}

fn render_chat_event(chat_id: i64, role: &str, body: &str) -> (r: String)
    ensures
        LineModel::Printed(r@) == chat_event(chat_id as int, role@, body@),
{
    let id = numbers::signed_of(chat_id);
    render_event(
        pair("agent:main:telegram:chat:", id.as_str()).as_str(),
        "telegram",
        pair("telegram:", id.as_str()).as_str(),
        role,
        body,
    )
}

/// What is to be done about a message from a chat.
#[derive(Debug)]
pub enum ChatStep {
    /// The message is processed.
    Process(IncomingMessage),
    /// The instructions to pair the chat are delivered.
    Pair(String),
}

/// A message of a chat that is processed.
pub open spec fn is_chat_message(m: IncomingMessage, chat_id: int, body: Seq<char>) -> bool {
    &&& m.text@ == body
    &&& chars::opt_text(m.context_id) == Some(numbers::signed(chat_id))
    &&& m.source@ == "telegram"@
    &&& m.subclass is None
}

pub(crate) fn chat_message(chat_id: i64, body: String) -> (r: IncomingMessage)
    ensures
        is_chat_message(r, chat_id as int, body@),
{
    IncomingMessage {
        text: body,
        context_id: Some(numbers::signed_of(chat_id)),
        source: "telegram".to_owned(),
        subclass: None,
    }
}

/// Takes a message from a chat: one from a paired chat is processed, any other
/// chat gets instructions. Prints the event, and the route or the answer.
pub fn take_chat_message(channel: &TelegramChannel, chat_id: i64, body: &str) -> (r: (
    Vec<Line>,
    ChatStep,
))
    ensures
        if channel.config.allowed_chats@.contains(chat_id) {
            &&& line_models(r.0@) == seq![
                chat_event(chat_id as int, "user"@, body@),
                LineModel::Printed("gateway route channel=telegram task="@ + compact(body@)),
            ]
            &&& r.1 matches ChatStep::Process(m) && is_chat_message(m, chat_id as int, body@)
        } else {
            &&& line_models(r.0@) == seq![
                chat_event(chat_id as int, "user"@, body@),
                chat_event(
                    chat_id as int,
                    "assistant"@,
                    pairing_instructions(chat_id as int),
                ),
            ]
            &&& r.1 matches ChatStep::Pair(t) && t@ == pairing_instructions(chat_id as int)
        },
{
    let mut lines = no_lines();
    say(&mut lines, render_chat_event(chat_id, "user", body));
    let message = TelegramMessage { update_id: 0, chat_id, text: body.to_owned() };
    match channel.admit_message(message) {
        TelegramAdmission::Accepted(t) => {
            say(
                &mut lines,
                pair(
                    "gateway route channel=telegram task=",
                    quote_compact(t.as_str()).as_str(),
                ),
            );
            assert(line_models(lines@) =~= seq![
                chat_event(chat_id as int, "user"@, body@),
                LineModel::Printed("gateway route channel=telegram task="@ + compact(body@)),
            ]);
            (lines, ChatStep::Process(chat_message(chat_id, t)))
        },
        TelegramAdmission::PairingRequired(t) => {
            say(&mut lines, render_chat_event(chat_id, "assistant", t.as_str()));
            assert(line_models(lines@) =~= seq![
                chat_event(chat_id as int, "user"@, body@),
                chat_event(
                    chat_id as int,
                    "assistant"@,
                    pairing_instructions(chat_id as int),
                ),
            ]);
            (lines, ChatStep::Pair(t))
        },
    }
}

/// The answer to a chat for a session, and what is printed about it.
pub fn answer_chat(chat_id: i64, report: &SessionReport) -> (r: (Vec<Line>, String))
    ensures
        r.1@ == chat_reply(report.class, report.output@),
        line_models(r.0@) == seq![
            LineModel::Printed(
                "gateway task ["@ + report.class.name() + "] steps="@ + numbers::decimal(
                    report.steps as nat,
                ),
            ),
            chat_event(chat_id as int, "assistant"@, r.1@),
        ],
{
    let reply = format_session_report(report);
    let mut task = "gateway task [".to_owned();
    task.append(report.class.label());
    task.append("] steps=");
    task.append(numbers::usize_text(report.steps).as_str());
    let ghost x = task@;
    let mut lines = no_lines();
    say(&mut lines, task);
    say(&mut lines, render_chat_event(chat_id, "assistant", reply.as_str()));
    assert(line_models(lines@) =~= seq![
        LineModel::Printed(x),
        chat_event(chat_id as int, "assistant"@, reply@),
    ]);
    (lines, reply)
}

/// What is printed about a delivery: one that was not tried, one that succeeded,
/// or one that failed.
pub open spec fn delivery_line(
    chat_id: int,
    pairing: bool,
    outcome: Option<Result<(), String>>,
) -> LineModel {
    let head = "gateway deliver channel=telegram to=telegram:"@ + numbers::signed(chat_id) + (
    if pairing {
        " pairing=required"@
    } else {
        ""@
    });
    match outcome {
        Some(Ok(_)) => LineModel::Printed(head + " sent=true"@),
        None => LineModel::Printed(head + " sent=false"@),
        Some(Err(e)) => LineModel::Complaint(
            (if pairing {
                "gateway telegram pairing send failed: "@
            } else {
                "gateway telegram send failed: "@
            }) + e@,
        ),
    }
}

/// What is printed about a delivery.
pub fn report_delivery(chat_id: i64, pairing: bool, outcome: &Option<Result<(), String>>) -> (r:
    Line)
    ensures
        r@ == delivery_line(chat_id as int, pairing, *outcome),
{
    let mut head = "gateway deliver channel=telegram to=telegram:".to_owned();
    head.append(numbers::signed_of(chat_id).as_str());
    if pairing {
        head.append(" pairing=required");
    } else {
        head.append("");
    }
    match outcome {
        Some(Ok(_)) => {
            head.append(" sent=true");
            Line::Printed(head)
        },
        None => {
            head.append(" sent=false");
            Line::Printed(head)
        },
        Some(Err(e)) => {
            let prefix = if pairing {
                "gateway telegram pairing send failed: "
            } else {
                "gateway telegram send failed: "
            };
            Line::Complaint(pair(prefix, e.as_str()))
        },
    }
}

/// A message from another agent as a session sees it.
pub open spec fn routed_text(session_key: Seq<char>, body: Seq<char>) -> Seq<char> {
    "[Inter-session message] sourceSessionKey="@ + session_key + " isUser=false\n"@ + body
}

/// Takes a message from another agent: it is processed in the session of its key.
pub fn take_agent_message(session_key: &str, body: &str) -> (r: (Vec<Line>, IncomingMessage))
    ensures
        line_models(r.0@) == seq![
            event_line(session_key@, "agent"@, session_key@, "user"@, body@),
            LineModel::Printed(
                "gateway route channel=agent kind=inter-session task="@ + compact(
                    routed_text(session_key@, body@),
                ),
            ),
        ],
        r.1.text@ == routed_text(session_key@, body@),
        chars::opt_text(r.1.context_id) == Some(session_key@),
        r.1.source@ == "agent"@,
        r.1.subclass is None,
{
    let mut routed = "[Inter-session message] sourceSessionKey=".to_owned();
    routed.append(session_key);
    routed.append(" isUser=false\n");
    routed.append(body);
    let mut lines = no_lines();
    say(&mut lines, render_event(session_key, "agent", session_key, "user", body));
    say(
        &mut lines,
        pair(
            "gateway route channel=agent kind=inter-session task=",
            quote_compact(routed.as_str()).as_str(),
        ),
    );
    assert(line_models(lines@) =~= seq![
        event_line(session_key@, "agent"@, session_key@, "user"@, body@),
        LineModel::Printed(
            "gateway route channel=agent kind=inter-session task="@ + compact(
                routed_text(session_key@, body@),
            ),
        ),
    ]);
    let message = IncomingMessage {
        text: routed,
        context_id: Some(session_key.to_owned()),
        source: "agent".to_owned(),
        subclass: None,
    };
    (lines, message)
}

/// What is printed of the answer to another agent.
pub fn answer_agent(session_key: &str, report: &SessionReport) -> (r: Line)
    ensures
        r@ == event_line(session_key@, "agent"@, session_key@, "assistant"@, report.output@),
{
    Line::Printed(
        render_event(session_key, "agent", session_key, "assistant", report.output.as_str()),
    )
}

/// What is printed of an update that came in.
pub fn report_update(head: &str, message: &TelegramMessage) -> (r: Line)
    ensures
        r@ == LineModel::Printed(
            head@ + numbers::signed(message.update_id as int) + " chat="@ + numbers::signed(
                message.chat_id as int,
            ) + " bytes="@ + numbers::decimal(chars::byte_len(message.text@)),
        ),
{
    let mut out = head.to_owned();
    out.append(numbers::signed_of(message.update_id).as_str());
    out.append(" chat=");
    out.append(numbers::signed_of(message.chat_id).as_str());
    out.append(" bytes=");
    out.append(numbers::usize_text(text::byte_len(message.text.as_str())).as_str());
    Line::Printed(out)
}

/// Takes an update of the Telegram runner: a message from a paired chat is
/// processed, any other chat gets instructions, except for the chat with the
/// number 0, which gets none.
pub fn take_update(channel: &TelegramChannel, message: TelegramMessage) -> (r: Option<ChatStep>)
    ensures
        if channel.config.allowed_chats@.contains(message.chat_id) {
            r matches Some(ChatStep::Process(m)) && is_chat_message(
                m,
                message.chat_id as int,
                message.text@,
            )
        } else if message.chat_id == 0 {
            r is None
        } else {
            r matches Some(ChatStep::Pair(t)) && t@ == pairing_instructions(
                message.chat_id as int,
            )
        },
{
    let chat_id: i64 = message.chat_id;
    match channel.admit_message(message) {
        TelegramAdmission::Accepted(t) => Some(ChatStep::Process(chat_message(chat_id, t))),
        TelegramAdmission::PairingRequired(t) => {
            proof {
                lemma_pairing_names_chat(chat_id as int);
            }
            match pairing_chat_id(t.as_str()) {
                Some(id) => if id != 0 {
                    Some(ChatStep::Pair(t))
                } else {
                    None
                },
                None => None,
            }
        },
    }
}

/// The instructions to pair a chat name that chat.
pub proof fn lemma_pairing_names_chat(chat_id: int)
    requires
        i64::MIN <= chat_id <= i64::MAX,
    ensures
        chat_in(chars::lines(pairing_instructions(chat_id))) == Some(chat_id),
{
    let a = "This Telegram chat is not paired with minipaw."@;
    let b = "chat_id="@ + numbers::signed(chat_id);
    let whole = pairing_instructions(chat_id);
    reveal_strlit("This Telegram chat is not paired with minipaw.");
    reveal_strlit("This Telegram chat is not paired with minipaw.\nchat_id=");
    reveal_strlit("chat_id=");
    reveal_strlit("\nRun this on the minipaw machine:\nminipaw config telegram pair ");
    let tail = "\nRun this on the minipaw machine:\nminipaw config telegram pair "@
        + numbers::signed(chat_id);
    assert("This Telegram chat is not paired with minipaw.\nchat_id="@ =~= a + seq!['\n']
        + "chat_id="@);
    assert(whole =~= a + seq!['\n'] + (b + tail));
    numbers::lemma_signed_chars(chat_id);
    chars::lemma_first_line(a, b + tail);
    let rest = "Run this on the minipaw machine:\nminipaw config telegram pair "@;
    reveal_strlit("Run this on the minipaw machine:\nminipaw config telegram pair ");
    assert(tail =~= seq!['\n'] + (rest + numbers::signed(chat_id)));
    assert(b + tail =~= b + seq!['\n'] + (rest + numbers::signed(chat_id)));
    chars::lemma_first_line(b, rest + numbers::signed(chat_id));
    let lines = chars::lines(whole);
    assert(lines[0] == a);
    assert(lines.skip(1) =~= chars::lines(b + tail));
    assert(a[0] == 'T' && "chat_id="@[0] == 'c');
    assert(!chars::starts_with(a, "chat_id="@)) by {
        assert(a.take(8)[0] == 'T');
    }
    let more = chars::lines(b + tail);
    assert(more[0] == b);
    assert(b.take(8) =~= "chat_id="@);
    assert(b.skip(8) =~= numbers::signed(chat_id));
    numbers::law_signed_round_trip(chat_id);
    assert(chat_in(lines) == chat_in(lines.skip(1)));
}

/// What the Telegram runner prints about an answer before it is sent.
pub fn report_runner_reply(report: &SessionReport) -> (r: Line)
    ensures
        r@ == LineModel::Printed(
            "telegram reply ["@ + report.class.name() + "] steps="@ + numbers::decimal(
                report.steps as nat,
            ),
        ),
{
    let mut out = "telegram reply [".to_owned();
    out.append(report.class.label());
    out.append("] steps=");
    out.append(numbers::usize_text(report.steps).as_str());
    Line::Printed(out)
}

/// What the Telegram runner prints about a delivery: of an answer, or of the
/// instructions to pair a chat.
pub fn report_runner_delivery(pairing: Option<i64>, outcome: &Result<(), String>) -> (r: Line)
    ensures
        r@ == (match *outcome {
            Ok(_) => LineModel::Printed(
                match pairing {
                    Some(chat_id) => "telegram pairing instructions sent: "@ + numbers::signed(
                        chat_id as int,
                    ),
                    None => "telegram reply sent"@,
                },
            ),
            Err(e) => LineModel::Complaint("telegram send failed: "@ + e@),
        }),
{
    match outcome {
        Ok(_) => match pairing {
            Some(chat_id) => Line::Printed(
                pair(
                    "telegram pairing instructions sent: ",
                    numbers::signed_of(chat_id).as_str(),
                ),
            ),
            None => Line::Printed("telegram reply sent".to_owned()),
        },
        Err(e) => Line::Complaint(pair("telegram send failed: ", e.as_str())),
    }
}

}
