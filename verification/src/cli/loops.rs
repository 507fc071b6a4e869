//! The loops of the gateway and of the Telegram runner, step by step: what is to
//! be done next, and where the loop stands after it was done.
use vstd::prelude::*;

use crate::channels::telegram::{pairing_instructions, TelegramChannel, TelegramMessage};
use crate::chars;
use crate::cli::gateway;
use crate::cli::gateway::{
    chat_event, delivery_line, event_line, is_chat_message, line_meaning, poll_failure,
    routed_text, ChatStep, EventModel, GatewayLine, GatewayLineModel, GatewayOptions, LoopStep,
    SimulatedGatewayEvent,
};
use crate::cli::{
    chat_reply, compact, format_session_report, line_models, no_lines, Line, LineModel,
};
use crate::minicore::{IncomingMessage, SessionReport};
use crate::numbers;
use crate::types::MessageClass;

verus! {

// ---------------------------------------------------------------------------
// The gateway
// ---------------------------------------------------------------------------

/// What the gateway waits for.
#[derive(Debug)]
pub enum GatewayStage {
    /// The next line, if one has come in.
    Lines,
    /// Updates from Telegram; time to pass where there is no bot.
    Poll,
    /// The session of a chat's message; `live` where the message came from
    /// Telegram.
    Chat { chat_id: i64, body: String, live: bool },
    /// The delivery of a reply through Telegram.
    Deliver { chat_id: i64, reply: String, pairing: bool },
    /// The session of another agent's message.
    Agent { session_key: String, body: String },
    /// Nothing: the gateway has ended with a code.
    Over(i32),
}

/// What the gateway waits for, by its texts.
pub ghost enum StageModel {
    Lines,
    Poll,
    Chat { chat_id: i64, body: Seq<char>, live: bool },
    Deliver { chat_id: i64, reply: Seq<char>, pairing: bool },
    Agent { session_key: Seq<char>, body: Seq<char> },
    Over(i32),
}

impl View for GatewayStage {
    type V = StageModel;

    open spec fn view(&self) -> StageModel {
        match self {
            GatewayStage::Lines => StageModel::Lines,
            GatewayStage::Poll => StageModel::Poll,
            GatewayStage::Chat { chat_id, body, live } => StageModel::Chat {
                chat_id: *chat_id,
                body: body@,
                live: *live,
            },
            GatewayStage::Deliver { chat_id, reply, pairing } => StageModel::Deliver {
                chat_id: *chat_id,
                reply: reply@,
                pairing: *pairing,
            },
            GatewayStage::Agent { session_key, body } => StageModel::Agent {
                session_key: session_key@,
                body: body@,
            },
            GatewayStage::Over(code) => StageModel::Over(*code),
        }
    }
}

/// A running gateway: how it runs, the bot and its paired chats, the update to ask
/// for next, the updates of the last poll with how many of them were taken, what
/// it waits for, and the lines that the last step printed. A simulated gateway
/// reads lines only, and ends with them.
#[derive(Debug)]
pub struct GatewayRun {
    pub options: GatewayOptions,
    pub simulated: bool,
    pub token: Option<String>,
    pub channel: TelegramChannel,
    pub offset: Option<i64>,
    pub updates: Vec<TelegramMessage>,
    pub at: usize,
    pub stage: GatewayStage,
    pub lines: Vec<Line>,
}

/// The contents of a running gateway.
pub ghost struct GatewayModel {
    pub options: GatewayOptions,
    pub simulated: bool,
    pub token: Option<Seq<char>>,
    pub allowed: Set<i64>,
    pub offset: Option<i64>,
    pub updates: Seq<TelegramMessage>,
    pub at: nat,
    pub stage: StageModel,
    pub lines: Seq<LineModel>,
}

impl View for GatewayRun {
    type V = GatewayModel;

    open spec fn view(&self) -> GatewayModel {
        GatewayModel {
            options: self.options,
            simulated: self.simulated,
            token: chars::opt_text(self.token),
            allowed: self.channel.config.allowed_chats@,
            offset: self.offset,
            updates: self.updates@,
            at: self.at as nat,
            stage: self.stage@,
            lines: line_models(self.lines@),
        }
    }
}

/// The update to ask for behind one.
pub open spec fn offset_behind(update_id: i64) -> i64 {
    if update_id == i64::MAX {
        i64::MAX
    } else {
        (update_id + 1) as i64
    }
}

/// The line of an update that came in.
pub open spec fn update_line(head: Seq<char>, u: TelegramMessage) -> LineModel {
    LineModel::Printed(
        head + numbers::signed(u.update_id as int) + " chat="@ + numbers::signed(
            u.chat_id as int,
        ) + " bytes="@ + numbers::decimal(chars::byte_len(u.text@)),
    )
}

impl GatewayModel {
    /// Sessions are run for paired chats only, and a reply goes through Telegram
    /// only where there is a bot.
    pub open spec fn wf(self) -> bool {
        &&& self.at <= self.updates.len()
        &&& self.stage matches StageModel::Chat { chat_id, .. } ==> self.allowed.contains(chat_id)
        &&& self.stage matches StageModel::Chat { live, .. } ==> live ==> self.token is Some
        &&& self.stage is Deliver ==> self.token is Some
        &&& self.simulated ==> self.options.read_stdin && !(self.stage is Poll)
    }

    /// What the gateway waits for when there is nothing to do.
    pub open spec fn idle(self) -> StageModel {
        if self.options.read_stdin {
            StageModel::Lines
        } else {
            StageModel::Poll
        }
    }

    /// The gateway after a line: where one is enough it ends, though a simulated one
    /// only after an event.
    pub open spec fn resumed(self, event: bool) -> GatewayModel {
        GatewayModel {
            stage: if self.options.once && (event || !self.simulated) {
                StageModel::Over(0)
            } else {
                self.idle()
            },
            ..self
        }
    }

    /// The gateway with a message from a chat: a paired chat gets a session, any
    /// other one instructions, which are delivered where the message came from
    /// Telegram.
    pub open spec fn with_chat(self, chat_id: i64, body: Seq<char>, live: bool) -> GatewayModel {
        let event = chat_event(chat_id as int, "user"@, body);
        if self.allowed.contains(chat_id) {
            GatewayModel {
                lines: self.lines + seq![
                    event,
                    LineModel::Printed("gateway route channel=telegram task="@ + compact(body)),
                ],
                stage: StageModel::Chat { chat_id, body, live },
                ..self
            }
        } else {
            let reply = pairing_instructions(chat_id as int);
            let told = GatewayModel {
                lines: self.lines + seq![event, chat_event(chat_id as int, "assistant"@, reply)],
                ..self
            };
            if live {
                GatewayModel {
                    stage: StageModel::Deliver { chat_id, reply, pairing: true },
                    ..told
                }
            } else {
                GatewayModel {
                    lines: told.lines.push(delivery_line(chat_id as int, true, None)),
                    ..told
                }.resumed(true)
            }
        }
    }

    /// The gateway after it looked for a line.
    pub open spec fn after_line(self, line: Option<Seq<char>>) -> GatewayModel {
        let m = GatewayModel { lines: seq![], ..self };
        match line {
            None => GatewayModel {
                stage: if self.simulated {
                    StageModel::Over(0)
                } else {
                    StageModel::Poll
                },
                ..m
            },
            Some(l) => match line_meaning(l) {
                GatewayLineModel::Empty => m.resumed(false),
                GatewayLineModel::Quit => GatewayModel {
                    lines: if self.simulated {
                        seq![]
                    } else {
                        seq![LineModel::Printed("gateway stopping"@)]
                    },
                    stage: StageModel::Over(0),
                    ..m
                },
                GatewayLineModel::Malformed(lines) => GatewayModel { lines, ..m }.resumed(false),
                GatewayLineModel::Event(EventModel::Telegram { chat_id, text }) => m.with_chat(
                    chat_id as i64,
                    text,
                    false,
                ),
                GatewayLineModel::Event(EventModel::Agent { session_key, text }) => GatewayModel {
                    lines: seq![
                        event_line(session_key, "agent"@, session_key, "user"@, text),
                        LineModel::Printed(
                            "gateway route channel=agent kind=inter-session task="@ + compact(
                                routed_text(session_key, text),
                            ),
                        ),
                    ],
                    stage: StageModel::Agent { session_key, body: text },
                    ..m
                },
            },
        }
    }

    /// The gateway at the next update of the last poll, or behind the last one.
    pub open spec fn at_next_update(self) -> GatewayModel {
        if self.at < self.updates.len() {
            let u = self.updates[self.at as int];
            GatewayModel {
                offset: Some(offset_behind(u.update_id)),
                at: self.at + 1,
                lines: self.lines.push(
                    update_line("gateway recv channel=telegram update="@, u),
                ),
                ..self
            }.with_chat(u.chat_id, u.text@, true)
        } else {
            GatewayModel { stage: self.idle(), ..self }
        }
    }

    /// The gateway after a poll.
    pub open spec fn after_poll(
        self,
        outcome: Result<Seq<TelegramMessage>, Seq<char>>,
    ) -> GatewayModel {
        match outcome {
            Ok(updates) => GatewayModel { updates, at: 0, lines: seq![], ..self }.at_next_update(),
            Err(e) => {
                let (step, lines) = poll_failure("gateway telegram poll failed: "@, e, true);
                GatewayModel {
                    lines,
                    stage: match step {
                        LoopStep::Exit(code) => StageModel::Over(code),
                        LoopStep::Continue => self.idle(),
                    },
                    ..self
                }
            },
        }
    }

    /// The gateway after some time has passed.
    pub open spec fn after_wait(self) -> GatewayModel {
        GatewayModel { lines: seq![], stage: self.idle(), ..self }
    }

    /// The gateway after a session.
    pub open spec fn after_session(
        self,
        class: MessageClass,
        output: Seq<char>,
        steps: nat,
    ) -> GatewayModel {
        match self.stage {
            StageModel::Chat { chat_id, body, live } => {
                let reply = chat_reply(class, output);
                let lines = seq![
                    LineModel::Printed(
                        "gateway task ["@ + class.name() + "] steps="@ + numbers::decimal(steps),
                    ),
                    chat_event(chat_id as int, "assistant"@, reply),
                ];
                if live {
                    GatewayModel {
                        lines,
                        stage: StageModel::Deliver { chat_id, reply, pairing: false },
                        ..self
                    }
                } else {
                    GatewayModel {
                        lines: lines.push(delivery_line(chat_id as int, false, None)),
                        ..self
                    }.resumed(true)
                }
            },
            StageModel::Agent { session_key, body } => GatewayModel {
                lines: seq![event_line(session_key, "agent"@, session_key, "assistant"@, output)],
                ..self
            }.resumed(true),
            _ => self,
        }
    }

    /// The gateway after a delivery: it ends where one message is enough.
    pub open spec fn after_delivery(self, outcome: Result<(), String>) -> GatewayModel {
        match self.stage {
            StageModel::Deliver { chat_id, reply, pairing } => {
                let told = GatewayModel {
                    lines: seq![delivery_line(chat_id as int, pairing, Some(outcome))],
                    ..self
                };
                if self.options.once {
                    GatewayModel { stage: StageModel::Over(0), ..told }
                } else {
                    told.at_next_update()
                }
            },
            _ => self,
        }
    }
}

/// What is to be done for the gateway.
#[derive(Debug)]
pub enum GatewayAction {
    TakeLine,
    Poll { token: String, offset: Option<i64>, timeout: u64 },
    Wait,
    Process(IncomingMessage),
    Deliver { token: String, chat_id: i64, reply: String },
    Exit(i32),
}

/// A message of another agent that is processed.
pub open spec fn is_agent_message(m: IncomingMessage, key: Seq<char>, body: Seq<char>) -> bool {
    &&& m.text@ == routed_text(key, body)
    &&& chars::opt_text(m.context_id) == Some(key)
    &&& m.source@ == "agent"@
    &&& m.subclass is None
}

impl GatewayModel {
    /// The action is what the gateway waits for.
    pub open spec fn asks(self, a: GatewayAction) -> bool {
        match self.stage {
            StageModel::Lines => a is TakeLine,
            StageModel::Poll => match self.token {
                Some(bot) => a matches GatewayAction::Poll { token, offset, timeout } && token@
                    == bot && offset == self.offset && timeout == self.options.poll_timeout,
                None => a is Wait,
            },
            StageModel::Chat { chat_id, body, live } => a matches GatewayAction::Process(m)
                && is_chat_message(m, chat_id as int, body),
            StageModel::Agent { session_key, body } => a matches GatewayAction::Process(m)
                && is_agent_message(m, session_key, body),
            StageModel::Deliver { chat_id, reply, pairing } => a matches GatewayAction::Deliver {
                token,
                chat_id: to,
                reply: text,
            } && Some(token@) == self.token && to == chat_id && text@ == reply,
            StageModel::Over(code) => a == GatewayAction::Exit(code),
        }
    }
}

fn push_all(lines: &mut Vec<Line>, more: Vec<Line>)
    ensures
        line_models(final(lines)@) == line_models(old(lines)@) + line_models(more@),
{
    let ghost before = lines@;
    let ghost added = more@;
    let mut more = more;
    lines.append(&mut more);
    assert(line_models(lines@) =~= line_models(before) + line_models(added));
}

fn one_line(line: Line) -> (r: Vec<Line>)
    ensures
        line_models(r@) == seq![line@],
{
    let mut lines = no_lines();
    lines.push(line);
    assert(line_models(lines@) =~= seq![line@]);
    lines
}

fn add_line(lines: &mut Vec<Line>, line: Line)
    ensures
        line_models(final(lines)@) == line_models(old(lines)@).push(line@),
{
    let ghost before = lines@;
    lines.push(line);
    assert(line_models(lines@) =~= line_models(before).push(line@));
}

/// The contents of a poll.
pub open spec fn poll_outcome(
    r: Result<Vec<TelegramMessage>, String>,
) -> Result<Seq<TelegramMessage>, Seq<char>> {
    match r {
        Ok(updates) => Ok(updates@),
        Err(e) => Err(e@),
    }
}

impl GatewayRun {
    pub open spec fn wf(&self) -> bool {
        self@.wf()
    }

    /// Starts a gateway.
    pub fn start(options: GatewayOptions, token: Option<String>, channel: TelegramChannel) -> (r:
        Self)
        ensures
            r.wf(),
            r@ == (GatewayModel {
                options,
                simulated: false,
                token: chars::opt_text(token),
                allowed: channel.config.allowed_chats@,
                offset: None,
                updates: seq![],
                at: 0,
                stage: if options.read_stdin {
                    StageModel::Lines
                } else {
                    StageModel::Poll
                },
                lines: seq![],
            }),
    {
        let r = GatewayRun {
            options,
            simulated: false,
            token,
            channel,
            offset: None,
            updates: Vec::new(),
            at: 0,
            stage: if options.read_stdin {
                GatewayStage::Lines
            } else {
                GatewayStage::Poll
            },
            lines: no_lines(),
        };
        assert(r@.lines =~= seq![]);
        r
    }

    /// Starts a simulated gateway.
    pub fn simulated(once: bool, channel: TelegramChannel) -> (r: Self)
        ensures
            r.wf(),
            r@ == (GatewayModel {
                options: GatewayOptions { once, read_stdin: true, poll_timeout: 1 },
                simulated: true,
                token: None,
                allowed: channel.config.allowed_chats@,
                offset: None,
                updates: seq![],
                at: 0,
                stage: StageModel::Lines,
                lines: seq![],
            }),
    {
        let r = GatewayRun {
            options: GatewayOptions { once, read_stdin: true, poll_timeout: 1 },
            simulated: true,
            token: None,
            channel,
            offset: None,
            updates: Vec::new(),
            at: 0,
            stage: GatewayStage::Lines,
            lines: no_lines(),
        };
        assert(r@.lines =~= seq![]);
        r
    }

    fn rest(&mut self)
        ensures
            final(self)@ == (GatewayModel { stage: old(self)@.idle(), ..old(self)@ }),
    {
        self.stage = if self.options.read_stdin {
            GatewayStage::Lines
        } else {
            GatewayStage::Poll
        };
    }

    fn resume(&mut self, event: bool)
        ensures
            final(self)@ == old(self)@.resumed(event),
    {
        if self.options.once && (event || !self.simulated) {
            self.stage = GatewayStage::Over(0);
        } else {
            self.rest();
        }
    }

    fn take_chat(&mut self, chat_id: i64, body: &str, live: bool)
        ensures
            final(self)@ == old(self)@.with_chat(chat_id, body@, live),
    {
        let (lines, step) = gateway::take_chat_message(&self.channel, chat_id, body);
        push_all(&mut self.lines, lines);
        match step {
            ChatStep::Process(_) => {
                self.stage = GatewayStage::Chat { chat_id, body: body.to_owned(), live };
            },
            ChatStep::Pair(reply) => {
                if live {
                    self.stage = GatewayStage::Deliver { chat_id, reply, pairing: true };
                } else {
                    add_line(&mut self.lines, gateway::report_delivery(chat_id, true, &None));
                    self.resume(true);
                }
            },
        }
    }

    fn take_next_update(&mut self)
        ensures
            final(self)@ == old(self)@.at_next_update(),
    {
        if self.at < self.updates.len() {
            let u = &self.updates[self.at];
            let line = gateway::report_update("gateway recv channel=telegram update=", u);
            let chat_id: i64 = u.chat_id;
            let body = u.text.clone();
            let next: i64 = gateway::next_offset(u.update_id);
            self.offset = Some(next);
            self.at = self.at + 1;
            add_line(&mut self.lines, line);
            self.take_chat(chat_id, body.as_str(), true);
        } else {
            self.rest();
        }
    }

    /// Takes up the line that has come in, or that none has.
    pub fn took_line(&mut self, line: Option<&str>)
        requires
            old(self).wf(),
            old(self)@.stage is Lines,
        ensures
            final(self)@ == old(self)@.after_line(
                match line {
                    Some(l) => Some(l@),
                    None => None,
                },
            ),
            final(self).wf(),
    {
        self.lines = no_lines();
        assert(line_models(self.lines@) =~= seq![]);
        match line {
            None => {
                self.stage = if self.simulated {
                    GatewayStage::Over(0)
                } else {
                    GatewayStage::Poll
                };
            },
            Some(l) => match gateway::read_gateway_line(l) {
                GatewayLine::Empty => {
                    self.resume(false);
                },
                GatewayLine::Quit => {
                    if !self.simulated {
                        self.lines = one_line(Line::Printed("gateway stopping".to_owned()));
                    }
                    self.stage = GatewayStage::Over(0);
                },
                GatewayLine::Malformed(lines) => {
                    self.lines = lines;
                    self.resume(false);
                },
                GatewayLine::Event(SimulatedGatewayEvent::Telegram { chat_id, text }) => {
                    self.take_chat(chat_id, text.as_str(), false);
                },
                GatewayLine::Event(SimulatedGatewayEvent::Agent { session_key, text }) => {
                    let (lines, _) = gateway::take_agent_message(
                        session_key.as_str(),
                        text.as_str(),
                    );
                    self.lines = lines;
                    self.stage = GatewayStage::Agent { session_key, body: text };
                },
            },
        }
    }

    /// Takes up the updates of a poll, or why there are none.
    pub fn polled(&mut self, outcome: Result<Vec<TelegramMessage>, String>)
        requires
            old(self).wf(),
            old(self)@.stage is Poll,
            old(self)@.token is Some,
        ensures
            final(self)@ == old(self)@.after_poll(poll_outcome(outcome)),
            final(self).wf(),
    {
        match outcome {
            Ok(updates) => {
                self.updates = updates;
                self.at = 0;
                self.lines = no_lines();
                assert(line_models(self.lines@) =~= seq![]);
                self.take_next_update();
            },
            Err(e) => {
                let (step, lines) = gateway::after_poll_failure(
                    "gateway telegram poll failed: ",
                    e.as_str(),
                    true,
                );
                self.lines = lines;
                match step {
                    LoopStep::Exit(code) => {
                        self.stage = GatewayStage::Over(code);
                    },
                    LoopStep::Continue => {
                        self.rest();
                    },
                }
            },
        }
    }

    /// Takes up that some time has passed.
    pub fn waited(&mut self)
        requires
            old(self).wf(),
            old(self)@.stage is Poll,
        ensures
            final(self)@ == old(self)@.after_wait(),
            final(self).wf(),
    {
        self.lines = no_lines();
        assert(line_models(self.lines@) =~= seq![]);
        self.rest();
    }

    /// Takes up the report of a session.
    pub fn processed(&mut self, report: &SessionReport)
        requires
            old(self).wf(),
            old(self)@.stage is Chat || old(self)@.stage is Agent,
        ensures
            final(self)@ == old(self)@.after_session(
                report.class,
                report.output@,
                report.steps as nat,
            ),
            final(self).wf(),
    {
        match &self.stage {
            GatewayStage::Chat { chat_id, body: _, live } => {
                let chat_id: i64 = *chat_id;
                let live = *live;
                let (lines, reply) = gateway::answer_chat(chat_id, report);
                self.lines = lines;
                if live {
                    self.stage = GatewayStage::Deliver { chat_id, reply, pairing: false };
                } else {
                    add_line(&mut self.lines, gateway::report_delivery(chat_id, false, &None));
                    self.resume(true);
                }
            },
            GatewayStage::Agent { session_key, body: _ } => {
                self.lines = one_line(gateway::answer_agent(session_key.as_str(), report));
                self.resume(true);
            },
            _ => {},
        }
    }

    /// Takes up how a delivery went.
    pub fn delivered(&mut self, outcome: Result<(), String>)
        requires
            old(self).wf(),
            old(self)@.stage is Deliver,
        ensures
            final(self)@ == old(self)@.after_delivery(outcome),
            final(self).wf(),
    {
        match &self.stage {
            GatewayStage::Deliver { chat_id, reply: _, pairing } => {
                let line = gateway::report_delivery(*chat_id, *pairing, &Some(outcome));
                self.lines = one_line(line);
                if self.options.once {
                    self.stage = GatewayStage::Over(0);
                } else {
                    self.take_next_update();
                }
            },
            _ => {},
        }
    }

    /// What is to be done next.
    pub fn next_action(&self) -> (r: GatewayAction)
        requires
            self.wf(),
        ensures
            self@.asks(r),
    {
        match &self.stage {
            GatewayStage::Lines => GatewayAction::TakeLine,
            GatewayStage::Poll => match &self.token {
                Some(token) => GatewayAction::Poll {
                    token: token.clone(),
                    offset: self.offset,
                    timeout: self.options.poll_timeout,
                },
                None => GatewayAction::Wait,
            },
            GatewayStage::Chat { chat_id, body, live: _ } => GatewayAction::Process(
                gateway::chat_message(*chat_id, body.clone()),
            ),
            GatewayStage::Agent { session_key, body } => {
                let (_, message) = gateway::take_agent_message(session_key.as_str(), body.as_str());
                GatewayAction::Process(message)
            },
            GatewayStage::Deliver { chat_id, reply, pairing: _ } => match &self.token {
                Some(token) => GatewayAction::Deliver {
                    token: token.clone(),
                    chat_id: *chat_id,
                    reply: reply.clone(),
                },
                None => GatewayAction::Exit(0),
            },
            GatewayStage::Over(code) => GatewayAction::Exit(*code),
        }
    }
}

// ---------------------------------------------------------------------------
// The Telegram runner
// ---------------------------------------------------------------------------

/// How long the runner waits for updates, in seconds.
pub const RUNNER_WAIT: u64 = 25;

/// What the runner waits for.
#[derive(Debug)]
pub enum RunnerStage {
    /// Updates from Telegram.
    Poll,
    /// The session of a chat's message.
    Chat { chat_id: i64, body: String },
    /// The delivery of a reply.
    Deliver { chat_id: i64, reply: String, pairing: bool },
    /// Nothing: the runner has ended with a code.
    Over(i32),
}

/// What the runner waits for, by its texts.
pub ghost enum RunnerStageModel {
    Poll,
    Chat { chat_id: i64, body: Seq<char> },
    Deliver { chat_id: i64, reply: Seq<char>, pairing: bool },
    Over(i32),
}

impl View for RunnerStage {
    type V = RunnerStageModel;

    open spec fn view(&self) -> RunnerStageModel {
        match self {
            RunnerStage::Poll => RunnerStageModel::Poll,
            RunnerStage::Chat { chat_id, body } => RunnerStageModel::Chat {
                chat_id: *chat_id,
                body: body@,
            },
            RunnerStage::Deliver { chat_id, reply, pairing } => RunnerStageModel::Deliver {
                chat_id: *chat_id,
                reply: reply@,
                pairing: *pairing,
            },
            RunnerStage::Over(code) => RunnerStageModel::Over(*code),
        }
    }
}

/// The running Telegram runner: the bot's paired chats, the update to ask for
/// next, the updates of the last poll with how many of them were taken, what it
/// waits for, and the lines that the last step printed.
#[derive(Debug)]
pub struct RunnerRun {
    pub channel: TelegramChannel,
    pub offset: Option<i64>,
    pub updates: Vec<TelegramMessage>,
    pub at: usize,
    pub stage: RunnerStage,
    pub lines: Vec<Line>,
}

/// The contents of the runner.
pub ghost struct RunnerModel {
    pub token: Seq<char>,
    pub allowed: Set<i64>,
    pub offset: Option<i64>,
    pub updates: Seq<TelegramMessage>,
    pub at: nat,
    pub stage: RunnerStageModel,
    pub lines: Seq<LineModel>,
}

impl View for RunnerRun {
    type V = RunnerModel;

    open spec fn view(&self) -> RunnerModel {
        RunnerModel {
            token: self.channel.config.token@,
            allowed: self.channel.config.allowed_chats@,
            offset: self.offset,
            updates: self.updates@,
            at: self.at as nat,
            stage: self.stage@,
            lines: line_models(self.lines@),
        }
    }
}

impl RunnerModel {
    /// Sessions are run for paired chats only.
    pub open spec fn wf(self) -> bool {
        &&& self.at <= self.updates.len()
        &&& self.stage matches RunnerStageModel::Chat { chat_id, .. } ==> self.allowed.contains(
            chat_id,
        )
    }

    /// The runner at the next update of the last poll, or behind the last one. A
    /// chat that is not paired gets instructions, except for the chat with the
    /// number 0, which gets none.
    pub open spec fn at_next_update(self) -> RunnerModel
        decreases self.updates.len() - self.at,
    {
        if self.at < self.updates.len() {
            let u = self.updates[self.at as int];
            let taken = RunnerModel {
                offset: Some(offset_behind(u.update_id)),
                at: self.at + 1,
                lines: self.lines.push(update_line("telegram update="@, u)),
                ..self
            };
            if self.allowed.contains(u.chat_id) {
                RunnerModel {
                    stage: RunnerStageModel::Chat { chat_id: u.chat_id, body: u.text@ },
                    ..taken
                }
            } else if u.chat_id == 0 {
                taken.at_next_update()
            } else {
                RunnerModel {
                    stage: RunnerStageModel::Deliver {
                        chat_id: u.chat_id,
                        reply: pairing_instructions(u.chat_id as int),
                        pairing: true,
                    },
                    ..taken
                }
            }
        } else {
            RunnerModel { stage: RunnerStageModel::Poll, ..self }
        }
    }

    /// The runner after a poll.
    pub open spec fn after_poll(
        self,
        outcome: Result<Seq<TelegramMessage>, Seq<char>>,
    ) -> RunnerModel {
        match outcome {
            Ok(updates) => RunnerModel {
                updates,
                at: 0,
                lines: if updates.len() == 0 {
                    seq![LineModel::Printed("telegram poll: no updates"@)]
                } else {
                    seq![]
                },
                ..self
            }.at_next_update(),
            Err(e) => {
                let (step, lines) = poll_failure("telegram poll failed: "@, e, false);
                RunnerModel {
                    lines,
                    stage: match step {
                        LoopStep::Exit(code) => RunnerStageModel::Over(code),
                        LoopStep::Continue => RunnerStageModel::Poll,
                    },
                    ..self
                }
            },
        }
    }

    /// The runner after a session.
    pub open spec fn after_session(
        self,
        class: MessageClass,
        output: Seq<char>,
        steps: nat,
    ) -> RunnerModel {
        match self.stage {
            RunnerStageModel::Chat { chat_id, body } => RunnerModel {
                lines: seq![
                    LineModel::Printed(
                        "telegram reply ["@ + class.name() + "] steps="@ + numbers::decimal(steps),
                    ),
                ],
                stage: RunnerStageModel::Deliver {
                    chat_id,
                    reply: chat_reply(class, output),
                    pairing: false,
                },
                ..self
            },
            _ => self,
        }
    }

    /// The runner after a delivery.
    pub open spec fn after_delivery(self, outcome: Result<(), String>) -> RunnerModel {
        match self.stage {
            RunnerStageModel::Deliver { chat_id, reply, pairing } => RunnerModel {
                lines: seq![
                    match outcome {
                        Ok(_) => LineModel::Printed(
                            if pairing {
                                "telegram pairing instructions sent: "@ + numbers::signed(
                                    chat_id as int,
                                )
                            } else {
                                "telegram reply sent"@
                            },
                        ),
                        Err(e) => LineModel::Complaint("telegram send failed: "@ + e@),
                    },
                ],
                ..self
            }.at_next_update(),
            _ => self,
        }
    }

    /// The action is what the runner waits for.
    pub open spec fn asks(self, a: GatewayAction) -> bool {
        match self.stage {
            RunnerStageModel::Poll => a matches GatewayAction::Poll { token, offset, timeout }
                && token@ == self.token && offset == self.offset && timeout == RUNNER_WAIT,
            RunnerStageModel::Chat { chat_id, body } => a matches GatewayAction::Process(m)
                && is_chat_message(m, chat_id as int, body),
            RunnerStageModel::Deliver { chat_id, reply, pairing } =>
            a matches GatewayAction::Deliver { token, chat_id: to, reply: text } && token@
                == self.token && to == chat_id && text@ == reply,
            RunnerStageModel::Over(code) => a == GatewayAction::Exit(code),
        }
    }
}

/// The next update keeps what the runner keeps.
proof fn lemma_runner_next(m: RunnerModel)
    requires
        m.at <= m.updates.len(),
    ensures
        m.at_next_update().wf(),
    decreases m.updates.len() - m.at,
{
    if m.at < m.updates.len() {
        let u = m.updates[m.at as int];
        let taken = RunnerModel {
            offset: Some(offset_behind(u.update_id)),
            at: m.at + 1,
            lines: m.lines.push(update_line("telegram update="@, u)),
            ..m
        };
        lemma_runner_next(taken);
    }
}

impl RunnerRun {
    pub open spec fn wf(&self) -> bool {
        self@.wf()
    }

    /// Starts the runner.
    pub fn start(channel: TelegramChannel) -> (r: Self)
        ensures
            r.wf(),
            r@ == (RunnerModel {
                token: channel.config.token@,
                allowed: channel.config.allowed_chats@,
                offset: None,
                updates: seq![],
                at: 0,
                stage: RunnerStageModel::Poll,
                lines: seq![],
            }),
    {
        let r = RunnerRun {
            channel,
            offset: None,
            updates: Vec::new(),
            at: 0,
            stage: RunnerStage::Poll,
            lines: no_lines(),
        };
        assert(r@.lines =~= seq![]);
        r
    }

    fn take_next_update(&mut self)
        requires
            old(self).at <= old(self).updates@.len(),
        ensures
            final(self)@ == old(self)@.at_next_update(),
    {
        let ghost start = self@;
        while self.at < self.updates.len()
            invariant
                self.at <= self.updates@.len(),
                self@.at_next_update() == start.at_next_update(),
                start == old(self)@,
            decreases self.updates.len() - self.at,
        {
            let u = &self.updates[self.at];
            let line = gateway::report_update("telegram update=", u);
            let chat_id: i64 = u.chat_id;
            let body = u.text.clone();
            let next: i64 = gateway::next_offset(u.update_id);
            self.offset = Some(next);
            self.at = self.at + 1;
            add_line(&mut self.lines, line);
            let message = TelegramMessage { update_id: 0, chat_id, text: body.clone() };
            match gateway::take_update(&self.channel, message) {
                Some(ChatStep::Process(_)) => {
                    self.stage = RunnerStage::Chat { chat_id, body };
                    return;
                },
                Some(ChatStep::Pair(reply)) => {
                    self.stage = RunnerStage::Deliver { chat_id, reply, pairing: true };
                    return;
                },
                None => {},
            }
        }
        self.stage = RunnerStage::Poll;
    }

    /// Takes up the updates of a poll, or why there are none.
    pub fn polled(&mut self, outcome: Result<Vec<TelegramMessage>, String>)
        requires
            old(self).wf(),
            old(self)@.stage is Poll,
        ensures
            final(self)@ == old(self)@.after_poll(poll_outcome(outcome)),
            final(self).wf(),
    {
        match outcome {
            Ok(updates) => {
                self.lines = if updates.len() == 0 {
                    one_line(Line::Printed("telegram poll: no updates".to_owned()))
                } else {
                    no_lines()
                };
                assert(updates.len() > 0 ==> line_models(self.lines@) =~= seq![]);
                self.updates = updates;
                self.at = 0;
                proof {
                    lemma_runner_next(self@);
                }
                self.take_next_update();
            },
            Err(e) => {
                let (step, lines) = gateway::after_poll_failure(
                    "telegram poll failed: ",
                    e.as_str(),
                    false,
                );
                self.lines = lines;
                match step {
                    LoopStep::Exit(code) => {
                        self.stage = RunnerStage::Over(code);
                    },
                    LoopStep::Continue => {
                        self.stage = RunnerStage::Poll;
                    },
                }
            },
        }
    }

    /// Takes up the report of a session.
    pub fn processed(&mut self, report: &SessionReport)
        requires
            old(self).wf(),
            old(self)@.stage is Chat,
        ensures
            final(self)@ == old(self)@.after_session(
                report.class,
                report.output@,
                report.steps as nat,
            ),
            final(self).wf(),
    {
        match &self.stage {
            RunnerStage::Chat { chat_id, body: _ } => {
                let chat_id: i64 = *chat_id;
                self.lines = one_line(gateway::report_runner_reply(report));
                self.stage = RunnerStage::Deliver {
                    chat_id,
                    reply: format_session_report(report),
                    pairing: false,
                };
            },
            _ => {},
        }
    }

    /// Takes up how a delivery went.
    pub fn delivered(&mut self, outcome: Result<(), String>)
        requires
            old(self).wf(),
            old(self)@.stage is Deliver,
        ensures
            final(self)@ == old(self)@.after_delivery(outcome),
            final(self).wf(),
    {
        match &self.stage {
            RunnerStage::Deliver { chat_id, reply: _, pairing } => {
                let to = if *pairing {
                    Some(*chat_id)
                } else {
                    None
                };
                self.lines = one_line(gateway::report_runner_delivery(to, &outcome));
                proof {
                    lemma_runner_next(self@);
                }
                self.take_next_update();
            },
            _ => {},
        }
    }

    /// What is to be done next.
    pub fn next_action(&self) -> (r: GatewayAction)
        requires
            self.wf(),
        ensures
            self@.asks(r),
    {
        match &self.stage {
            RunnerStage::Poll => GatewayAction::Poll {
                token: self.channel.config.token.clone(),
                offset: self.offset,
                timeout: RUNNER_WAIT,
            },
            RunnerStage::Chat { chat_id, body } => GatewayAction::Process(
                gateway::chat_message(*chat_id, body.clone()),
            ),
            RunnerStage::Deliver { chat_id, reply, pairing: _ } => GatewayAction::Deliver {
                token: self.channel.config.token.clone(),
                chat_id: *chat_id,
                reply: reply.clone(),
            },
            RunnerStage::Over(code) => GatewayAction::Exit(*code),
        }
    }
}

// ---------------------------------------------------------------------------
// Laws
// ---------------------------------------------------------------------------

/// The gateway runs a session for a chat only where the chat is paired, and
/// nothing that it does pairs one: the chats of every later state are the same.
pub proof fn law_only_paired_chats_get_sessions(
    m: GatewayModel,
    a: GatewayAction,
    line: Option<Seq<char>>,
    poll: Result<Seq<TelegramMessage>, Seq<char>>,
    class: MessageClass,
    output: Seq<char>,
    steps: nat,
    outcome: Result<(), String>,
)
    requires
        m.wf(),
    ensures
        m.asks(a) && a is Process && m.stage is Chat ==> m.allowed.contains(
            m.stage->Chat_chat_id,
        ),
        m.after_line(line).allowed == m.allowed,
        m.after_poll(poll).allowed == m.allowed,
        m.after_wait().allowed == m.allowed,
        m.after_session(class, output, steps).allowed == m.allowed,
        m.after_delivery(outcome).allowed == m.allowed,
{
}

/// An update that was taken is not asked for again, unless its number is the
/// greatest there is.
pub proof fn law_taken_updates_are_passed(m: GatewayModel)
    requires
        m.at < m.updates.len(),
        m.updates[m.at as int].update_id < i64::MAX,
    ensures
        m.at_next_update().offset matches Some(next) && next == m.updates[m.at as int].update_id
            + 1,
        m.at_next_update().at == m.at + 1,
{
}

/// A gateway for which one message is enough ends with the first line that it
/// reads, after the session that the line asks for, and with the first delivery.
pub proof fn law_once_is_enough(
    m: GatewayModel,
    line: Seq<char>,
    class: MessageClass,
    output: Seq<char>,
    steps: nat,
    outcome: Result<(), String>,
)
    requires
        m.wf(),
        m.options.once,
    ensures
        m.stage is Lines && !m.simulated ==> {
            let next = m.after_line(Some(line)).stage;
            next == StageModel::Over(0) || next is Agent || (next matches StageModel::Chat {
                live,
                ..
            } && !live)
        },
        m.stage is Agent ==> m.after_session(class, output, steps).stage == StageModel::Over(0),
        (m.stage matches StageModel::Chat { live, .. } && !live) ==> m.after_session(
            class,
            output,
            steps,
        ).stage == StageModel::Over(0),
        m.stage is Deliver ==> m.after_delivery(outcome).stage == StageModel::Over(0),
{
}

}
