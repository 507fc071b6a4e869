//! The commands that run tasks and read memory, and the lines of the prompt.
use vstd::prelude::*;

use crate::adjustments::task_in;
use crate::agent::AgentOutcome;
use crate::chars;
use crate::chars::CharSet;
use crate::cli::settings::arg;
use crate::cli::{
    complain, line_models, no_lines, pair, parse_task_id, say, CommandReply, Line, LineModel,
    ReplyModel,
};
use crate::config::{AdvisorConfig, AgentConfig};
use crate::memory::{task_models, MemoryStore};
use crate::minicore::IncomingMessage;
use crate::numbers;
use crate::orchestration::{MapReduceReport, PipelineReport, PipelineStage};
use crate::planner::HELP_TEXT;
use crate::skills::{programs, SkillModel, SkillRegistry};
use crate::text;
use crate::tools::ToolPolicy;
use crate::types::{Heartbeat, Task, TaskId, TaskModel};

verus! {

// ---------------------------------------------------------------------------
// Start
// ---------------------------------------------------------------------------

/// The tool policy for settings and skills. Programs of skills are always
/// allowed; where the settings allow no programs, they are the only ones.
pub fn tool_policy(c: &AgentConfig, skills: &SkillRegistry) -> (r: ToolPolicy)
    ensures
        r.workspace@ == c.workspace@,
        r.max_file_bytes == c.max_file_bytes,
        r.max_output_bytes == c.max_tool_output_bytes,
        r.timeout == c.tool_timeout,
        r.allow_exec == (c.allow_exec || programs(skills@).len() > 0),
        chars::owned_texts(r.skill_exec@) == chars::ordered_set(programs(skills@)),
        chars::owned_texts(r.allowed_exec@) == (if c.allow_exec {
            chars::owned_texts(c.allowed_exec@)
        } else {
            chars::ordered_set(programs(skills@))
        }),
        forall|p: Seq<char>| #[trigger]
            r.permits(p) == (programs(skills@).contains(p) || (c.allow_exec && (
            c.allowed_exec@.len() == 0 || chars::owned_texts(c.allowed_exec@).contains(p)))),
{
    let skill_exec = text::ordered_set(&skills.exec_programs());
    let allow_exec = c.allow_exec || skill_exec.len() > 0;
    let allowed_exec = if c.allow_exec {
        text::copy_all(&c.allowed_exec)
    } else {
        text::copy_all(&skill_exec)
    };
    proof {
        let trusted = programs(skills@);
        chars::law_ordered_set(trusted);
        let set = chars::ordered_set(trusted);
        if trusted.len() > 0 {
            assert(trusted.contains(trusted[0]));
            assert(set.contains(trusted[0]));
        } else {
            assert(set.len() == 0);
        }
        assert(chars::owned_texts(skill_exec@).len() == skill_exec@.len());
    }
    ToolPolicy {
        workspace: c.workspace.clone(),
        max_file_bytes: c.max_file_bytes,
        max_output_bytes: c.max_tool_output_bytes,
        timeout: c.tool_timeout,
        allow_exec,
        allowed_exec,
        skill_exec,
    }
}

/// The names of skills.
pub open spec fn skill_names(skills: Seq<SkillModel>) -> Seq<Seq<char>> {
    skills.map_values(|s: SkillModel| s.name)
}

/// What is printed about the skills that were loaded; nothing where there are
/// none.
pub fn skills_loaded(skills: &SkillRegistry) -> (r: Vec<Line>)
    ensures
        line_models(r@) == (if skills@.len() == 0 {
            seq![]
        } else {
            seq![
                LineModel::Printed(
                    "skills loaded: "@ + chars::join(skill_names(skills@), ", "@),
                ),
            ]
        }),
{
    let mut lines = no_lines();
    if skills.is_empty() {
        assert(line_models(lines@) =~= seq![]);
        return lines;
    }
    let ghost want = skill_names(skills@);
    let mut names: Vec<String> = Vec::new();
    let mut i: usize = 0;
    assert(chars::owned_texts(names@) =~= want.take(0));
    while i < skills.skills.len()
        invariant
            i <= skills.skills.len(),
            want == skill_names(skills@),
            chars::owned_texts(names@) == want.take(i as int),
        decreases skills.skills.len() - i,
    {
        let ghost before = chars::owned_texts(names@);
        assert(skills@[i as int] == skills.skills@[i as int]@);
        names.push(skills.skills[i].name.clone());
        assert(chars::owned_texts(names@) =~= before.push(want[i as int]));
        assert(want.take(i + 1) =~= before.push(want[i as int]));
        i += 1;
    }
    assert(want.take(i as int) =~= want);
    let line = pair("skills loaded: ", text::join_owned(&names, ", ").as_str());
    let ghost x = line@;
    say(&mut lines, line);
    assert(line_models(lines@) =~= seq![LineModel::Printed(x)]);
    lines
}

/// What is printed about the advisor that is configured, or why it is not used.
pub fn advisor_line(a: &AdvisorConfig, fault: Option<&str>) -> (r: Line)
    ensures
        r@ == (match fault {
            None => LineModel::Printed(
                "advisor configured: provider="@ + a.agent.provider@ + " model="@ + a.agent.model@
                    + " mode="@ + a.mode.name(),
            ),
            Some(e) => LineModel::Complaint("advisor disabled: "@ + e@),
        }),
{
    match fault {
        None => {
            let mut out = "advisor configured: provider=".to_owned();
            out.append(a.agent.provider.as_str());
            out.append(" model=");
            out.append(a.agent.model.as_str());
            out.append(" mode=");
            out.append(a.mode.label());
            Line::Printed(out)
        },
        Some(e) => Line::Complaint(pair("advisor disabled: ", e)),
    }
}

/// What is printed once everything is ready.
pub fn ready_line(agents: &Vec<String>) -> (r: Line)
    ensures
        r@ == LineModel::Printed(
            "minicore ready. agents: "@ + chars::join(chars::owned_texts(agents@), ", "@),
        ),
{
    Line::Printed(pair("minicore ready. agents: ", text::join_owned(agents, ", ").as_str()))
}

/// The commands of the program.
#[derive(Debug, Clone, Copy, PartialEq, Eq, Structural)]
pub enum Command {
    Repl,
    Task,
    Memory,
    Config,
    Gateway,
    Onboarding,
    Uninstall,
    Telegram,
    Help,
    Version,
    Unknown,
}

/// The command of the first argument; the prompt where there is none.
pub open spec fn command_named(word: Option<Seq<char>>) -> Command {
    match word {
        None => Command::Repl,
        Some(w) => if w == "run"@ {
            Command::Repl
        } else if w == "task"@ {
            Command::Task
        } else if w == "memory"@ {
            Command::Memory
        } else if w == "config"@ {
            Command::Config
        } else if w == "gateway"@ {
            Command::Gateway
        } else if w == "onboarding"@ || w == "onboard"@ {
            Command::Onboarding
        } else if w == "uninstall"@ {
            Command::Uninstall
        } else if w == "telegram"@ {
            Command::Telegram
        } else if w == "help"@ || w == "--help"@ || w == "-h"@ {
            Command::Help
        } else if w == "--version"@ || w == "-V"@ || w == "version"@ {
            Command::Version
        } else {
            Command::Unknown
        },
    }
}

/// The command of the arguments.
pub fn parse_command(args: &Vec<String>) -> (r: Command)
    ensures
        r == command_named(arg(chars::owned_texts(args@), 0)),
{
    if args.len() == 0 {
        return Command::Repl;
    }
    assert(chars::owned_texts(args@)[0] == args@[0]@);
    let w = args[0].as_str();
    if text::same(w, "run") {
        Command::Repl
    } else if text::same(w, "task") {
        Command::Task
    } else if text::same(w, "memory") {
        Command::Memory
    } else if text::same(w, "config") {
        Command::Config
    } else if text::same(w, "gateway") {
        Command::Gateway
    } else if text::same(w, "onboarding") || text::same(w, "onboard") {
        Command::Onboarding
    } else if text::same(w, "uninstall") {
        Command::Uninstall
    } else if text::same(w, "telegram") {
        Command::Telegram
    } else if text::same(w, "help") || text::same(w, "--help") || text::same(w, "-h") {
        Command::Help
    } else if text::same(w, "--version") || text::same(w, "-V") || text::same(w, "version") {
        Command::Version
    } else {
        Command::Unknown
    }
}

/// The reply to a command that is not known.
pub fn unknown_command(word: &str) -> (r: CommandReply)
    ensures
        r@ == ReplyModel::says(
            2,
            seq![
                LineModel::Complaint("unknown command: "@ + word@),
                LineModel::Complaint(HELP_TEXT@),
            ],
        ),
{
    let mut lines = no_lines();
    complain(&mut lines, pair("unknown command: ", word));
    complain(&mut lines, HELP_TEXT.to_owned());
    assert(line_models(lines@) =~= seq![
        LineModel::Complaint("unknown command: "@ + word@),
        LineModel::Complaint(HELP_TEXT@),
    ]);
    CommandReply::says(2, lines)
}

// ---------------------------------------------------------------------------
// The prompt
// ---------------------------------------------------------------------------

/// What a line at the prompt asks for.
#[derive(Debug)]
pub enum ReplCommand {
    Quit,
    Help,
    /// A command for the agent that runs programs.
    Exec(String),
    /// A task for the queue of the agent loop.
    Enqueue(String),
    /// One tick of the agent loop.
    Tick,
    /// The state of the agent loop.
    Heartbeat,
    /// A supervised pipeline over the steps.
    Pipeline { input: String, steps: Vec<String> },
    /// A map over the items, and the reduction of what comes of it.
    MapReduce { goal: String, items: Vec<String> },
    /// Nothing: a command that lacks something, and how it is used.
    Usage(&'static str),
    /// A message to be processed.
    Message(IncomingMessage),
}

/// What a line at the prompt asks for, by its texts.
pub ghost enum ReplModel {
    Quit,
    Help,
    Exec(Seq<char>),
    Enqueue(Seq<char>),
    Tick,
    Heartbeat,
    Pipeline { input: Seq<char>, steps: Seq<Seq<char>> },
    MapReduce { goal: Seq<char>, items: Seq<Seq<char>> },
    Usage(Seq<char>),
    Message(Seq<char>),
}

/// What stands behind a command word, trimmed, where the line starts with that
/// word.
pub open spec fn behind_word(t: Seq<char>, word: Seq<char>) -> Option<Seq<char>> {
    match chars::after_prefix(t, word) {
        Some(rest) => if rest.len() == 0 || chars::is_white(rest[0]) {
            Some(chars::trim(rest))
        } else {
            None
        },
        None => None,
    }
}

/// The parts of a text between its bars, trimmed.
pub open spec fn bar_parts(s: Seq<char>) -> Seq<Seq<char>> {
    chars::pieces(s, CharSet::Only('|')).map_values(|p: Seq<char>| chars::trim(p))
}

/// The parts behind the first bar, without empty ones.
pub open spec fn parts_behind(s: Seq<char>) -> Seq<Seq<char>> {
    bar_parts(s).skip(1).filter(chars::at_least(1))
}

/// A text in front of a bar and parts behind it.
pub open spec fn is_barred(s: Seq<char>) -> bool {
    bar_parts(s)[0].len() > 0 && parts_behind(s).len() > 0
}

/// What a command of the agent loop asks for.
pub open spec fn loop_meaning(t: Seq<char>) -> Option<ReplModel> {
    if t == "/tick"@ {
        Some(ReplModel::Tick)
    } else if t == "/heartbeat"@ {
        Some(ReplModel::Heartbeat)
    } else {
        match behind_word(t, "/enqueue"@) {
            Some(task) => Some(
                if task.len() > 0 {
                    ReplModel::Enqueue(task)
                } else {
                    ReplModel::Usage("usage: /enqueue <task>"@)
                },
            ),
            None => match behind_word(t, "/pipeline"@) {
                Some(rest) => Some(
                    if is_barred(rest) {
                        ReplModel::Pipeline { input: bar_parts(rest)[0], steps: parts_behind(rest) }
                    } else {
                        ReplModel::Usage("usage: /pipeline input | step | step"@)
                    },
                ),
                None => match behind_word(t, "/mapreduce"@) {
                    Some(rest) => Some(
                        if is_barred(rest) {
                            ReplModel::MapReduce {
                                goal: bar_parts(rest)[0],
                                items: parts_behind(rest),
                            }
                        } else {
                            ReplModel::Usage("usage: /mapreduce goal | item | item"@)
                        },
                    ),
                    None => None,
                },
            },
        }
    }
}

/// What a line at the prompt asks for.
pub open spec fn repl_meaning(line: Seq<char>) -> ReplModel {
    let t = chars::trim(line);
    if t == "/quit"@ || t == "/exit"@ {
        ReplModel::Quit
    } else if t == "/help"@ || t == "help"@ {
        ReplModel::Help
    } else {
        match chars::after_prefix(t, "/ls"@) {
            Some(rest) => ReplModel::Exec("ls"@ + rest),
            None => match chars::after_prefix(t, "/read "@) {
                Some(rest) => ReplModel::Exec("read "@ + rest),
                None => match chars::after_prefix(t, "/exec "@) {
                    Some(rest) => ReplModel::Exec(rest),
                    None => match loop_meaning(t) {
                        Some(m) => m,
                        None => ReplModel::Message(t),
                    },
                },
            },
        }
    }
}

/// A message from the terminal.
pub open spec fn is_local_message(m: IncomingMessage, body: Seq<char>) -> bool {
    m.text@ == body && m.context_id is None && m.source@ == "cli"@ && m.subclass is None
}

fn local_message(body: &str) -> (r: IncomingMessage)
    ensures
        is_local_message(r, body@),
{
    IncomingMessage {
        text: body.to_owned(),
        context_id: None,
        source: "cli".to_owned(),
        subclass: None,
    }
}

/// The command is what a line asks for.
pub open spec fn is_meant(r: ReplCommand, m: ReplModel) -> bool {
    match m {
        ReplModel::Quit => r is Quit,
        ReplModel::Help => r is Help,
        ReplModel::Exec(c) => r matches ReplCommand::Exec(x) && x@ == c,
        ReplModel::Enqueue(c) => r matches ReplCommand::Enqueue(x) && x@ == c,
        ReplModel::Tick => r is Tick,
        ReplModel::Heartbeat => r is Heartbeat,
        ReplModel::Pipeline { input, steps } => r matches ReplCommand::Pipeline {
            input: i,
            steps: s,
        } && i@ == input && chars::owned_texts(s@) == steps,
        ReplModel::MapReduce { goal, items } => r matches ReplCommand::MapReduce {
            goal: g,
            items: s,
        } && g@ == goal && chars::owned_texts(s@) == items,
        ReplModel::Usage(u) => r matches ReplCommand::Usage(x) && x@ == u,
        ReplModel::Message(t) => r matches ReplCommand::Message(m) && is_local_message(m, t),
    }
}

fn text_behind<'a>(t: &'a str, word: &str) -> (r: Option<&'a str>)
    ensures
        match r {
            Some(rest) => behind_word(t@, word@) == Some(rest@),
            None => behind_word(t@, word@) is None,
        },
{
    match text::after_prefix(t, word) {
        Some(rest) => if rest.unicode_len() == 0 || text::is_white(rest.get_char(0)) {
            Some(text::trim(rest))
        } else {
            None
        },
        None => None,
    }
}

fn split_at_bars(s: &str) -> (r: (String, Vec<String>))
    ensures
        bar_parts(s@).len() > 0,
        r.0@ == bar_parts(s@)[0],
        chars::owned_texts(r.1@) == parts_behind(s@),
{
    let parts = text::pieces(s, CharSet::Only('|'));
    let ghost all = bar_parts(s@);
    let ghost behind = all.skip(1);
    assert(all.len() == parts@.len());
    let first = text::trim(parts[0]).to_owned();
    let mut out: Vec<String> = Vec::new();
    let mut i: usize = 1;
    proof {
        reveal(Seq::filter);
        assert(behind.take(0) =~= Seq::empty());
        assert(chars::owned_texts(out@) =~= Seq::empty());
    }
    while i < parts.len()
        invariant
            1 <= i <= parts.len(),
            all == chars::texts(parts@).map_values(|p: Seq<char>| chars::trim(p)),
            behind == all.skip(1),
            chars::owned_texts(out@) == behind.take(i - 1).filter(chars::at_least(1)),
        decreases parts.len() - i,
    {
        proof {
            reveal(Seq::filter);
            assert(behind.take(i as int).drop_last() =~= behind.take(i - 1));
        }
        let part = text::trim(parts[i]);
        assert(behind[i - 1] == part@);
        if part.unicode_len() > 0 {
            let ghost before = chars::owned_texts(out@);
            out.push(part.to_owned());
            assert(chars::owned_texts(out@) =~= before.push(part@));
        }
        i += 1;
    }
    assert(behind.take(i - 1) =~= behind);
    (first, out)
}

fn read_loop_line(t: &str) -> (r: Option<ReplCommand>)
    ensures
        match r {
            Some(c) => loop_meaning(t@) matches Some(m) && is_meant(c, m),
            None => loop_meaning(t@) is None,
        },
{
    if text::same(t, "/tick") {
        return Some(ReplCommand::Tick);
    }
    if text::same(t, "/heartbeat") {
        return Some(ReplCommand::Heartbeat);
    }
    if let Some(task) = text_behind(t, "/enqueue") {
        return Some(
            if task.unicode_len() > 0 {
                ReplCommand::Enqueue(task.to_owned())
            } else {
                ReplCommand::Usage("usage: /enqueue <task>")
            },
        );
    }
    if let Some(rest) = text_behind(t, "/pipeline") {
        let (input, steps) = split_at_bars(rest);
        assert(chars::owned_texts(steps@).len() == steps@.len());
        return Some(
            if input.as_str().unicode_len() > 0 && steps.len() > 0 {
                ReplCommand::Pipeline { input, steps }
            } else {
                ReplCommand::Usage("usage: /pipeline input | step | step")
            },
        );
    }
    if let Some(rest) = text_behind(t, "/mapreduce") {
        let (goal, items) = split_at_bars(rest);
        assert(chars::owned_texts(items@).len() == items@.len());
        return Some(
            if goal.as_str().unicode_len() > 0 && items.len() > 0 {
                ReplCommand::MapReduce { goal, items }
            } else {
                ReplCommand::Usage("usage: /mapreduce goal | item | item")
            },
        );
    }
    None
}

/// What a line at the prompt asks for.
pub fn read_repl_line(line: &str) -> (r: ReplCommand)
    ensures
        is_meant(r, repl_meaning(line@)),
{
    let t = text::trim(line);
    if text::same(t, "/quit") || text::same(t, "/exit") {
        return ReplCommand::Quit;
    }
    if text::same(t, "/help") || text::same(t, "help") {
        return ReplCommand::Help;
    }
    if let Some(rest) = text::after_prefix(t, "/ls") {
        return ReplCommand::Exec(pair("ls", rest));
    }
    if let Some(rest) = text::after_prefix(t, "/read ") {
        return ReplCommand::Exec(pair("read ", rest));
    }
    if let Some(rest) = text::after_prefix(t, "/exec ") {
        return ReplCommand::Exec(rest.to_owned());
    }
    match read_loop_line(t) {
        Some(command) => command,
        None => ReplCommand::Message(local_message(t)),
    }
}

/// The contents of pipeline stages: the name of each, and its instruction.
pub open spec fn stage_models(v: Seq<PipelineStage>) -> Seq<(Seq<char>, Seq<char>)> {
    v.map_values(|s: PipelineStage| (s.name@, s.input@))
}

/// The stages of a pipeline: each step under its number.
pub open spec fn stages_of(steps: Seq<Seq<char>>) -> Seq<(Seq<char>, Seq<char>)> {
    steps.map(|i: int, s: Seq<char>| ("stage-"@ + numbers::decimal((i + 1) as nat), s))
}

/// The stages of a pipeline for its steps.
pub fn pipeline_stages(steps: &Vec<String>) -> (r: Vec<PipelineStage>)
    ensures
        stage_models(r@) == stages_of(chars::owned_texts(steps@)),
{
    let ghost want = stages_of(chars::owned_texts(steps@));
    let mut out: Vec<PipelineStage> = Vec::new();
    let mut i: usize = 0;
    assert(stage_models(out@) =~= want.take(0));
    while i < steps.len()
        invariant
            i <= steps.len(),
            want == stages_of(chars::owned_texts(steps@)),
            stage_models(out@) == want.take(i as int),
        decreases steps.len() - i,
    {
        let ghost before = stage_models(out@);
        let name = pair("stage-", numbers::usize_text(i + 1).as_str());
        let stage = PipelineStage { name, input: steps[i].clone() };
        let ghost model = (stage.name@, stage.input@);
        out.push(stage);
        i += 1;
        assert(stage_models(out@) =~= before.push(model));
        assert(model == want[i - 1]);
        assert(want.take(i as int) =~= want.take(i - 1).push(want[i - 1]));
    }
    assert(want.take(i as int) =~= want);
    out
}

/// What is printed of a task that was queued.
pub fn queued_line(id: TaskId, depth: usize) -> (r: String)
    ensures
        r@ == "queued "@ + id.name() + " queue="@ + numbers::decimal(depth as nat),
{
    let mut out = "queued ".to_owned();
    out.append(id.label().as_str());
    out.append(" queue=");
    out.append(numbers::usize_text(depth).as_str());
    out
}

/// What is printed of the agent loop: its ticks, its last task with its status, and
/// how many tasks wait.
pub fn heartbeat_line(h: &Heartbeat, depth: usize) -> (r: String)
    ensures
        r@ == "tick="@ + numbers::decimal(h.tick as nat) + " last_task="@ + (match h.last_task {
            Some(id) => id.name(),
            None => "none"@,
        }) + " last_status="@ + h.last_status.name() + " queue="@ + numbers::decimal(depth as nat),
{
    let mut out = "tick=".to_owned();
    out.append(numbers::decimal_of(h.tick).as_str());
    out.append(" last_task=");
    match h.last_task {
        Some(id) => {
            out.append(id.label().as_str());
        },
        None => {
            out.append("none");
        },
    }
    out.append(" last_status=");
    out.append(h.last_status.label());
    out.append(" queue=");
    out.append(numbers::usize_text(depth).as_str());
    out
}

/// What is printed of a tick: the outcome of the task that was taken, or that none
/// was ready.
pub fn tick_text(outcome: &Option<AgentOutcome>) -> (r: String)
    ensures
        r@ == (match *outcome {
            Some(o) => o.task_id.name() + " ["@ + o.status.name() + "] pattern="@ + o.pattern.name()
                + "\n"@ + o.output@,
            None => "no task is ready"@,
        }),
{
    match outcome {
        Some(o) => {
            let mut out = o.task_id.label();
            out.append(" [");
            out.append(o.status.label());
            out.append("] pattern=");
            out.append(o.pattern.label());
            out.append("\n");
            out.append(o.output.as_str());
            out
        },
        None => "no task is ready".to_owned(),
    }
}

/// What is printed of a pipeline.
pub fn pipeline_text(r: &PipelineReport) -> (out: String)
    ensures
        out@ == r.task_id.name() + " stages="@ + numbers::decimal(r.stages_run as nat) + "\n"@
            + r.output@,
{
    let mut out = r.task_id.label();
    out.append(" stages=");
    out.append(numbers::usize_text(r.stages_run).as_str());
    out.append("\n");
    out.append(r.output.as_str());
    out
}

/// What is printed of a map-reduce.
pub fn map_reduce_text(r: &MapReduceReport) -> (out: String)
    ensures
        out@ == r.task_id.name() + " mapped="@ + numbers::decimal(r.mapped as nat) + "\n"@
            + r.output@,
{
    let mut out = r.task_id.label();
    out.append(" mapped=");
    out.append(numbers::usize_text(r.mapped).as_str());
    out.append("\n");
    out.append(r.output.as_str());
    out
}

// ---------------------------------------------------------------------------
// Tasks
// ---------------------------------------------------------------------------

/// What `task` asks for.
#[derive(Debug)]
pub enum TaskCommand {
    New(IncomingMessage),
    List,
    Show(TaskId),
    Fail(CommandReply),
}

/// The usage of `task`.
pub open spec fn task_usage() -> Seq<char> {
    "usage: minipaw task new <text> | task list | task show <id>"@
}

/// Reads the arguments of `task`, which is not among them.
pub fn parse_task_args(args: &Vec<String>) -> (r: TaskCommand)
    ensures
        ({
            let all = chars::owned_texts(args@);
            let word = arg(all, 0);
            if word == Some("new"@) {
                let body = chars::join(all.skip(1), " "@);
                if chars::trim(body).len() == 0 {
                    r matches TaskCommand::Fail(e) && e@ == ReplyModel::fails(
                        "task new requires text"@,
                    )
                } else {
                    r matches TaskCommand::New(m) && is_local_message(m, body)
                }
            } else if word == Some("list"@) {
                r is List
            } else if word == Some("show"@) {
                match arg(all, 1) {
                    Some(v) => match task_in(v) {
                        Some(id) => r matches TaskCommand::Show(i) && i == id,
                        None => r matches TaskCommand::Fail(e) && e@ == ReplyModel::fails(
                            "task show requires a task id like t1"@,
                        ),
                    },
                    None => r matches TaskCommand::Fail(e) && e@ == ReplyModel::fails(
                        "task show requires a task id like t1"@,
                    ),
                }
            } else {
                r matches TaskCommand::Fail(e) && e@ == ReplyModel::fails(task_usage())
            }
        }),
{
    let ghost all = chars::owned_texts(args@);
    if args.len() == 0 {
        return TaskCommand::Fail(
            CommandReply::fails(
                "usage: minipaw task new <text> | task list | task show <id>".to_owned(),
            ),
        );
    }
    assert(all[0] == args@[0]@);
    proof {
        reveal_strlit("new");
        reveal_strlit("list");
        reveal_strlit("show");
        assert("new"@[0] == 'n' && "list"@[0] == 'l' && "show"@[0] == 's');
    }
    let word = args[0].as_str();
    if text::same(word, "new") {
        let rest = text::copy_from(args, 1);
        let body = text::join_owned(&rest, " ");
        if text::trim(body.as_str()).unicode_len() == 0 {
            TaskCommand::Fail(CommandReply::fails("task new requires text".to_owned()))
        } else {
            TaskCommand::New(local_message(body.as_str()))
        }
    } else if text::same(word, "list") {
        TaskCommand::List
    } else if text::same(word, "show") {
        if args.len() > 1 {
            assert(all[1] == args@[1]@);
            match parse_task_id(args[1].as_str()) {
                Some(id) => {
                    return TaskCommand::Show(id);
                },
                None => {},
            }
        }
        TaskCommand::Fail(
            CommandReply::fails("task show requires a task id like t1".to_owned()),
        )
    } else {
        TaskCommand::Fail(
            CommandReply::fails(
                "usage: minipaw task new <text> | task list | task show <id>".to_owned(),
            ),
        )
    }
}

/// The line of a task in the list.
pub open spec fn task_line(t: TaskModel) -> LineModel {
    LineModel::Printed(t.id.name() + " ["@ + t.status.name() + "] "@ + t.title)
}

/// The lines that list tasks.
pub fn list_tasks(tasks: &Vec<Task>) -> (r: Vec<Line>)
    ensures
        line_models(r@) == task_models(tasks@).map_values(|t: TaskModel| task_line(t)),
{
    let ghost want = task_models(tasks@).map_values(|t: TaskModel| task_line(t));
    let mut lines = no_lines();
    let mut i: usize = 0;
    assert(want.take(0) =~= Seq::empty());
    while i < tasks.len()
        invariant
            i <= tasks.len(),
            want == task_models(tasks@).map_values(|t: TaskModel| task_line(t)),
            line_models(lines@) == want.take(i as int),
        decreases tasks.len() - i,
    {
        let t = &tasks[i];
        assert(task_models(tasks@)[i as int] == t@);
        let mut line = t.id.label();
        line.append(" [");
        line.append(t.status.label());
        line.append("] ");
        line.append(t.title.as_str());
        say(&mut lines, line);
        assert(want.take(i + 1) =~= want.take(i as int).push(want[i as int]));
        i += 1;
    }
    assert(want.take(i as int) =~= want);
    lines
}

/// The line that shows a task, or that there is none.
pub open spec fn shown_task(id: TaskId, task: Option<TaskModel>) -> Seq<char> {
    match task {
        Some(t) => t.id.name() + " ["@ + t.status.name() + "] created="@ + numbers::decimal(
            t.created_at as nat,
        ) + " updated="@ + numbers::decimal(t.updated_at as nat) + "\n"@ + t.title,
        None => "task not found: "@ + id.name(),
    }
}

pub fn show_task(id: TaskId, task: &Option<Task>) -> (r: String)
    ensures
        r@ == shown_task(
            id,
            match *task {
                Some(t) => Some(t@),
                None => None,
            },
        ),
{
    match task {
        Some(t) => {
            let mut out = t.id.label();
            out.append(" [");
            out.append(t.status.label());
            out.append("] created=");
            out.append(numbers::decimal_of(t.created_at).as_str());
            out.append(" updated=");
            out.append(numbers::decimal_of(t.updated_at).as_str());
            out.append("\n");
            out.append(t.title.as_str());
            out
        },
        None => pair("task not found: ", id.label().as_str()),
    }
}

// ---------------------------------------------------------------------------
// Memory
// ---------------------------------------------------------------------------

/// The reply with a fact, empty where there is none.
pub open spec fn fact_reply(value: Option<Seq<char>>) -> ReplyModel {
    ReplyModel::says(
        0,
        match value {
            Some(v) => seq![LineModel::Printed(v)],
            None => seq![],
        },
    )
}

fn memory_get<M: MemoryStore>(memory: &M, key: &str) -> (r: CommandReply)
    ensures
        exists|value: Option<Seq<char>>|
            M::fact_found(*memory, key@, value) && r@ == #[trigger] fact_reply(value),
{
    let value = memory.get_fact(key);
    let ghost answer = chars::opt_text(value);
    let mut lines = no_lines();
    match value {
        Some(v) => {
            let ghost x = v@;
            say(&mut lines, v);
            assert(line_models(lines@) =~= seq![LineModel::Printed(x)]);
        },
        None => {
            assert(line_models(lines@) =~= seq![]);
        },
    }
    let r = CommandReply::says(0, lines);
    assert(r@ == fact_reply(answer));
    r
}

/// What `memory` did with a store.
pub open spec fn memory_replied<M: MemoryStore>(
    pre: M,
    post: M,
    args: Seq<Seq<char>>,
    r: ReplyModel,
) -> bool {
    let word = arg(args, 0);
    if word == Some("get"@) {
        &&& post == pre
        &&& match arg(args, 1) {
            Some(key) => exists|value: Option<Seq<char>>|
                M::fact_found(pre, key, value) && r == #[trigger] fact_reply(value),
            None => r == ReplyModel::fails("memory get requires a key"@),
        }
    } else if word == Some("set"@) {
        match arg(args, 1) {
            Some(key) => M::fact_set(pre, post, key, chars::join(args.skip(2), " "@)) && r
                == ReplyModel::says(0, seq![LineModel::Printed("ok"@)]),
            None => post == pre && r == ReplyModel::fails("memory set requires a key and value"@),
        }
    } else {
        post == pre && r == ReplyModel::fails(
            "usage: minipaw memory get <key> | memory set <key> <value>"@,
        )
    }
}

/// `memory`: reads or sets a fact. The word is not among the arguments.
pub fn memory_command<M: MemoryStore>(memory: &mut M, args: &Vec<String>) -> (r: CommandReply)
    ensures
        memory_replied(*old(memory), *final(memory), chars::owned_texts(args@), r@),
{
    let ghost all = chars::owned_texts(args@);
    let usage = "usage: minipaw memory get <key> | memory set <key> <value>";
    if args.len() == 0 {
        return CommandReply::fails(usage.to_owned());
    }
    assert(all[0] == args@[0]@);
    proof {
        reveal_strlit("get");
        reveal_strlit("set");
        assert("get"@[0] == 'g' && "set"@[0] == 's');
    }
    let word = args[0].as_str();
    if text::same(word, "get") {
        if args.len() < 2 {
            return CommandReply::fails("memory get requires a key".to_owned());
        }
        assert(all[1] == args@[1]@);
        return memory_get(memory, args[1].as_str());
    }
    if text::same(word, "set") {
        if args.len() < 2 {
            return CommandReply::fails("memory set requires a key and value".to_owned());
        }
        assert(all[1] == args@[1]@);
        let rest = text::copy_from(args, 2);
        let value = text::join_owned(&rest, " ");
        memory.set_fact(args[1].as_str(), value.as_str());
        let mut lines = no_lines();
        say(&mut lines, "ok".to_owned());
        assert(line_models(lines@) =~= seq![LineModel::Printed("ok"@)]);
        return CommandReply::says(0, lines);
    }
    CommandReply::fails(usage.to_owned())
}

}
