//! Sessions: a message is classified, routed to a model, run to its end, and
//! compared with what the other model makes of it.
use vstd::prelude::*;

use crate::adjustments;
use crate::adjustments::{
    applied, applied_text, directive_of, proposal_path, proposed, AdjustmentDirective,
};
use crate::advisor;
use crate::advisor::{
    comparison_text, shared_words, total_words, verdict_on, DivergenceRecord, DivergenceVerdict,
};
use crate::agent::{recall_of, MEMORY_DETAIL_BYTES, MEMORY_DETAIL_LIMIT, MEMORY_INDEX_LIMIT};
use crate::channels::AgentHandler;
use crate::chars;
use crate::chars::CharSet;
use crate::cli::{line_models, Line, LineModel};
use crate::config::{opt_str, routed, Routing};
use crate::http::text_result;
use crate::llm::{conversed, turns, ChatCall, ChatMessage, LlmClient, Turn};
use crate::llm::{lemma_conversed_concat, lemma_conversed_push};
use crate::log;
use crate::log::{
    how_log, lemma_lines_join, lemma_log_prefix, lemma_why_log_prefix, limit_line, opening_lines,
    step_lines, tag, turn_end_lines, what_line, why_log,
};
use crate::memory::{lemma_performed_concat, lemma_performed_push, performed, performs};
use crate::memory::{
    InMemoryStore, MemoryOp, MemoryStore, ProgressiveMemory, ProgressiveModel,
};
use crate::numbers;
use crate::planner;
use crate::planner::{asked, class_after, class_question};
use crate::prompt_texts::SOUL;
use crate::prompts::{bindings, substituted, PromptStore};
use crate::session;
use crate::session::{
    after_directives, after_reply, answer_ops, data_query, directives, exec_models, exec_note,
    exec_ops, how_after, how_limit, how_ops, how_start, issued, results_of, turn_start, why_limit,
    why_messages, ExecModel, ExecRecord, HowModel, SessionTrace, TraceModel, TurnModel,
};
use crate::session::{
    lemma_results_prefix, lemma_session_execs_grow, lemma_session_prefix, lemma_turn_frozen,
};
use crate::skills::{first_serving, skill_index, skill_named, skills_in, SkillModel, SkillRegistry};
use crate::table;
use crate::table::Row;
use crate::text;
use crate::tools::ToolRunner;
use crate::types::{AdvisorMode, AgentChoice, MessageClass, Task, TaskId, TaskStatus};

verus! {

/// How many bytes of a conversation's history go into a new message's context.
pub const CONTEXT_MAX_BYTES: usize = 6144;

/// How many rules a class may collect from the advisor.
pub const MAX_RULE_APPENDS_PER_CLASS: usize = 24;

/// How many replies a session may take where nothing else is set.
pub const DEFAULT_MAX_SESSION_STEPS: usize = 16;

/// The number of steps that a setting gives: a positive number, else the
/// default.
pub open spec fn steps_setting(raw: Option<Seq<char>>) -> nat {
    match raw {
        Some(v) => match numbers::unsigned_value(v, 10, usize::MAX as nat) {
            Ok(n) => if n > 0 {
                n
            } else {
                DEFAULT_MAX_SESSION_STEPS as nat
            },
            Err(_) => DEFAULT_MAX_SESSION_STEPS as nat,
        },
        None => DEFAULT_MAX_SESSION_STEPS as nat,
    }
}

pub fn max_session_steps(raw: Option<&str>) -> (r: usize)
    ensures
        r == steps_setting(opt_str(raw)),
{
    match raw {
        Some(v) => match numbers::parse_usize(v) {
            Some(n) => if n > 0 {
                n
            } else {
                DEFAULT_MAX_SESSION_STEPS
            },
            None => DEFAULT_MAX_SESSION_STEPS,
        },
        None => DEFAULT_MAX_SESSION_STEPS,
    }
}

/// A message that came in. With a subclass, the execution prompt gets the rules
/// of that subclass too.
#[derive(Debug)]
pub struct IncomingMessage {
    pub text: String,
    pub context_id: Option<String>,
    pub source: String,
    pub subclass: Option<String>,
}

#[derive(Debug)]
pub struct SessionReport {
    pub task_id: TaskId,
    pub class: MessageClass,
    pub output: String,
    pub steps: usize,
}

/// An agent under the name by which it was registered.
pub struct RegisteredAgent<A: AgentHandler> {
    pub name: String,
    pub handler: A,
}

// ---------------------------------------------------------------------------
// Dispatch
// ---------------------------------------------------------------------------

/// Where a command goes.
pub ghost enum Dispatch {
    Refused(Seq<char>),
    Sent { agent: int, command: Seq<char> },
}

/// Position of the first agent of a name, at or behind a position.
pub open spec fn agent_at<A: AgentHandler>(
    agents: Seq<RegisteredAgent<A>>,
    name: Seq<char>,
    from: int,
) -> Option<int>
    decreases agents.len() - from,
{
    if from < 0 || from >= agents.len() {
        None
    } else if agents[from].name@ == name {
        Some(from)
    } else {
        agent_at(agents, name, from + 1)
    }
}

/// What can be an agent's name: not empty, without spaces, and no number.
pub open spec fn is_agent_name(n: Seq<char>) -> bool {
    &&& n.len() > 0
    &&& !chars::contains(n, " "@)
    &&& exists|i: int| 0 <= i < n.len() && !chars::is_digit(#[trigger] n[i]) && n[i] != '-'
}

/// A command that starts with the name of a skill, with the skill's own command
/// in place of the name.
pub open spec fn resolved(skills: Seq<SkillModel>, command: Seq<char>) -> Option<Seq<char>> {
    let t = chars::trim(command);
    let i = chars::until(t, CharSet::White) as int;
    let head = t.take(i);
    let tail = if i < t.len() {
        t.skip(i + 1)
    } else {
        seq![]
    };
    if t.len() == 0 {
        None
    } else {
        match skill_named(skills, head) {
            Some(skill) => match skill.command {
                Some(c) => Some(
                    if tail.len() == 0 {
                        c
                    } else {
                        c + " "@ + tail
                    },
                ),
                None => None,
            },
            None => None,
        }
    }
}

/// The agent that a command names, and what it is told.
pub open spec fn addressed(command: Seq<char>) -> Option<(Seq<char>, Seq<char>)> {
    match chars::around(command, ":"@) {
        Some((name, rest)) => if is_agent_name(chars::trim(name)) {
            Some((chars::trim(name), chars::trim(rest)))
        } else {
            None
        },
        None => None,
    }
}

/// Where a command goes: `name: rest` to the agent of that name, anything else,
/// with skills resolved, to the agent that runs programs.
pub open spec fn dispatch_of<A: AgentHandler>(
    agents: Seq<RegisteredAgent<A>>,
    skills: Seq<SkillModel>,
    command: Seq<char>,
) -> Dispatch {
    match addressed(command) {
        Some((name, rest)) => match agent_at(agents, name, 0) {
            Some(i) => Dispatch::Sent { agent: i, command: rest },
            None => Dispatch::Refused("error: no agent named '"@ + name + "'"@),
        },
        None => match agent_at(agents, "exec"@, 0) {
            Some(i) => Dispatch::Sent {
                agent: i,
                command: match resolved(skills, command) {
                    Some(c) => c,
                    None => command,
                },
            },
            None => Dispatch::Refused("error: no exec agent registered"@),
        },
    }
}

/// What a model sees of an outcome.
pub open spec fn outcome_text(outcome: Result<Seq<char>, Seq<char>>) -> Seq<char> {
    match outcome {
        Ok(out) => out,
        Err(e) => "error: "@ + e,
    }
}

/// The command was dispatched and gave the result.
pub open spec fn dispatched<A: AgentHandler>(
    agents: Seq<RegisteredAgent<A>>,
    skills: Seq<SkillModel>,
    command: Seq<char>,
    result: Seq<char>,
) -> bool {
    match dispatch_of(agents, skills, command) {
        Dispatch::Refused(t) => result == t,
        Dispatch::Sent { agent, command } => exists|outcome: Result<Seq<char>, Seq<char>>|
            A::carried_out(agents[agent].handler, command, outcome) && result
                == #[trigger] outcome_text(outcome),
    }
}

fn looks_like_agent_name(n: &str) -> (r: bool)
    ensures
        r == is_agent_name(n@),
{
    if n.unicode_len() == 0 || text::contains(n, " ") {
        return false;
    }
    let v = text::chars_of(n);
    let mut i: usize = 0;
    while i < v.len()
        invariant
            i <= v.len(),
            v@ == n@,
            n@.len() > 0,
            !chars::contains(n@, " "@),
            forall|k: int| 0 <= k < i ==> chars::is_digit(#[trigger] n@[k]) || n@[k] == '-',
        decreases v.len() - i,
    {
        let c = v[i];
        if !('0' <= c && c <= '9') && c != '-' {
            assert(n@[i as int] == c);
            return true;
        }
        i += 1;
    }
    false
}

pub(crate) fn is_addressed(command: &str) -> (r: bool)
    ensures
        r == (addressed(command@) is Some),
{
    match text::around(command, ":") {
        Some((name, _)) => looks_like_agent_name(text::trim(name)),
        None => false,
    }
}

fn find_agent<A: AgentHandler>(agents: &Vec<RegisteredAgent<A>>, name: &str) -> (r: Option<usize>)
    ensures
        match r {
            Some(i) => agent_at(agents@, name@, 0) == Some(i as int) && i < agents@.len(),
            None => agent_at(agents@, name@, 0) is None,
        },
{
    let mut i: usize = 0;
    while i < agents.len()
        invariant
            i <= agents.len(),
            agent_at(agents@, name@, 0) == agent_at(agents@, name@, i as int),
        decreases agents.len() - i,
    {
        if text::same(agents[i].name.as_str(), name) {
            return Some(i);
        }
        i += 1;
    }
    None
}

/// A command that starts with the name of a skill, with the skill's own command
/// in place of the name.
pub fn resolve_skill_invocation(skills: &SkillRegistry, command: &str) -> (r: Option<String>)
    ensures
        chars::opt_text(r) == resolved(skills@, command@),
{
    let t = text::trim(command);
    let n: usize = t.unicode_len();
    if n == 0 {
        return None;
    }
    let v = text::chars_of(t);
    let i: usize = text::until(&v, 0, CharSet::White);
    proof {
        assert(t@.skip(0) =~= t@);
        chars::lemma_until(t@, CharSet::White);
    }
    let head = t.substring_char(0, i);
    assert(head@ =~= t@.take(i as int));
    let skill = match skills.find(head) {
        Some(skill) => skill,
        None => {
            return None;
        },
    };
    match &skill.command {
        Some(c) => {
            let mut out = c.clone();
            if i < n && i + 1 < n {
                let tail = t.substring_char(i + 1, n);
                assert(tail@ =~= t@.skip(i + 1));
                out.append(" ");
                out.append(tail);
            }
            Some(out)
        },
        None => None,
    }
}

/// What a model sees of an outcome.
pub fn render_outcome(outcome: Result<String, String>) -> (r: String)
    ensures
        r@ == outcome_text(text_result(outcome)),
{
    match outcome {
        Ok(out) => out,
        Err(e) => "error: ".to_owned().concat(e.as_str()),
    }
}

// ---------------------------------------------------------------------------
// The core
// ---------------------------------------------------------------------------

pub struct MiniCore<M: MemoryStore, L: LlmClient, A: AgentHandler> {
    pub memory: M,
    pub llm: L,
    pub advisor: Option<L>,
    pub advisor_mode: AdvisorMode,
    pub routing: Routing,
    pub tools: ToolRunner,
    pub skills: SkillRegistry,
    pub prompts: PromptStore,
    pub agents: Vec<RegisteredAgent<A>>,
    pub os_info: String,
    pub max_steps: usize,
    /// What the sessions have to tell, until it is taken.
    pub log: Vec<Line>,
}

impl<M: MemoryStore, L: LlmClient, A: AgentHandler> MiniCore<M, L, A> {
    pub fn new(
        memory: M,
        llm: L,
        tools: ToolRunner,
        skills: SkillRegistry,
        prompts: PromptStore,
        os_info: String,
        max_steps: usize,
    ) -> (r: Self)
        ensures
            r.memory == memory,
            r.llm == llm,
            r.advisor is None,
            r.advisor_mode == AdvisorMode::Work,
            r.routing == Routing::none(),
            r.tools == tools,
            r.skills == skills,
            r.prompts == prompts,
            r.agents@.len() == 0,
            r.os_info == os_info,
            r.max_steps == max_steps,
            r.log@.len() == 0,
    {
        MiniCore {
            memory,
            llm,
            advisor: None,
            advisor_mode: AdvisorMode::Work,
            routing: Routing::new(),
            tools,
            skills,
            prompts,
            agents: Vec::new(),
            os_info,
            max_steps,
            log: Vec::new(),
        }
    }

    /// Hands the log out and starts a new one.
    pub fn take_log(&mut self) -> (r: Vec<Line>)
        ensures
            r@ == old(self).log@,
            final(self).log@.len() == 0,
            *final(self) == (MiniCore { log: final(self).log, ..*old(self) }),
    {
        let mut lines: Vec<Line> = Vec::new();
        std::mem::swap(&mut lines, &mut self.log);
        lines
    }

    /// Attaches an advisor. Without one the primary handles everything.
    pub fn set_advisor(&mut self, advisor: L, mode: AdvisorMode, routing: Routing)
        ensures
            *final(self) == (MiniCore {
                advisor: Some(advisor),
                advisor_mode: mode,
                routing,
                ..*old(self)
            }),
    {
        self.advisor = Some(advisor);
        self.advisor_mode = mode;
        self.routing = routing;
    }

    pub fn advisor_mode(&self) -> (r: AdvisorMode)
        ensures
            r == self.advisor_mode,
    {
        self.advisor_mode
    }

    pub fn has_advisor(&self) -> (r: bool)
        ensures
            r == (self.advisor is Some),
    {
        self.advisor.is_some()
    }

    pub fn prompts(&self) -> (r: &PromptStore)
        ensures
            *r == self.prompts,
    {
        &self.prompts
    }

    pub fn skills_index_text(&self) -> (r: String)
        ensures
            r@ == skill_index(self.skills@),
    {
        self.skills.index_text()
    }

    /// Takes up the skills as they stand in the workspace.
    pub fn reload_skills(&mut self)
        ensures
            final(self).skills@ == skills_in(old(self).prompts@.skills),
            *final(self) == (MiniCore { skills: final(self).skills, ..*old(self) }),
    {
        self.skills = SkillRegistry::load(&self.prompts.skills);
    }

    /// Registers an agent under its name.
    pub fn register(&mut self, agent: A)
        ensures
            final(self).agents@.len() == old(self).agents@.len() + 1,
            final(self).agents@.drop_last() == old(self).agents@,
            final(self).agents@.last().handler == agent,
            A::goes_by(agent, final(self).agents@.last().name@),
            *final(self) == (MiniCore { agents: final(self).agents, ..*old(self) }),
    {
        let ghost before = self.agents@;
        let name = agent.name().to_owned();
        self.agents.push(RegisteredAgent { name, handler: agent });
        assert(self.agents@.drop_last() =~= before);
    }

    pub fn memory(&self) -> (r: &M)
        ensures
            *r == self.memory,
    {
        &self.memory
    }

    pub fn memory_mut(&mut self) -> (r: &mut M)
        ensures
            *r == old(self).memory,
            *final(self) == (MiniCore { memory: *final(r), ..*old(self) }),
    {
        &mut self.memory
    }

    /// The names of the agents in the order of their registration.
    pub fn agents(&self) -> (r: Vec<String>)
        ensures
            r@.len() == self.agents@.len(),
            forall|i: int| 0 <= i < r@.len() ==> (#[trigger] r@[i])@ == self.agents@[i].name@,
    {
        let mut out: Vec<String> = Vec::new();
        let mut i: usize = 0;
        while i < self.agents.len()
            invariant
                i <= self.agents.len(),
                out@.len() == i,
                forall|k: int| 0 <= k < i ==> (#[trigger] out@[k])@ == self.agents@[k].name@,
            decreases self.agents.len() - i,
        {
            out.push(self.agents[i].name.clone());
            i += 1;
        }
        out
    }

    /// The line of the log for a command that is carried out outside a session.
    pub fn exec_note(&self, command: &str) -> (r: Option<Line>)
        ensures
            match r {
                Some(line) => log::skill_lines(self.skills@, command@) == seq![line@],
                None => log::skill_lines(self.skills@, command@).len() == 0,
            },
    {
        log::skill_note(&self.skills, command)
    }

    /// Carries out a command.
    pub fn run_exec(&self, command: &str) -> (r: String)
        ensures
            dispatched(self.agents@, self.skills@, command@, r@),
    {
        self.dispatch_exec(command)
    }

    fn dispatch_exec(&self, command: &str) -> (r: String)
        ensures
            dispatched(self.agents@, self.skills@, command@, r@),
    {
        if let Some((name, rest)) = text::around(command, ":") {
            let n = text::trim(name);
            if looks_like_agent_name(n) {
                return match find_agent(&self.agents, n) {
                    Some(i) => {
                        let outcome = self.agents[i].handler.execute(text::trim(rest));
                        render_outcome(outcome)
                    },
                    None => {
                        let mut e = "error: no agent named '".to_owned();
                        e.append(n);
                        e.append("'");
                        e
                    },
                };
            }
        }
        match find_agent(&self.agents, "exec") {
            Some(i) => {
                let outcome = match resolve_skill_invocation(&self.skills, command) {
                    Some(target) => self.agents[i].handler.execute(target.as_str()),
                    None => self.agents[i].handler.execute(command),
                };
                render_outcome(outcome)
            },
            None => "error: no exec agent registered".to_owned(),
        }
    }
}

// ---------------------------------------------------------------------------
// Execution sessions
// ---------------------------------------------------------------------------

/// The last command with its result, by their texts.
pub open spec fn last_model(last: Option<(String, String)>) -> Option<(Seq<char>, Seq<char>)> {
    match last {
        Some((cmd, result)) => Some((cmd@, result@)),
        None => None,
    }
}

/// How the directives of a reply ended.
struct TurnEnd {
    done: Option<String>,
    told: bool,
    combined: String,
}

/// The requests of the first `n` replies of an execution session.
pub open spec fn how_calls(
    system: Seq<char>,
    first: Seq<char>,
    replies: Seq<Seq<char>>,
    results: Seq<Seq<char>>,
    n: nat,
) -> Seq<ChatCall>
    decreases n,
{
    if n == 0 {
        seq![]
    } else {
        let k = (n - 1) as nat;
        how_calls(system, first, replies, results, k).push(
            ChatCall {
                system,
                messages: how_after(first, replies, results, k).messages,
                reply: replies[n - 1],
            },
        )
    }
}

proof fn lemma_calls_prefix(
    system: Seq<char>,
    first: Seq<char>,
    replies: Seq<Seq<char>>,
    more: Seq<Seq<char>>,
    a: Seq<Seq<char>>,
    b: Seq<Seq<char>>,
    n: nat,
)
    requires
        n <= replies.len() <= more.len(),
        more.take(replies.len() as int) == replies,
        how_after(first, replies, a, n).execs.len() <= a.len() <= b.len(),
        b.take(a.len() as int) == a,
    ensures
        how_calls(system, first, replies, a, n) == how_calls(system, first, more, b, n),
    decreases n,
{
    if n > 0 {
        let k = (n - 1) as nat;
        lemma_session_execs_grow(first, replies, a, k, n);
        lemma_calls_prefix(system, first, replies, more, a, b, k);
        lemma_session_prefix(first, replies, more, a, b, k);
        assert(more.take(replies.len() as int)[n - 1] == more[n - 1]);
    }
}

proof fn lemma_exec_ops_push(id: TaskId, execs: Seq<ExecModel>, e: ExecModel)
    ensures
        exec_ops(id, execs.push(e)) == exec_ops(id, execs).push(
            MemoryOp::Message { task_id: id, role: "exec"@, body: exec_note(e) },
        ),
{
    assert(exec_ops(id, execs.push(e)) =~= exec_ops(id, execs).push(
        MemoryOp::Message { task_id: id, role: "exec"@, body: exec_note(e) },
    ));
}

impl<M: MemoryStore, L: LlmClient, A: AgentHandler> MiniCore<M, L, A> {
    /// The requests went to the chosen model, and only that model changed.
    pub open spec fn talked(
        pre: Self,
        post: Self,
        who: AgentChoice,
        calls: Seq<ChatCall>,
    ) -> bool {
        match who {
            AgentChoice::Primary => conversed(pre.llm, calls, post.llm) && post.advisor
                == pre.advisor,
            AgentChoice::Advisor => post.llm == pre.llm && match (pre.advisor, post.advisor) {
                (Some(a), Some(b)) => conversed(a, calls, b),
                _ => false,
            },
        }
    }

    /// Nothing but the memory, the models and the log changed.
    pub open spec fn only_talked(pre: Self, post: Self) -> bool {
        post == (MiniCore {
            memory: post.memory,
            llm: post.llm,
            advisor: post.advisor,
            log: post.log,
            ..pre
        })
    }

    /// The lines were added to the log.
    pub open spec fn logged(pre: Self, post: Self, lines: Seq<LineModel>) -> bool {
        line_models(post.log@) == line_models(pre.log@) + lines
    }

    /// The chosen model can be asked.
    pub open spec fn has(self, who: AgentChoice) -> bool {
        who == AgentChoice::Advisor ==> self.advisor is Some
    }

    proof fn lemma_talked_push(
        pre: Self,
        mid: Self,
        post: Self,
        who: AgentChoice,
        calls: Seq<ChatCall>,
        call: ChatCall,
    )
        requires
            Self::talked(pre, mid, who, calls),
            Self::talked(mid, post, who, seq![call]),
        ensures
            Self::talked(pre, post, who, calls.push(call)),
    {
        assert(calls + seq![call] =~= calls.push(call));
        match who {
            AgentChoice::Primary => {
                lemma_conversed_concat(pre.llm, calls, mid.llm, seq![call], post.llm);
            },
            AgentChoice::Advisor => {
                lemma_conversed_concat(
                    pre.advisor->0,
                    calls,
                    mid.advisor->0,
                    seq![call],
                    post.advisor->0,
                );
            },
        }
    }

    /// Asks the chosen model.
    fn ask(&mut self, who: AgentChoice, system: &str, messages: &[ChatMessage]) -> (r: String)
        requires
            old(self).has(who),
        ensures
            Self::talked(
                *old(self),
                *final(self),
                who,
                seq![ChatCall { system: system@, messages: turns(messages@), reply: r@ }],
            ),
            Self::only_talked(*old(self), *final(self)),
            final(self).memory == old(self).memory,
            final(self).log == old(self).log,
            final(self).has(who),
    {
        let ghost pre = *self;
        let reply = match who {
            AgentChoice::Primary => self.llm.chat(system, messages),
            AgentChoice::Advisor => match self.advisor.take() {
                Some(mut model) => {
                    let reply = model.chat(system, messages);
                    self.advisor = Some(model);
                    reply
                },
                None => String::new(),
            },
        };
        proof {
            let call = ChatCall { system: system@, messages: turns(messages@), reply: reply@ };
            match who {
                AgentChoice::Primary => {
                    lemma_conversed_push(pre.llm, seq![], pre.llm, call, self.llm);
                },
                AgentChoice::Advisor => {
                    lemma_conversed_push(
                        pre.advisor->0,
                        seq![],
                        pre.advisor->0,
                        call,
                        self.advisor->0,
                    );
                },
            }
            assert(seq![].push(call) =~= seq![call]);
        }
        reply
    }

    /// Carries out the directives of a reply.
    fn run_turn(
        &mut self,
        task_id: TaskId,
        reply: &str,
        ds: &Vec<String>,
        execs: &mut Vec<ExecRecord>,
        last: &mut Option<(String, String)>,
        record: bool,
        step: usize,
    ) -> (r: TurnEnd)
        ensures
            ({
                let before = exec_models(old(execs)@);
                let after = exec_models(final(execs)@);
                let t = after_directives(
                    TurnModel {
                        execs: before,
                        last: last_model(*old(last)),
                        combined: seq![],
                        done: None,
                        told: false,
                        stopped: false,
                    },
                    reply@,
                    chars::owned_texts(ds@),
                    results_of(after),
                    ds@.len(),
                );
                &&& before.len() <= after.len()
                &&& after.take(before.len() as int) == before
                &&& t.execs == after
                &&& t.last == last_model(*final(last))
                &&& t.combined == r.combined@
                &&& t.done == chars::opt_text(r.done)
                &&& t.told == r.told
                &&& Self::logged(
                    *old(self),
                    *final(self),
                    step_lines(
                        old(self).skills@,
                        record,
                        step as nat,
                        after.skip(before.len() as int),
                    ),
                )
                &&& performed(
                    old(self).memory,
                    if record {
                        exec_ops(task_id, after.skip(before.len() as int))
                    } else {
                        seq![]
                    },
                    final(self).memory,
                )
                &&& forall|j: int|
                    before.len() <= j < after.len() ==> dispatched(
                        old(self).agents@,
                        old(self).skills@,
                        (#[trigger] after[j]).cmd,
                        after[j].result,
                    )
            }),
            *final(self) == (MiniCore {
                memory: final(self).memory,
                log: final(self).log,
                ..*old(self)
            }),
    {
        let ghost pre = *self;
        let ghost before = exec_models(execs@);
        let ghost texts = chars::owned_texts(ds@);
        let ghost start = TurnModel {
            execs: before,
            last: last_model(*last),
            combined: seq![],
            done: None,
            told: false,
            stopped: false,
        };
        let mut combined = String::new();
        let mut i: usize = 0;
        proof {
            assert(before.take(before.len() as int) =~= before);
            assert(exec_ops(task_id, before.skip(before.len() as int)) =~= seq![]);
            assert(combined@ =~= seq![]);
            assert(before.skip(before.len() as int) =~= seq![]);
            assert(line_models(self.log@) =~= line_models(pre.log@) + Seq::<LineModel>::empty());
        }
        while i < ds.len()
            invariant
                i <= ds.len(),
                texts == chars::owned_texts(ds@),
                pre == *old(self),
                before == exec_models(old(execs)@),
                start == (TurnModel {
                    execs: before,
                    last: last_model(*old(last)),
                    combined: seq![],
                    done: None,
                    told: false,
                    stopped: false,
                }),
                before.len() <= execs@.len(),
                exec_models(execs@).take(before.len() as int) == before,
                after_directives(
                    start,
                    reply@,
                    texts,
                    results_of(exec_models(execs@)),
                    i as nat,
                ) == (TurnModel {
                    execs: exec_models(execs@),
                    last: last_model(*last),
                    combined: combined@,
                    done: None,
                    told: false,
                    stopped: false,
                }),
                performed(
                    pre.memory,
                    if record {
                        exec_ops(task_id, exec_models(execs@).skip(before.len() as int))
                    } else {
                        seq![]
                    },
                    self.memory,
                ),
                forall|j: int|
                    before.len() <= j < execs@.len() ==> dispatched(
                        pre.agents@,
                        pre.skills@,
                        (#[trigger] exec_models(execs@)[j]).cmd,
                        exec_models(execs@)[j].result,
                    ),
                Self::logged(
                    pre,
                    *self,
                    step_lines(
                        pre.skills@,
                        record,
                        step as nat,
                        exec_models(execs@).skip(before.len() as int),
                    ),
                ),
                *self == (MiniCore { memory: self.memory, log: self.log, ..pre }),
            decreases ds.len() - i,
        {
            let ghost now = exec_models(execs@);
            let ghost rs = results_of(now);
            let ghost t = after_directives(start, reply@, texts, rs, i as nat);
            let d = ds[i].as_str();
            assert(texts[i as int] == d@);
            i += 1;
            if text::starts_with(d, "DONE:") {
                let output = session::done_payload(reply, d);
                proof {
                    lemma_turn_frozen(start, reply@, texts, rs, i as nat, ds@.len());
                }
                return TurnEnd { done: Some(output), told: true, combined };
            }
            let cmd = match text::after_prefix(d, "EXEC:") {
                Some(c) => text::trim(c),
                None => {
                    continue ;
                },
            };
            let mut cached: Option<String> = None;
            if let Some(pair) = last {
                if text::same(pair.0.as_str(), cmd) {
                    cached = Some(pair.1.clone());
                }
            }
            match cached {
                Some(result) => {
                    if combined.as_str().unicode_len() == 0 {
                        let output = text::trim(result.as_str()).to_owned();
                        proof {
                            lemma_turn_frozen(start, reply@, texts, rs, i as nat, ds@.len());
                        }
                        return TurnEnd { done: Some(output), told: false, combined };
                    }
                    let ghost c0 = combined@;
                    combined.append("Result of `");
                    combined.append(cmd);
                    combined.append("` (cached, loop suppressed):\n");
                    combined.append(result.as_str());
                    combined.append("\n\n");
                    proof {
                        assert(combined@ =~= c0 + session::repeat_feedback(cmd@, result@));
                        lemma_turn_frozen(start, reply@, texts, rs, i as nat, ds@.len());
                    }
                    return TurnEnd { done: None, told: false, combined };
                },
                None => {},
            }
            let result = self.dispatch_exec(cmd);
            let ok = !text::starts_with(result.as_str(), "error:");
            let e = ExecRecord { cmd: cmd.to_owned(), ok, result: result.clone() };
            let ghost em = e@;
            log::log_step(&mut self.log, &self.skills, record, step, &e);
            execs.push(e);
            let ghost next = exec_models(execs@);
            let ghost m1 = self.memory;
            let ghost ops = exec_ops(task_id, now.skip(before.len() as int));
            if record {
                let mut note = "EXEC: ".to_owned();
                note.append(cmd);
                note.append("\nResult: ");
                note.append(result.as_str());
                self.memory.append_message(task_id, "exec", note.as_str());
                proof {
                    assert(note@ == exec_note(em));
                    let op = MemoryOp::Message { task_id, role: "exec"@, body: note@ };
                    lemma_performed_push(pre.memory, ops, m1, op, self.memory);
                    lemma_exec_ops_push(task_id, now.skip(before.len() as int), em);
                }
            }
            let ghost c0 = combined@;
            combined.append("Result of `");
            combined.append(cmd);
            combined.append("`:\n");
            combined.append(result.as_str());
            combined.append("\n\n");
            proof {
                assert(next =~= now.push(em));
                assert(next.skip(before.len() as int) =~= now.skip(before.len() as int).push(em));
                assert(next.skip(before.len() as int).drop_last() =~= now.skip(before.len() as int));
                assert(line_models(self.log@) =~= line_models(pre.log@) + step_lines(
                    pre.skills@,
                    record,
                    step as nat,
                    next.skip(before.len() as int),
                ));
                assert(next.take(before.len() as int) =~= now.take(before.len() as int));
                assert(em == issued(cmd@, result@));
                assert(combined@ =~= c0 + session::feedback(cmd@, result@));
                assert(results_of(next).take(rs.len() as int) =~= rs);
                lemma_results_prefix(
                    start,
                    reply@,
                    texts,
                    rs,
                    results_of(next),
                    (i - 1) as nat,
                );
                assert(results_of(next)[now.len() as int] == result@);
                assert forall|j: int| before.len() <= j < next.len() implies dispatched(
                    pre.agents@,
                    pre.skills@,
                    (#[trigger] next[j]).cmd,
                    next[j].result,
                ) by {
                    if j < now.len() {
                        assert(next[j] == now[j]);
                    }
                }
            }
            *last = Some((cmd.to_owned(), result));
        }
        TurnEnd { done: None, told: false, combined }
    }
}

impl<M: MemoryStore, L: LlmClient, A: AgentHandler> MiniCore<M, L, A> {
    /// The system prompt of execution sessions.
    pub open spec fn how_system(self, subclass: Option<Seq<char>>) -> Seq<char> {
        self.prompts@.rendered_with(
            MessageClass::MiniHow,
            subclass,
            seq![
                ("soul"@, SOUL@),
                ("os"@, self.os_info@),
                ("workspace"@, self.tools.policy.workspace@),
                ("skills"@, skill_index(self.skills@)),
            ],
        )
    }

    /// What an execution session did: the model is asked until it answers or the
    /// steps run out, every command is dispatched, and what was done is recorded
    /// where that is wanted.
    pub open spec fn how_ran(
        pre: Self,
        post: Self,
        who: AgentChoice,
        task_id: TaskId,
        context: Seq<char>,
        record: bool,
        subclass: Option<Seq<char>>,
        replies: Seq<Seq<char>>,
        trace: TraceModel,
    ) -> bool {
        let n = replies.len();
        let rs = results_of(trace.execs);
        let h = how_after(context, replies, rs, n);
        &&& n <= pre.max_steps
        &&& forall|k: nat| k < n ==> (#[trigger] how_after(context, replies, rs, k)).output is None
        &&& h.output is None ==> n == pre.max_steps
        &&& trace.steps == n
        &&& trace.execs == h.execs
        &&& trace.output == (match h.output {
            Some(o) => o,
            None => how_limit(pre.max_steps as nat),
        })
        &&& Self::talked(
            pre,
            post,
            who,
            how_calls(pre.how_system(subclass), context, replies, rs, n),
        )
        &&& Self::logged(
            pre,
            post,
            how_log(pre.skills@, record, task_id, context, replies, rs, n) + (
            if h.output is None {
                seq![limit_line(tag(record), task_id)]
            } else {
                seq![]
            }),
        )
        &&& performed(pre.memory, how_ops(task_id, h, record), post.memory)
        &&& forall|j: int|
            0 <= j < trace.execs.len() ==> dispatched(
                pre.agents@,
                pre.skills@,
                (#[trigger] trace.execs[j]).cmd,
                trace.execs[j].result,
            )
        &&& Self::only_talked(pre, post)
    }

    /// The final answer that a reply gives, where it gives one.
    fn end_turn(
        &mut self,
        task_id: TaskId,
        reply: &str,
        ds: &Vec<String>,
        end: &TurnEnd,
        record: bool,
        steps: usize,
    ) -> (r: Option<String>)
        ensures
            chars::opt_text(r) == (if ds@.len() == 0 {
                Some(chars::trim(reply@))
            } else if end.done is Some {
                chars::opt_text(end.done)
            } else if end.combined@.len() == 0 {
                Some(chars::trim(reply@))
            } else {
                None
            }),
            forall|t: TurnModel|
                t.done == chars::opt_text(end.done) && t.told == end.told && t.combined
                    == end.combined@ ==> Self::logged(
                    *old(self),
                    *final(self),
                    #[trigger] turn_end_lines(record, task_id, ds@.len(), t, steps as nat),
                ),
            *final(self) == (MiniCore { log: final(self).log, ..*old(self) }),
    {
        let ghost before = line_models(self.log@);
        assert(before + Seq::<LineModel>::empty() =~= before);
        if ds.len() == 0 {
            log::log_how_end(&mut self.log, record, "free-form", task_id, steps);
            return Some(text::trim(reply).to_owned());
        }
        match &end.done {
            Some(done) => {
                if end.told {
                    log::log_how_end(&mut self.log, record, "done", task_id, steps);
                }
                Some(done.clone())
            },
            None => if end.combined.as_str().unicode_len() == 0 {
                log::log_how_end(&mut self.log, record, "no-exec", task_id, steps);
                Some(text::trim(reply).to_owned())
            } else {
                None
            },
        }
    }

    /// Records a final answer.
    fn record_answer(&mut self, task_id: TaskId, output: &str, record: bool)
        ensures
            performed(
                old(self).memory,
                if record {
                    answer_ops(task_id, Some(output@))
                } else {
                    seq![]
                },
                final(self).memory,
            ),
            *final(self) == (MiniCore { memory: final(self).memory, ..*old(self) }),
    {
        let ghost m0 = self.memory;
        if record {
            self.memory.append_message(task_id, "advisor", output);
            proof {
                let op = MemoryOp::Message { task_id, role: "advisor"@, body: output@ };
                lemma_performed_push(m0, seq![], m0, op, self.memory);
                assert(seq![].push(op) =~= answer_ops(task_id, Some(output@)));
            }
        }
    }

    fn how_prompt(&self, subclass: Option<&str>) -> (r: String)
        ensures
            r@ == self.how_system(opt_str(subclass)),
    {
        let index = self.skills.index_text();
        let vars: [(&str, &str); 4] = [
            ("soul", SOUL),
            ("os", self.os_info.as_str()),
            ("workspace", self.tools.policy.workspace.as_str()),
            ("skills", index.as_str()),
        ];
        assert(bindings(vars@) =~= seq![
            ("soul"@, SOUL@),
            ("os"@, self.os_info@),
            ("workspace"@, self.tools.policy.workspace@),
            ("skills"@, skill_index(self.skills@)),
        ]);
        self.prompts.render_with_subclass(MessageClass::MiniHow, subclass, vars.as_slice())
    }

    /// An execution session: the model issues commands until it answers.
    fn run_minihow(
        &mut self,
        who: AgentChoice,
        task_id: TaskId,
        context: &str,
        record: bool,
        subclass: Option<&str>,
    ) -> (r: SessionTrace)
        requires
            old(self).has(who),
        ensures
            exists|replies: Seq<Seq<char>>| #[trigger]
                Self::how_ran(
                    *old(self),
                    *final(self),
                    who,
                    task_id,
                    context@,
                    record,
                    opt_str(subclass),
                    replies,
                    r@,
                ),
            final(self).has(who),
    {
        let ghost pre = *self;
        let system = self.how_prompt(subclass);
        let ghost first = context@;
        let mut messages: Vec<ChatMessage> = Vec::new();
        messages.push(ChatMessage::user(context));
        let mut steps: usize = 0;
        let mut last: Option<(String, String)> = None;
        let mut execs: Vec<ExecRecord> = Vec::new();
        let ghost mut replies: Seq<Seq<char>> = Seq::empty();
        proof {
            assert(turns(messages@) =~= how_start(first).messages);
            assert(exec_models(execs@) =~= seq![]);
            assert(exec_ops(task_id, seq![]) =~= seq![]);
            assert(line_models(self.log@) =~= line_models(pre.log@) + Seq::<LineModel>::empty());
        }
        while steps < self.max_steps
            invariant
                steps <= pre.max_steps,
                pre == *old(self),
                system@ == pre.how_system(opt_str(subclass)),
                first == context@,
                replies.len() == steps,
                how_after(first, replies, results_of(exec_models(execs@)), steps as nat) == (
                HowModel {
                    messages: turns(messages@),
                    execs: exec_models(execs@),
                    last: last_model(last),
                    output: None,
                }),
                forall|k: nat|
                    k < steps ==> (#[trigger] how_after(
                        first,
                        replies,
                        results_of(exec_models(execs@)),
                        k,
                    )).output is None,
                Self::talked(
                    pre,
                    *self,
                    who,
                    how_calls(
                        system@,
                        first,
                        replies,
                        results_of(exec_models(execs@)),
                        steps as nat,
                    ),
                ),
                Self::logged(
                    pre,
                    *self,
                    how_log(
                        pre.skills@,
                        record,
                        task_id,
                        first,
                        replies,
                        results_of(exec_models(execs@)),
                        steps as nat,
                    ),
                ),
                performed(
                    pre.memory,
                    if record {
                        exec_ops(task_id, exec_models(execs@))
                    } else {
                        seq![]
                    },
                    self.memory,
                ),
                forall|j: int|
                    0 <= j < execs@.len() ==> dispatched(
                        pre.agents@,
                        pre.skills@,
                        (#[trigger] exec_models(execs@)[j]).cmd,
                        exec_models(execs@)[j].result,
                    ),
                Self::only_talked(pre, *self),
                self.has(who),
            decreases pre.max_steps - steps,
        {
            let ghost c0 = *self;
            let ghost n = steps as nat;
            let ghost old_replies = replies;
            let ghost old_execs = exec_models(execs@);
            let ghost rs0 = results_of(old_execs);
            let ghost h = how_after(first, replies, rs0, n);
            let ghost calls = how_calls(system@, first, replies, rs0, n);
            let reply = self.ask(who, system.as_str(), messages.as_slice());
            steps += 1;
            let ghost c1 = *self;
            let ghost call = ChatCall {
                system: system@,
                messages: h.messages,
                reply: reply@,
            };
            proof {
                replies = replies.push(reply@);
                Self::lemma_talked_push(pre, c0, c1, who, calls, call);
                assert(replies.take(old_replies.len() as int) =~= old_replies);
            }
            let ds = session::collect_directives(reply.as_str());
            assert(chars::owned_texts(ds@).len() == ds@.len());
            let end = self.run_turn(
                task_id,
                reply.as_str(),
                &ds,
                &mut execs,
                &mut last,
                record,
                steps,
            );
            let ghost c2 = *self;
            let ghost now = exec_models(execs@);
            let ghost rs = results_of(now);
            let ghost ops0 = if record {
                exec_ops(task_id, old_execs)
            } else {
                seq![]
            };
            let ghost ops1 = if record {
                exec_ops(task_id, now)
            } else {
                seq![]
            };
            proof {
                assert(rs.take(rs0.len() as int) =~= rs0) by {
                    assert(results_of(now.take(old_execs.len() as int)) =~= rs.take(
                        rs0.len() as int,
                    ));
                }
                lemma_session_prefix(first, old_replies, replies, rs0, rs, n);
                lemma_calls_prefix(system@, first, old_replies, replies, rs0, rs, n);
                lemma_log_prefix(
                    pre.skills@,
                    record,
                    task_id,
                    first,
                    old_replies,
                    replies,
                    rs0,
                    rs,
                    n,
                );
                assert forall|k: nat| k < n implies (#[trigger] how_after(
                    first,
                    replies,
                    rs,
                    k,
                )).output is None by {
                    lemma_session_execs_grow(first, old_replies, rs0, k, n);
                    lemma_session_prefix(first, old_replies, replies, rs0, rs, k);
                    assert(how_after(first, old_replies, rs0, k).output is None);
                }
                assert(how_after(first, replies, rs, n).output is None);
                assert(how_calls(system@, first, replies, rs, n + 1) == calls.push(call));
                assert(Self::talked(pre, c2, who, calls.push(call)));
                let added = if record {
                    exec_ops(task_id, now.skip(old_execs.len() as int))
                } else {
                    seq![]
                };
                lemma_performed_concat(pre.memory, ops0, c1.memory, added, c2.memory);
                assert(ops0 + added =~= ops1) by {
                    assert(old_execs + now.skip(old_execs.len() as int) =~= now);
                }
                assert forall|j: int| 0 <= j < now.len() implies dispatched(
                    pre.agents@,
                    pre.skills@,
                    (#[trigger] now[j]).cmd,
                    now[j].result,
                ) by {
                    if j < old_execs.len() {
                        assert(now.take(old_execs.len() as int)[j] == now[j]);
                        assert(old_execs[j] == now[j]);
                    }
                }
            }
            let ghost after = after_reply(h, reply@, rs);
            assert(how_after(first, replies, rs, n + 1) == after);
            let ghost t = after_directives(turn_start(h), reply@, directives(reply@), rs, ds@.len());
            let output = self.end_turn(task_id, reply.as_str(), &ds, &end, record, steps);
            proof {
                let told = turn_end_lines(record, task_id, ds@.len(), t, n + 1);
                lemma_lines_join(
                    line_models(pre.log@),
                    how_log(pre.skills@, record, task_id, first, replies, rs, n),
                    step_lines(
                        pre.skills@,
                        record,
                        n + 1,
                        now.skip(old_execs.len() as int),
                    ),
                    told,
                );
                if ds@.len() == 0 {
                    assert(now =~= old_execs);
                }
                assert(after.execs == now);
            }
            match output {
                Some(output) => {
                    self.record_answer(task_id, output.as_str(), record);
                    let r = SessionTrace { output, steps, execs };
                    proof {
                        let tail = if record {
                            answer_ops(task_id, Some(r.output@))
                        } else {
                            seq![]
                        };
                        lemma_performed_concat(pre.memory, ops1, c2.memory, tail, self.memory);
                        assert(ops1 + tail =~= how_ops(task_id, after, record));
                        assert(Self::how_ran(
                            pre,
                            *self,
                            who,
                            task_id,
                            first,
                            record,
                            opt_str(subclass),
                            replies,
                            r@,
                        ));
                    }
                    return r;
                },
                None => {},
            }
            let ghost said = turns(messages@);
            messages.push(ChatMessage::assistant(reply.as_str()));
            messages.push(ChatMessage::user(text::trim_end(end.combined.as_str())));
            assert(turns(messages@) =~= said.push(Turn::assistant(reply@)).push(
                Turn::user(chars::trim_end(end.combined@)),
            ));
        }
        log::log_how_limit(&mut self.log, record, task_id);
        let mut output = "Session reached step limit (".to_owned();
        output.append(numbers::usize_text(self.max_steps).as_str());
        output.append(").");
        let r = SessionTrace { output, steps, execs };
        proof {
            let h = how_after(first, replies, results_of(r@.execs), steps as nat);
            assert(line_models(self.log@) =~= line_models(pre.log@) + (how_log(
                pre.skills@,
                record,
                task_id,
                first,
                replies,
                results_of(r@.execs),
                steps as nat,
            ) + seq![limit_line(tag(record), task_id)]));
            assert(how_ops(task_id, h, record) =~= (if record {
                exec_ops(task_id, r@.execs)
            } else {
                seq![]
            }));
            assert(Self::how_ran(
                pre,
                *self,
                who,
                task_id,
                first,
                record,
                opt_str(subclass),
                replies,
                r@,
            ));
        }
        r
    }
}

// ---------------------------------------------------------------------------
// Analysis and query sessions
// ---------------------------------------------------------------------------

/// The requests of the first `n` replies of an analysis session.
pub open spec fn why_calls(
    system: Seq<char>,
    context: Seq<char>,
    replies: Seq<Seq<char>>,
    recalls: Seq<ProgressiveModel>,
    n: nat,
) -> Seq<ChatCall>
    decreases n,
{
    if n == 0 {
        seq![]
    } else {
        let k = (n - 1) as nat;
        why_calls(system, context, replies, recalls, k).push(
            ChatCall {
                system,
                messages: why_messages(context, replies, recalls, k),
                reply: replies[n - 1],
            },
        )
    }
}

/// The memory operations of the first `n` searches of an analysis session.
pub open spec fn why_ops(
    id: TaskId,
    replies: Seq<Seq<char>>,
    recalls: Seq<ProgressiveModel>,
    record: bool,
    n: nat,
) -> Seq<MemoryOp>
    decreases n,
{
    if n == 0 {
        seq![]
    } else {
        let k = n - 1;
        let searched = why_ops(id, replies, recalls, record, k as nat).push(
            recall_of(data_query(replies[k])->0, recalls[k]),
        );
        if record {
            searched.push(
                MemoryOp::Message {
                    task_id: id,
                    role: "data-fetch"@,
                    body: recalls[k].rendered(),
                },
            )
        } else {
            searched
        }
    }
}

proof fn lemma_why_prefix(
    system: Seq<char>,
    context: Seq<char>,
    id: TaskId,
    record: bool,
    replies: Seq<Seq<char>>,
    more: Seq<Seq<char>>,
    recalls: Seq<ProgressiveModel>,
    found: Seq<ProgressiveModel>,
    n: nat,
)
    requires
        n <= replies.len() <= more.len(),
        n <= recalls.len() <= found.len(),
        more.take(replies.len() as int) == replies,
        found.take(recalls.len() as int) == recalls,
    ensures
        why_messages(context, replies, recalls, n) == why_messages(context, more, found, n),
        why_calls(system, context, replies, recalls, n) == why_calls(
            system,
            context,
            more,
            found,
            n,
        ),
        why_ops(id, replies, recalls, record, n) == why_ops(id, more, found, record, n),
    decreases n,
{
    if n > 0 {
        lemma_why_prefix(
            system,
            context,
            id,
            record,
            replies,
            more,
            recalls,
            found,
            (n - 1) as nat,
        );
        assert(more.take(replies.len() as int)[n - 1] == more[n - 1]);
        assert(found.take(recalls.len() as int)[n - 1] == found[n - 1]);
    }
}

fn recall_for<M: MemoryStore>(memory: &M, query: &str) -> (r: ProgressiveMemory)
    ensures
        performs(*memory, recall_of(query@, r@), *memory),
{
    memory.progressive_memory(
        query,
        MEMORY_INDEX_LIMIT,
        MEMORY_DETAIL_LIMIT,
        MEMORY_DETAIL_BYTES,
    )
}

impl<M: MemoryStore, L: LlmClient, A: AgentHandler> MiniCore<M, L, A> {
    /// The system prompt of analysis sessions.
    pub open spec fn why_system(self) -> Seq<char> {
        self.prompts@.rendered(MessageClass::MiniWhy, seq![("soul"@, SOUL@)])
    }

    /// The system prompt of query sessions.
    pub open spec fn what_system(self, memory: ProgressiveModel) -> Seq<char> {
        self.prompts@.rendered(
            MessageClass::MiniWhat,
            seq![("soul"@, SOUL@), ("memory"@, memory.rendered())],
        )
    }

    /// What an analysis session did: the model searches memory until it answers
    /// or the steps run out.
    pub open spec fn why_ran(
        pre: Self,
        post: Self,
        who: AgentChoice,
        task_id: TaskId,
        context: Seq<char>,
        record: bool,
        replies: Seq<Seq<char>>,
        recalls: Seq<ProgressiveModel>,
        trace: TraceModel,
    ) -> bool {
        let n = replies.len();
        let m = recalls.len();
        let output = if m < n {
            Some(chars::trim(replies[m as int]))
        } else {
            None
        };
        &&& n <= pre.max_steps
        &&& n == m + 1 && data_query(replies[m as int]) is None || n == m && n == pre.max_steps
        &&& forall|k: int| 0 <= k < m ==> data_query(#[trigger] replies[k]) is Some
        &&& trace == (TraceModel {
            output: match output {
                Some(o) => o,
                None => why_limit(pre.max_steps as nat),
            },
            steps: n,
            execs: seq![],
        })
        &&& Self::talked(
            pre,
            post,
            who,
            why_calls(pre.why_system(), context, replies, recalls, n),
        )
        &&& Self::logged(
            pre,
            post,
            why_log(task_id, replies, recalls, n) + (if output is None {
                seq![limit_line("miniwhy"@, task_id)]
            } else {
                seq![]
            }),
        )
        &&& performed(
            pre.memory,
            why_ops(task_id, replies, recalls, record, m) + (if record {
                answer_ops(task_id, output)
            } else {
                seq![]
            }),
            post.memory,
        )
        &&& Self::only_talked(pre, post)
    }

    /// What a query session did: the model is asked once, with what memory holds.
    pub open spec fn what_ran(
        pre: Self,
        post: Self,
        who: AgentChoice,
        task_id: TaskId,
        context: Seq<char>,
        record: bool,
        memory: ProgressiveModel,
        reply: Seq<char>,
        trace: TraceModel,
    ) -> bool {
        let output = chars::trim(reply);
        &&& Self::logged(pre, post, seq![what_line(task_id)])
        &&& trace == (TraceModel { output, steps: 1, execs: seq![] })
        &&& Self::talked(
            pre,
            post,
            who,
            seq![
                ChatCall {
                    system: pre.what_system(memory),
                    messages: seq![Turn::user(context)],
                    reply,
                },
            ],
        )
        &&& performed(
            pre.memory,
            seq![recall_of(context, memory)] + (if record {
                answer_ops(task_id, Some(output))
            } else {
                seq![]
            }),
            post.memory,
        )
        &&& Self::only_talked(pre, post)
    }

    /// What a session of a class did.
    pub open spec fn session_ran(
        pre: Self,
        post: Self,
        who: AgentChoice,
        class: MessageClass,
        task_id: TaskId,
        context: Seq<char>,
        record: bool,
        subclass: Option<Seq<char>>,
        trace: TraceModel,
    ) -> bool {
        match class {
            MessageClass::MiniHow => exists|replies: Seq<Seq<char>>| #[trigger]
                Self::how_ran(
                    pre,
                    post,
                    who,
                    task_id,
                    context,
                    record,
                    subclass,
                    replies,
                    trace,
                ),
            MessageClass::MiniWhy => exists|
                replies: Seq<Seq<char>>,
                recalls: Seq<ProgressiveModel>,
            | #[trigger]
                Self::why_ran(
                    pre,
                    post,
                    who,
                    task_id,
                    context,
                    record,
                    replies,
                    recalls,
                    trace,
                ),
            MessageClass::MiniWhat => exists|memory: ProgressiveModel, reply: Seq<char>| #[trigger]
                Self::what_ran(
                    pre,
                    post,
                    who,
                    task_id,
                    context,
                    record,
                    memory,
                    reply,
                    trace,
                ),
        }
    }

    /// An analysis session: the model may search memory before it answers.
    fn run_miniwhy(
        &mut self,
        who: AgentChoice,
        task_id: TaskId,
        context: &str,
        record: bool,
    ) -> (r: SessionTrace)
        requires
            old(self).has(who),
        ensures
            exists|replies: Seq<Seq<char>>, recalls: Seq<ProgressiveModel>| #[trigger]
                Self::why_ran(
                    *old(self),
                    *final(self),
                    who,
                    task_id,
                    context@,
                    record,
                    replies,
                    recalls,
                    r@,
                ),
            final(self).has(who),
    {
        let ghost pre = *self;
        let vars: [(&str, &str); 1] = [("soul", SOUL)];
        assert(bindings(vars@) =~= seq![("soul"@, SOUL@)]);
        let system = self.prompts.render(MessageClass::MiniWhy, vars.as_slice());
        let mut messages: Vec<ChatMessage> = Vec::new();
        messages.push(ChatMessage::user(context));
        let ghost mut replies: Seq<Seq<char>> = Seq::empty();
        let ghost mut recalls: Seq<ProgressiveModel> = Seq::empty();
        let mut steps: usize = 0;
        assert(turns(messages@) =~= seq![Turn::user(context@)]);
        assert(line_models(self.log@) =~= line_models(pre.log@) + Seq::<LineModel>::empty());
        while steps < self.max_steps
            invariant
                steps <= pre.max_steps,
                pre == *old(self),
                system@ == pre.why_system(),
                replies.len() == steps,
                recalls.len() == steps,
                turns(messages@) == why_messages(context@, replies, recalls, steps as nat),
                forall|k: int| 0 <= k < steps ==> data_query(#[trigger] replies[k]) is Some,
                Self::talked(
                    pre,
                    *self,
                    who,
                    why_calls(system@, context@, replies, recalls, steps as nat),
                ),
                performed(
                    pre.memory,
                    why_ops(task_id, replies, recalls, record, steps as nat),
                    self.memory,
                ),
                Self::logged(pre, *self, why_log(task_id, replies, recalls, steps as nat)),
                Self::only_talked(pre, *self),
                self.has(who),
            decreases pre.max_steps - steps,
        {
            let ghost c0 = *self;
            let ghost n = steps as nat;
            let ghost ops = why_ops(task_id, replies, recalls, record, n);
            let ghost calls = why_calls(system@, context@, replies, recalls, n);
            let ghost asked_with = turns(messages@);
            steps += 1;
            log::log_why_step(&mut self.log, task_id, steps);
            let reply = self.ask(who, system.as_str(), messages.as_slice());
            let ghost c1 = *self;
            let ghost more = replies.push(reply@);
            let ghost call = ChatCall {
                system: system@,
                messages: asked_with,
                reply: reply@,
            };
            proof {
                Self::lemma_talked_push(pre, c0, c1, who, calls, call);
                assert(more.take(replies.len() as int) =~= replies);
                assert(recalls.take(recalls.len() as int) =~= recalls);
            }
            match session::requested_data(reply.as_str()) {
                Some(query) => {
                    let memory = recall_for(&self.memory, query.as_str());
                    let data = memory.render();
                    let ghost op0 = recall_of(query@, memory@);
                    let ghost found = recalls.push(memory@);
                    log::log_search(&mut self.log, task_id, query.as_str(), data.as_str());
                    if record {
                        self.memory.append_message(task_id, "data-fetch", data.as_str());
                    }
                    proof {
                        assert(found.take(recalls.len() as int) =~= recalls);
                        lemma_why_prefix(
                            system@,
                            context@,
                            task_id,
                            record,
                            replies,
                            more,
                            recalls,
                            found,
                            n,
                        );
                        lemma_why_log_prefix(task_id, replies, more, recalls, found, n);
                        lemma_performed_push(pre.memory, ops, c1.memory, op0, c1.memory);
                        if record {
                            let op1 = MemoryOp::Message {
                                task_id,
                                role: "data-fetch"@,
                                body: data@,
                            };
                            lemma_performed_push(
                                pre.memory,
                                ops.push(op0),
                                c1.memory,
                                op1,
                                self.memory,
                            );
                        }
                        assert(more[n as int] == reply@ && found[n as int] == memory@);
                        assert forall|k: int| 0 <= k < n + 1 implies data_query(
                            #[trigger] more[k],
                        ) is Some by {
                            if k < n {
                                assert(more[k] == replies[k]);
                            }
                        }
                        assert(line_models(self.log@) =~= line_models(pre.log@) + why_log(
                            task_id,
                            more,
                            found,
                            n + 1,
                        ));
                        replies = more;
                        recalls = found;
                    }
                    let mut shown = "Data for '".to_owned();
                    shown.append(query.as_str());
                    shown.append("':\n");
                    shown.append(data.as_str());
                    let ghost said = turns(messages@);
                    messages.push(ChatMessage::assistant(reply.as_str()));
                    messages.push(ChatMessage::user(shown.as_str()));
                    assert(turns(messages@) =~= said.push(Turn::assistant(reply@)).push(
                        Turn::user(shown@),
                    ));
                },
                None => {
                    let output = text::trim(reply.as_str()).to_owned();
                    self.record_answer(task_id, output.as_str(), record);
                    log::log_why_end(&mut self.log, task_id, reply.as_str(), steps);
                    let r = SessionTrace::empty(output, steps);
                    proof {
                        lemma_why_prefix(
                            system@,
                            context@,
                            task_id,
                            record,
                            replies,
                            more,
                            recalls,
                            recalls,
                            n,
                        );
                        lemma_why_log_prefix(task_id, replies, more, recalls, recalls, n);
                        let tail = if record {
                            answer_ops(task_id, Some(r.output@))
                        } else {
                            seq![]
                        };
                        lemma_performed_concat(pre.memory, ops, c1.memory, tail, self.memory);
                        assert(more[n as int] == reply@);
                        assert(line_models(self.log@) =~= line_models(pre.log@) + (why_log(
                            task_id,
                            more,
                            recalls,
                            n + 1,
                        ) + Seq::<LineModel>::empty()));
                        assert forall|k: int| 0 <= k < n implies data_query(
                            #[trigger] more[k],
                        ) is Some by {
                            assert(more[k] == replies[k]);
                        }
                        assert(Self::why_ran(
                            pre,
                            *self,
                            who,
                            task_id,
                            context@,
                            record,
                            more,
                            recalls,
                            r@,
                        ));
                    }
                    return r;
                },
            }
        }
        log::log_why_limit(&mut self.log, task_id);
        let mut output = "Analysis reached step limit (".to_owned();
        output.append(numbers::usize_text(self.max_steps).as_str());
        output.append(").");
        let r = SessionTrace::empty(output, steps);
        proof {
            let ops = why_ops(task_id, replies, recalls, record, steps as nat);
            assert(ops + Seq::<MemoryOp>::empty() =~= ops);
            assert(line_models(self.log@) =~= line_models(pre.log@) + (why_log(
                task_id,
                replies,
                recalls,
                steps as nat,
            ) + seq![limit_line("miniwhy"@, task_id)]));
            assert(Self::why_ran(
                pre,
                *self,
                who,
                task_id,
                context@,
                record,
                replies,
                recalls,
                r@,
            ));
        }
        r
    }

    /// A query session: one answer from what memory holds.
    fn run_miniwhat(
        &mut self,
        who: AgentChoice,
        task_id: TaskId,
        context: &str,
        record: bool,
    ) -> (r: SessionTrace)
        requires
            old(self).has(who),
        ensures
            exists|memory: ProgressiveModel, reply: Seq<char>| #[trigger]
                Self::what_ran(
                    *old(self),
                    *final(self),
                    who,
                    task_id,
                    context@,
                    record,
                    memory,
                    reply,
                    r@,
                ),
            final(self).has(who),
    {
        let ghost pre = *self;
        log::log_what(&mut self.log, task_id);
        assert(line_models(self.log@) =~= line_models(pre.log@) + seq![what_line(task_id)]);
        let memory = recall_for(&self.memory, context);
        let shown = memory.render();
        let vars: [(&str, &str); 2] = [("soul", SOUL), ("memory", shown.as_str())];
        assert(bindings(vars@) =~= seq![("soul"@, SOUL@), ("memory"@, shown@)]);
        let system = self.prompts.render(MessageClass::MiniWhat, vars.as_slice());
        let mut messages: Vec<ChatMessage> = Vec::new();
        messages.push(ChatMessage::user(context));
        assert(turns(messages@) =~= seq![Turn::user(context@)]);
        let reply = self.ask(who, system.as_str(), messages.as_slice());
        let ghost c1 = *self;
        let output = text::trim(reply.as_str()).to_owned();
        self.record_answer(task_id, output.as_str(), record);
        let r = SessionTrace::empty(output, 1);
        proof {
            let op0 = recall_of(context@, memory@);
            lemma_performed_push(pre.memory, seq![], pre.memory, op0, pre.memory);
            assert(seq![].push(op0) =~= seq![op0]);
            let tail = if record {
                answer_ops(task_id, Some(r.output@))
            } else {
                seq![]
            };
            lemma_performed_concat(pre.memory, seq![op0], c1.memory, tail, self.memory);
            assert(Self::what_ran(
                pre,
                *self,
                who,
                task_id,
                context@,
                record,
                memory@,
                reply@,
                r@,
            ));
        }
        r
    }

    /// Runs a session of a class with the chosen model.
    fn run_session_with_subclass(
        &mut self,
        who: AgentChoice,
        class: MessageClass,
        task_id: TaskId,
        context: &str,
        record: bool,
        subclass: Option<&str>,
    ) -> (r: SessionTrace)
        requires
            old(self).has(who),
        ensures
            Self::session_ran(
                *old(self),
                *final(self),
                who,
                class,
                task_id,
                context@,
                record,
                opt_str(subclass),
                r@,
            ),
            final(self).has(who),
            Self::only_talked(*old(self), *final(self)),
            old(self).advisor is Some ==> final(self).advisor is Some,
    {
        match class {
            MessageClass::MiniHow => self.run_minihow(who, task_id, context, record, subclass),
            MessageClass::MiniWhy => self.run_miniwhy(who, task_id, context, record),
            MessageClass::MiniWhat => self.run_miniwhat(who, task_id, context, record),
        }
    }
}

// ---------------------------------------------------------------------------
// Messages
// ---------------------------------------------------------------------------

/// A message whose session still has to be shadowed by the other model.
#[derive(Debug)]
pub struct ShadowRun {
    pub task_id: TaskId,
    pub class: MessageClass,
    pub executor: AgentChoice,
    pub context: String,
    pub trace: SessionTrace,
}

/// How far a message has been processed.
#[derive(Debug)]
pub enum ProcessStep {
    Finished(SessionReport),
    Shadow(ShadowRun),
}

/// The key under which a conversation's task is kept.
pub open spec fn context_key(cid: Seq<char>) -> Seq<char> {
    "ctx:"@ + cid
}

/// What was read, asked and created when a message was taken up.
pub ghost struct Opening {
    pub fact: Option<Seq<char>>,
    pub history: Seq<char>,
    pub reply: Seq<char>,
    pub task: Task,
}

/// The task that a conversation goes on with.
pub open spec fn prior_task(cid: Option<Seq<char>>, fact: Option<Seq<char>>) -> Option<TaskId> {
    match (cid, fact) {
        (Some(_), Some(raw)) => match numbers::unsigned_value(raw, 10, u64::MAX as nat) {
            Ok(n) => Some(TaskId(n as u64)),
            Err(_) => None,
        },
        _ => None,
    }
}

/// The context of a message: the history of its conversation before it, where
/// there is any.
pub open spec fn message_context(
    body: Seq<char>,
    prior: Option<TaskId>,
    history: Seq<char>,
) -> Seq<char> {
    match prior {
        Some(_) => if history.len() == 0 {
            body
        } else {
            "Conversation history:\n"@ + history + "\n\nNew message:\n"@ + body
        },
        None => body,
    }
}

/// What is read to find the context of a message.
pub open spec fn context_ops(
    cid: Option<Seq<char>>,
    fact: Option<Seq<char>>,
    history: Seq<char>,
) -> Seq<MemoryOp> {
    match cid {
        None => seq![],
        Some(c) => {
            let read = seq![MemoryOp::Fact { key: context_key(c), answer: fact }];
            match prior_task(cid, fact) {
                Some(id) => read.push(
                    MemoryOp::Transcript {
                        task_id: id,
                        max_bytes: CONTEXT_MAX_BYTES as nat,
                        body: history,
                    },
                ),
                None => read,
            }
        },
    }
}

/// The operations that give a message its task: a new one, kept for its
/// conversation, unless the conversation has one.
pub open spec fn task_ops(
    body: Seq<char>,
    cid: Option<Seq<char>>,
    prior: Option<TaskId>,
    task: Task,
) -> Seq<MemoryOp> {
    match prior {
        Some(_) => seq![],
        None => {
            let create = seq![MemoryOp::Create { title: body, task }];
            match cid {
                Some(c) => create.push(
                    MemoryOp::SetFact {
                        key: context_key(c),
                        value: numbers::decimal(task.id.0 as nat),
                    },
                ),
                None => create,
            }
        },
    }
}

/// The class of a message: a query that an executable skill serves is executed.
pub open spec fn final_class(
    class: MessageClass,
    skills: Seq<SkillModel>,
    body: Seq<char>,
) -> MessageClass {
    if class == MessageClass::MiniWhat && first_serving(skills, body) is Some {
        MessageClass::MiniHow
    } else {
        class
    }
}

/// The status of a task by its answer.
pub open spec fn answer_status(output: Seq<char>) -> TaskStatus {
    if chars::starts_with(output, "error:"@) {
        TaskStatus::Failed
    } else {
        TaskStatus::Done
    }
}

/// The operations that close a session.
pub open spec fn report_ops(id: TaskId, output: Seq<char>) -> Seq<MemoryOp> {
    seq![
        MemoryOp::Status { id, status: answer_status(output) },
        MemoryOp::Message { task_id: id, role: "assistant"@, body: output },
    ]
}

/// The operations that start a conversation anew.
pub open spec fn restart_ops(cid: Option<Seq<char>>, task: Task) -> Seq<MemoryOp> {
    (match cid {
        Some(c) => seq![MemoryOp::DeleteFact { key: context_key(c) }],
        None => seq![],
    }) + seq![
        MemoryOp::Create { title: "/new"@, task },
        MemoryOp::Message { task_id: task.id, role: "user"@, body: "/new"@ },
        MemoryOp::Message {
            task_id: task.id,
            role: "assistant"@,
            body: "New conversation started."@,
        },
        MemoryOp::Status { id: task.id, status: TaskStatus::Done },
    ]
}

/// The other model.
pub open spec fn other_of(who: AgentChoice) -> AgentChoice {
    match who {
        AgentChoice::Primary => AgentChoice::Advisor,
        AgentChoice::Advisor => AgentChoice::Primary,
    }
}

fn key_of(cid: &str) -> (r: String)
    ensures
        r@ == context_key(cid@),
{
    "ctx:".to_owned().concat(cid)
}

impl<M: MemoryStore, L: LlmClient, A: AgentHandler> MiniCore<M, L, A> {
    /// The model that serves a class: the primary without an advisor, the advisor
    /// in training, else the one of the class's rule.
    pub open spec fn executor_of(self, class: MessageClass) -> AgentChoice {
        if self.advisor is None {
            AgentChoice::Primary
        } else if self.advisor_mode == AdvisorMode::Training {
            AgentChoice::Advisor
        } else {
            routed(self.routing.rule(class))
        }
    }

    /// Sessions are shadowed in training and in trial, where there is an advisor.
    pub open spec fn shadows(self) -> bool {
        self.advisor is Some && self.advisor_mode != AdvisorMode::Work
    }

    /// The chosen model, the primary where there is no advisor.
    pub open spec fn effective(self, who: AgentChoice) -> AgentChoice {
        if self.advisor is None {
            AgentChoice::Primary
        } else {
            who
        }
    }

    /// A message was taken up: its context read, its class asked of the primary,
    /// its task created or found, and its text recorded.
    pub open spec fn opened(
        pre: Self,
        post: Self,
        msg: IncomingMessage,
        w: Opening,
        task_id: TaskId,
        class: MessageClass,
        context: Seq<char>,
    ) -> bool {
        let body = msg.text@;
        let cid = chars::opt_text(msg.context_id);
        let prior = prior_task(cid, w.fact);
        &&& context == message_context(body, prior, w.history)
        &&& asked(pre.llm, post.llm, class_question(context), w.reply)
        &&& class == final_class(class_after(w.reply), pre.skills@, body)
        &&& task_id == (match prior {
            Some(id) => id,
            None => w.task.id,
        })
        &&& performed(
            pre.memory,
            context_ops(cid, w.fact, w.history) + task_ops(body, cid, prior, w.task) + seq![
                MemoryOp::Message { task_id, role: "user"@, body },
                MemoryOp::Status { id: task_id, status: TaskStatus::Running },
            ],
            post.memory,
        )
        &&& Self::logged(
            pre,
            post,
            opening_lines(
                class_after(w.reply),
                class,
                task_id,
                msg.source@,
                prior is Some,
                pre.advisor_mode,
                pre.executor_of(class),
            ),
        )
        &&& post == (MiniCore { memory: post.memory, llm: post.llm, log: post.log, ..pre })
    }

    pub fn choose_executor(&self, class: MessageClass) -> (r: AgentChoice)
        ensures
            r == self.executor_of(class),
    {
        if self.advisor.is_none() {
            return AgentChoice::Primary;
        }
        match self.advisor_mode {
            AdvisorMode::Training => AgentChoice::Advisor,
            _ => match self.routing.get(class) {
                Some(choice) => choice,
                None => AgentChoice::Primary,
            },
        }
    }

    /// Whether the next session will be shadowed.
    pub fn should_shadow(&self) -> (r: bool)
        ensures
            r == self.shadows(),
    {
        self.advisor.is_some() && self.advisor_mode != AdvisorMode::Work
    }

    /// Reads the context of a message.
    fn assemble_context(&self, msg: &IncomingMessage) -> (r: (Option<TaskId>, String))
        ensures
            exists|fact: Option<Seq<char>>, history: Seq<char>|
                {
                    &&& #[trigger] performed(
                        self.memory,
                        context_ops(chars::opt_text(msg.context_id), fact, history),
                        self.memory,
                    )
                    &&& r.0 == prior_task(chars::opt_text(msg.context_id), fact)
                    &&& r.1@ == message_context(msg.text@, r.0, history)
                },
    {
        let ghost m = self.memory;
        let ghost cid = chars::opt_text(msg.context_id);
        let key = match &msg.context_id {
            Some(c) => key_of(c.as_str()),
            None => {
                assert(performed(m, context_ops(cid, None, seq![]), m));
                return (None, msg.text.clone());
            },
        };
        let raw = self.memory.get_fact(key.as_str());
        let ghost fact = chars::opt_text(raw);
        let ghost op0 = MemoryOp::Fact { key: key@, answer: fact };
        proof {
            lemma_performed_push(m, seq![], m, op0, m);
            assert(seq![].push(op0) =~= seq![op0]);
        }
        let id: u64 = match raw {
            Some(raw) => match numbers::parse_u64(raw.as_str()) {
                Some(n) => n,
                None => {
                    assert(performed(m, context_ops(cid, fact, seq![]), m));
                    return (None, msg.text.clone());
                },
            },
            None => {
                assert(performed(m, context_ops(cid, fact, seq![]), m));
                return (None, msg.text.clone());
            },
        };
        let history = self.memory.task_context(TaskId(id), CONTEXT_MAX_BYTES);
        proof {
            let op1 = MemoryOp::Transcript {
                task_id: TaskId(id),
                max_bytes: CONTEXT_MAX_BYTES as nat,
                body: history@,
            };
            lemma_performed_push(m, seq![op0], m, op1, m);
            assert(performed(m, context_ops(cid, fact, history@), m));
        }
        if history.as_str().unicode_len() == 0 {
            return (Some(TaskId(id)), msg.text.clone());
        }
        let mut context = "Conversation history:\n".to_owned();
        context.append(history.as_str());
        context.append("\n\nNew message:\n");
        context.append(msg.text.as_str());
        (Some(TaskId(id)), context)
    }

    /// Starts a conversation anew.
    fn restart(&mut self, msg: &IncomingMessage) -> (r: SessionReport)
        ensures
            exists|task: Task|
                #[trigger] performed(
                    old(self).memory,
                    restart_ops(chars::opt_text(msg.context_id), task),
                    final(self).memory,
                ) && r.task_id == task.id,
            r.class == MessageClass::MiniHow,
            r.output@ == "New conversation started."@,
            r.steps == 0,
            *final(self) == (MiniCore { memory: final(self).memory, ..*old(self) }),
    {
        let ghost m0 = self.memory;
        let ghost cid = chars::opt_text(msg.context_id);
        let ghost mut ops: Seq<MemoryOp> = seq![];
        match &msg.context_id {
            Some(c) => {
                let key = key_of(c.as_str());
                self.memory.delete_fact(key.as_str());
                proof {
                    let op = MemoryOp::DeleteFact { key: key@ };
                    lemma_performed_push(m0, ops, m0, op, self.memory);
                    ops = ops.push(op);
                }
            },
            None => {},
        }
        let ghost m1 = self.memory;
        let task = self.memory.create_task("/new");
        let ghost m2 = self.memory;
        self.memory.append_message(task.id, "user", "/new");
        let ghost m3 = self.memory;
        self.memory.append_message(task.id, "assistant", "New conversation started.");
        let ghost m4 = self.memory;
        self.memory.update_task_status(task.id, TaskStatus::Done);
        proof {
            let op0 = MemoryOp::Create { title: "/new"@, task };
            let op1 = MemoryOp::Message { task_id: task.id, role: "user"@, body: "/new"@ };
            let op2 = MemoryOp::Message {
                task_id: task.id,
                role: "assistant"@,
                body: "New conversation started."@,
            };
            let op3 = MemoryOp::Status { id: task.id, status: TaskStatus::Done };
            lemma_performed_push(m0, ops, m1, op0, m2);
            lemma_performed_push(m0, ops.push(op0), m2, op1, m3);
            lemma_performed_push(m0, ops.push(op0).push(op1), m3, op2, m4);
            lemma_performed_push(m0, ops.push(op0).push(op1).push(op2), m4, op3, self.memory);
            assert(ops.push(op0).push(op1).push(op2).push(op3) =~= restart_ops(cid, task));
        }
        SessionReport {
            task_id: task.id,
            class: MessageClass::MiniHow,
            output: "New conversation started.".to_owned(),
            steps: 0,
        }
    }

    /// Takes a message up.
    fn open_message(&mut self, msg: &IncomingMessage) -> (r: (TaskId, MessageClass, String))
        ensures
            exists|w: Opening| #[trigger]
                Self::opened(*old(self), *final(self), *msg, w, r.0, r.1, r.2@),
    {
        let ghost pre = *self;
        let ghost m0 = self.memory;
        let ghost cid = chars::opt_text(msg.context_id);
        let body = msg.text.as_str();
        let (prior, context) = self.assemble_context(msg);
        let ghost (fact, history) = choose|fact: Option<Seq<char>>, history: Seq<char>|
            {
                &&& #[trigger] performed(m0, context_ops(cid, fact, history), m0)
                &&& prior == prior_task(cid, fact)
                &&& context@ == message_context(body@, prior, history)
            };
        let ghost read = context_ops(cid, fact, history);
        let picked = planner::classify_message(context.as_str(), &mut self.llm);
        let ghost reply = choose|reply: Seq<char>|
            asked(pre.llm, self.llm, class_question(context@), reply) && picked
                == #[trigger] class_after(reply);
        let class = if picked == MessageClass::MiniWhat && self.skills.match_for_input(
            body,
        ).is_some() {
            MessageClass::MiniHow
        } else {
            picked
        };
        let ghost mut created = Task {
            id: TaskId(0),
            title: msg.text,
            status: TaskStatus::New,
            created_at: 0,
            updated_at: 0,
        };
        let ghost mut ops: Seq<MemoryOp> = read;
        let task_id = match prior {
            Some(id) => id,
            None => {
                let ghost m1 = self.memory;
                let task = self.memory.create_task(body);
                let id = task.id;
                proof {
                    let op = MemoryOp::Create { title: body@, task };
                    lemma_performed_push(m0, ops, m1, op, self.memory);
                    ops = ops.push(op);
                    created = task;
                }
                match &msg.context_id {
                    Some(c) => {
                        let ghost m2 = self.memory;
                        let key = key_of(c.as_str());
                        let value = numbers::decimal_of(id.0);
                        self.memory.set_fact(key.as_str(), value.as_str());
                        proof {
                            let op = MemoryOp::SetFact { key: key@, value: value@ };
                            lemma_performed_push(m0, ops, m2, op, self.memory);
                            ops = ops.push(op);
                        }
                    },
                    None => {},
                }
                id
            },
        };
        let executor = self.choose_executor(class);
        log::log_opening(
            &mut self.log,
            picked,
            class,
            task_id,
            msg.source.as_str(),
            prior.is_some(),
            self.advisor_mode,
            executor,
        );
        let ghost m3 = self.memory;
        self.memory.append_message(task_id, "user", body);
        let ghost m4 = self.memory;
        self.memory.update_task_status(task_id, TaskStatus::Running);
        proof {
            let op0 = MemoryOp::Message { task_id, role: "user"@, body: body@ };
            let op1 = MemoryOp::Status { id: task_id, status: TaskStatus::Running };
            lemma_performed_push(m0, ops, m3, op0, m4);
            lemma_performed_push(m0, ops.push(op0), m4, op1, self.memory);
            assert(ops =~= read + task_ops(body@, cid, prior, created));
            assert(ops.push(op0).push(op1) =~= read + task_ops(body@, cid, prior, created)
                + seq![op0, op1]);
        }
        let r = (task_id, class, context);
        let ghost w = Opening { fact, history, reply, task: created };
        assert(Self::opened(pre, *self, *msg, w, r.0, r.1, r.2@));
        r
    }

    /// Records the end of a session.
    fn close_session(&mut self, task_id: TaskId, output: &str)
        ensures
            performed(old(self).memory, report_ops(task_id, output@), final(self).memory),
            *final(self) == (MiniCore { memory: final(self).memory, ..*old(self) }),
    {
        let ghost m0 = self.memory;
        let status = if text::starts_with(output, "error:") {
            TaskStatus::Failed
        } else {
            TaskStatus::Done
        };
        self.memory.update_task_status(task_id, status);
        let ghost m1 = self.memory;
        self.memory.append_message(task_id, "assistant", output);
        proof {
            let op0 = MemoryOp::Status { id: task_id, status };
            let op1 = MemoryOp::Message { task_id, role: "assistant"@, body: output@ };
            lemma_performed_push(m0, seq![], m0, op0, m1);
            lemma_performed_push(m0, seq![].push(op0), m1, op1, self.memory);
            assert(seq![].push(op0).push(op1) =~= report_ops(task_id, output@));
        }
    }

    /// What processing a message did when its session is not shadowed.
    pub open spec fn served(
        pre: Self,
        post: Self,
        msg: IncomingMessage,
        report: SessionReport,
        w: Opening,
        opened: Self,
        ran: Self,
        context: Seq<char>,
        trace: TraceModel,
    ) -> bool {
        &&& Self::opened(pre, opened, msg, w, report.task_id, report.class, context)
        &&& Self::session_ran(
            opened,
            ran,
            opened.executor_of(report.class),
            report.class,
            report.task_id,
            context,
            true,
            chars::opt_text(msg.subclass),
            trace,
        )
        &&& performed(ran.memory, report_ops(report.task_id, trace.output), post.memory)
        &&& post == (MiniCore { memory: post.memory, ..ran })
        &&& report.output@ == trace.output
        &&& report.steps == trace.steps
    }

    /// What processing a message did when its session has to be shadowed.
    pub open spec fn served_first(
        pre: Self,
        post: Self,
        msg: IncomingMessage,
        run: ShadowRun,
        w: Opening,
        opened: Self,
    ) -> bool {
        &&& Self::opened(pre, opened, msg, w, run.task_id, run.class, run.context@)
        &&& run.executor == opened.executor_of(run.class)
        &&& Self::session_ran(
            opened,
            post,
            run.executor,
            run.class,
            run.task_id,
            run.context@,
            true,
            chars::opt_text(msg.subclass),
            run.trace@,
        )
    }

    /// Processes a message. Where its session has to be shadowed, the other model
    /// is still to be run, and the end of the session to be recorded.
    pub fn process(&mut self, msg: &IncomingMessage) -> (r: ProcessStep)
        ensures
            if chars::trim(msg.text@) == "/new"@ {
                r matches ProcessStep::Finished(report) && report.class == MessageClass::MiniHow
                    && report.output@ == "New conversation started."@ && report.steps == 0 && (
                exists|task: Task|
                    #[trigger] performed(
                        old(self).memory,
                        restart_ops(chars::opt_text(msg.context_id), task),
                        final(self).memory,
                    ) && report.task_id == task.id) && *final(self) == (MiniCore {
                    memory: final(self).memory,
                    ..*old(self)
                })
            } else if old(self).shadows() {
                r matches ProcessStep::Shadow(run) && exists|w: Opening, opened: Self| #[trigger]
                    Self::served_first(*old(self), *final(self), *msg, run, w, opened)
            } else {
                r matches ProcessStep::Finished(report) && exists|
                    w: Opening,
                    opened: Self,
                    ran: Self,
                    context: Seq<char>,
                    trace: TraceModel,
                | #[trigger]
                    Self::served(
                        *old(self),
                        *final(self),
                        *msg,
                        report,
                        w,
                        opened,
                        ran,
                        context,
                        trace,
                    )
            },
            Self::only_talked(*old(self), *final(self)),
            old(self).advisor is Some ==> final(self).advisor is Some,
    {
        let ghost pre = *self;
        if text::same(text::trim(msg.text.as_str()), "/new") {
            return ProcessStep::Finished(self.restart(msg));
        }
        let (task_id, class, context) = self.open_message(msg);
        let ghost c1 = *self;
        let ghost w = choose|w: Opening| #[trigger]
            Self::opened(pre, c1, *msg, w, task_id, class, context@);
        let executor = self.choose_executor(class);
        let subclass = match &msg.subclass {
            Some(s) => Some(s.as_str()),
            None => None,
        };
        let trace = self.run_session_with_subclass(
            executor,
            class,
            task_id,
            context.as_str(),
            true,
            subclass,
        );
        let ghost c2 = *self;
        if self.should_shadow() {
            let run = ShadowRun { task_id, class, executor, context, trace };
            assert(Self::served_first(pre, *self, *msg, run, w, c1));
            return ProcessStep::Shadow(run);
        }
        self.close_session(task_id, trace.output.as_str());
        let ghost t = trace@;
        let report = SessionReport { task_id, class, output: trace.output, steps: trace.steps };
        assert(Self::served(pre, *self, *msg, report, w, c1, c2, context@, t));
        ProcessStep::Finished(report)
    }

    /// Records the end of a session that was shadowed.
    pub fn conclude(&mut self, run: ShadowRun) -> (r: SessionReport)
        ensures
            performed(
                old(self).memory,
                report_ops(run.task_id, run.trace.output@),
                final(self).memory,
            ),
            *final(self) == (MiniCore { memory: final(self).memory, ..*old(self) }),
            r.task_id == run.task_id,
            r.class == run.class,
            r.output@ == run.trace.output@,
            r.steps == run.trace.steps,
    {
        self.close_session(run.task_id, run.trace.output.as_str());
        SessionReport {
            task_id: run.task_id,
            class: run.class,
            output: run.trace.output,
            steps: run.trace.steps,
        }
    }

    /// What a shadow session did: the other model handles the same message,
    /// without a trace in memory.
    pub open spec fn shadowed(
        pre: Self,
        post: Self,
        run: ShadowRun,
        trace: TraceModel,
        r: Option<DivergenceRecord>,
    ) -> bool {
        let shadow = chars::trim(trace.output);
        let (primary, advisor) = match run.executor {
            AgentChoice::Primary => (run.trace.output@, shadow),
            AgentChoice::Advisor => (shadow, run.trace.output@),
        };
        &&& Self::session_ran(
            pre,
            post,
            other_of(run.executor),
            run.class,
            run.task_id,
            run.context@,
            false,
            None,
            trace,
        )
        &&& match r {
            None => shadow.len() == 0,
            Some(record) => {
                &&& shadow.len() > 0
                &&& record.class == run.class
                &&& record.served_by == run.executor
                &&& record.primary@ == primary
                &&& record.advisor@ == advisor
                &&& record.shared == shared_words(primary, advisor)
                &&& record.total == total_words(primary, advisor)
                &&& record.verdict == verdict_on(
                    shared_words(primary, advisor),
                    total_words(primary, advisor),
                )
            },
        }
    }

    /// Runs the other model on a message that was served, and compares.
    pub fn run_shadow(&mut self, run: &ShadowRun) -> (r: Option<DivergenceRecord>)
        ensures
            if old(self).advisor is None && run.executor == AgentChoice::Primary {
                r is None && *final(self) == *old(self)
            } else {
                exists|trace: TraceModel| #[trigger]
                    Self::shadowed(*old(self), *final(self), *run, trace, r)
            },
            Self::only_talked(*old(self), *final(self)),
            old(self).advisor is Some ==> final(self).advisor is Some,
    {
        let ghost pre = *self;
        let choice = match run.executor {
            AgentChoice::Primary => AgentChoice::Advisor,
            AgentChoice::Advisor => AgentChoice::Primary,
        };
        if choice == AgentChoice::Advisor && self.advisor.is_none() {
            return None;
        }
        let trace = self.run_session_with_subclass(
            choice,
            run.class,
            run.task_id,
            run.context.as_str(),
            false,
            None,
        );
        let shadow = text::trim(trace.output.as_str());
        if shadow.unicode_len() == 0 {
            assert(Self::shadowed(pre, *self, *run, trace@, None));
            return None;
        }
        let record = match run.executor {
            AgentChoice::Primary => advisor::compare(
                run.class,
                run.executor,
                run.trace.output.as_str(),
                shadow,
            ),
            AgentChoice::Advisor => advisor::compare(
                run.class,
                run.executor,
                shadow,
                run.trace.output.as_str(),
            ),
        };
        assert(Self::shadowed(pre, *self, *run, trace@, Some(record)));
        Some(record)
    }

    /// Runs one task to score a model on it, without a trace in memory.
    pub fn run_eval(
        &mut self,
        executor: AgentChoice,
        task: &str,
        subclass: Option<&str>,
    ) -> (r: SessionTrace)
        ensures
            Self::session_ran(
                *old(self),
                *final(self),
                old(self).effective(executor),
                MessageClass::MiniHow,
                TaskId(0),
                task@,
                false,
                opt_str(subclass),
                r@,
            ),
            Self::only_talked(*old(self), *final(self)),
            old(self).advisor is Some ==> final(self).advisor is Some,
    {
        let who = if self.advisor.is_none() {
            AgentChoice::Primary
        } else {
            executor
        };
        self.run_session_with_subclass(
            who,
            MessageClass::MiniHow,
            TaskId(0),
            task,
            false,
            subclass,
        )
    }
}

// ---------------------------------------------------------------------------
// Adjustments
// ---------------------------------------------------------------------------

/// What came of asking the advisor for an adjustment.
#[derive(Debug)]
pub enum Adjustment {
    /// There is no advisor, or it is not asked in this mode.
    Skipped,
    /// The reply holds no suggestion; its beginning for the log.
    Unparsed(String),
    NoChange,
    /// The class has collected as many rules as it may.
    RuleCap,
    Applied { directive: AdjustmentDirective, outcome: String },
    Proposed { directive: AdjustmentDirective, path: String },
}

/// The system prompt of the advisor as a coach.
pub open spec fn coach_system() -> Seq<char> {
    "You are minipaw's offline coach."@
}

/// A line that counts as a rule: it starts with a digit and holds a dot and a
/// space.
pub open spec fn counts_as_rule() -> spec_fn(Seq<char>) -> bool {
    |line: Seq<char>|
        {
            let t = chars::trim_start(line);
            t.len() > 0 && chars::is_digit(t[0]) && chars::contains(t, ". "@)
        }
}

/// How many rules a prompt holds.
pub open spec fn rule_count(s: Seq<char>) -> nat {
    chars::lines(s).filter(counts_as_rule()).len()
}

/// The variables of the adjustment template.
pub open spec fn meta_vars(
    class: MessageClass,
    subclass: Seq<char>,
    task: Seq<char>,
    primary_output: Seq<char>,
    advisor_output: Seq<char>,
    current_prompt: Seq<char>,
    available_skills: Seq<char>,
    prior_attempts: Seq<char>,
    rubric: Seq<char>,
) -> Seq<Row> {
    seq![
        ("class"@, class.name()),
        ("subclass"@, subclass),
        ("task"@, task),
        ("primary_output"@, primary_output),
        ("advisor_output"@, advisor_output),
        ("current_prompt"@, current_prompt),
        ("available_skills"@, available_skills),
        ("prior_attempts"@, prior_attempts),
        ("rubric"@, rubric),
    ]
}

/// The request for a suggestion, and the reply.
pub open spec fn coach_call(meta: Seq<char>, reply: Seq<char>) -> ChatCall {
    ChatCall { system: coach_system(), messages: seq![Turn::user(meta)], reply }
}

/// At most `max` bytes of a text for the log, with its line breaks marked.
pub open spec fn log_text(s: Seq<char>, max: nat) -> Seq<char> {
    if chars::byte_len(s) <= max {
        chars::replace_char(s, '\n', "↵"@)
    } else {
        chars::replace_char(chars::prefix_within(s, max), '\n', "↵"@) + "…"@
    }
}

pub fn cap(s: &str, max_bytes: usize) -> (r: String)
    ensures
        r@ == log_text(s@, max_bytes as nat),
{
    if text::byte_len(s) <= max_bytes {
        return text::replace_char(s, '\n', "↵");
    }
    let mut out = text::replace_char(text::prefix_within(s, max_bytes), '\n', "↵");
    out.append("…");
    out
}

fn count_rules(s: &str) -> (r: usize)
    ensures
        r == rule_count(s@),
{
    let lines = text::lines(s);
    let ghost all = chars::texts(lines@);
    let mut n: usize = 0;
    let mut i: usize = 0;
    proof {
        reveal(Seq::filter);
        assert(all.take(0) =~= Seq::empty());
    }
    while i < lines.len()
        invariant
            n <= i <= lines.len(),
            all == chars::texts(lines@),
            n == all.take(i as int).filter(counts_as_rule()).len(),
        decreases lines.len() - i,
    {
        proof {
            reveal(Seq::filter);
            assert(all.take(i + 1).drop_last() =~= all.take(i as int));
        }
        let t = text::trim_start(lines[i]);
        let starts = t.unicode_len() > 0 && {
            let c = t.get_char(0);
            '0' <= c && c <= '9'
        };
        if starts && text::contains(t, ". ") {
            n += 1;
        }
        i += 1;
    }
    assert(all.take(i as int) =~= all);
    n
}

/// What a confirmed adjustment leaves in memory.
pub open spec fn adjustment_ops(task_id: TaskId, a: Adjustment) -> Seq<MemoryOp> {
    match a {
        Adjustment::Applied { directive, outcome } => seq![
            MemoryOp::Message {
                task_id,
                role: "advisor-adjust"@,
                body: "[advisor adjust applied] "@ + directive@.summary_text(),
            },
        ],
        Adjustment::Proposed { directive, path } => seq![
            MemoryOp::Message {
                task_id,
                role: "advisor-adjust"@,
                body: "[advisor proposal] "@ + directive@.summary_text() + " → "@ + path@,
            },
        ],
        _ => seq![],
    }
}

/// The adjustment adds a skill.
pub open spec fn adds_skill(a: Adjustment) -> bool {
    match a {
        Adjustment::Applied { directive, outcome } => directive@ is SkillNew,
        _ => false,
    }
}

impl<M: MemoryStore, L: LlmClient, A: AgentHandler> MiniCore<M, L, A> {
    /// What the advisor is asked after the models have diverged.
    pub open spec fn divergence_meta(
        self,
        context: Seq<char>,
        class: MessageClass,
        primary_output: Seq<char>,
        advisor_output: Seq<char>,
    ) -> Seq<char> {
        substituted(
            self.prompts@.adjust_meta(),
            meta_vars(
                class,
                "(not used in legacy advisor mode)"@,
                context,
                primary_output,
                advisor_output,
                self.prompts@.class_text(class),
                skill_index(self.skills@),
                "(not used in legacy advisor mode)"@,
                "(not used in legacy advisor mode — train command provides rubric)"@,
            ),
        )
    }

    /// What a reply of the advisor leads to: in training the suggestion is applied,
    /// in trial it is kept as a proposal, and a class that is full takes no more
    /// rules.
    pub open spec fn adjusted(
        pre: Self,
        post: Self,
        task_id: TaskId,
        class: MessageClass,
        reply: Seq<char>,
        a: Adjustment,
    ) -> bool {
        let same = post.prompts@ == pre.prompts@;
        match directive_of(class, reply) {
            None => same && (a matches Adjustment::Unparsed(t) && t@ == log_text(reply, 160)),
            Some(d) => if d is NoChange {
                same && a is NoChange
            } else if d is RuleAppend && rule_count(pre.prompts@.class_text(class))
                >= MAX_RULE_APPENDS_PER_CLASS {
                same && a is RuleCap
            } else if pre.advisor_mode == AdvisorMode::Training {
                &&& post.prompts@ == applied(pre.prompts@, d, None)
                &&& a matches Adjustment::Applied { directive, outcome } && directive@ == d
                    && outcome@ == applied_text(pre.prompts@, d, None)
            } else {
                a matches Adjustment::Proposed { directive, path } && directive@ == d && exists|
                    now: u64,
                |
                    {
                        &&& post.prompts@ == #[trigger] proposed(
                            pre.prompts@,
                            task_id,
                            now as nat,
                            d,
                        )
                        &&& path@ == proposal_path(pre.prompts@, task_id, now as nat, d)
                    }
            },
        }
    }

    /// Asks the advisor for an adjustment after the models have diverged, and
    /// applies or keeps it in the workspace.
    pub fn run_adjustment(
        &mut self,
        task_id: TaskId,
        context: &str,
        class: MessageClass,
        primary_output: &str,
        advisor_output: &str,
    ) -> (r: Adjustment)
        ensures
            if old(self).advisor is None || old(self).advisor_mode == AdvisorMode::Work {
                r is Skipped && *final(self) == *old(self)
            } else {
                exists|reply: Seq<char>|
                    {
                        &&& Self::talked(
                            *old(self),
                            *final(self),
                            AgentChoice::Advisor,
                            seq![
                                coach_call(
                                    old(self).divergence_meta(
                                        context@,
                                        class,
                                        primary_output@,
                                        advisor_output@,
                                    ),
                                    reply,
                                ),
                            ],
                        )
                        &&& #[trigger] Self::adjusted(
                            *old(self),
                            *final(self),
                            task_id,
                            class,
                            reply,
                            r,
                        )
                    }
            },
            final(self).memory == old(self).memory,
            final(self).skills == old(self).skills,
            final(self).agents == old(self).agents,
            final(self).advisor_mode == old(self).advisor_mode,
            final(self).routing == old(self).routing,
            final(self).tools == old(self).tools,
            final(self).os_info == old(self).os_info,
            final(self).max_steps == old(self).max_steps,
            final(self).log == old(self).log,
            old(self).prompts.wf() ==> final(self).prompts.wf(),
    {
        let ghost pre = *self;
        if self.advisor.is_none() || self.advisor_mode == AdvisorMode::Work {
            return Adjustment::Skipped;
        }
        let current = self.prompts.read_class(class);
        let index = self.skills.index_text();
        let vars: [(&str, &str); 9] = [
            ("class", class.label()),
            ("subclass", "(not used in legacy advisor mode)"),
            ("task", context),
            ("primary_output", primary_output),
            ("advisor_output", advisor_output),
            ("current_prompt", current.as_str()),
            ("available_skills", index.as_str()),
            ("prior_attempts", "(not used in legacy advisor mode)"),
            ("rubric", "(not used in legacy advisor mode — train command provides rubric)"),
        ];
        assert(bindings(vars@) =~= meta_vars(
            class,
            "(not used in legacy advisor mode)"@,
            context@,
            primary_output@,
            advisor_output@,
            current@,
            index@,
            "(not used in legacy advisor mode)"@,
            "(not used in legacy advisor mode — train command provides rubric)"@,
        ));
        let meta = self.prompts.render_adjust_meta(vars.as_slice());
        let mut messages: Vec<ChatMessage> = Vec::new();
        messages.push(ChatMessage::user(meta.as_str()));
        assert(turns(messages@) =~= seq![Turn::user(meta@)]);
        let reply = self.ask(
            AgentChoice::Advisor,
            "You are minipaw's offline coach.",
            messages.as_slice(),
        );
        let directive = match adjustments::parse_directive(class, reply.as_str()) {
            Some(d) => d,
            None => {
                let r = Adjustment::Unparsed(cap(reply.as_str(), 160));
                assert(Self::adjusted(pre, *self, task_id, class, reply@, r));
                return r;
            },
        };
        match &directive {
            AdjustmentDirective::NoChange => {
                let r = Adjustment::NoChange;
                assert(Self::adjusted(pre, *self, task_id, class, reply@, r));
                return r;
            },
            AdjustmentDirective::RuleAppend { class: at, rule: _ } => {
                proof {
                    adjustments::lemma_directive_class(class, reply@);
                }
                let existing = self.prompts.read_class(*at);
                if count_rules(existing.as_str()) >= MAX_RULE_APPENDS_PER_CLASS {
                    let r = Adjustment::RuleCap;
                    assert(Self::adjusted(pre, *self, task_id, class, reply@, r));
                    return r;
                }
            },
            AdjustmentDirective::SkillNew { name: _, description: _, command: _ } => {},
        }
        if self.advisor_mode == AdvisorMode::Training {
            let outcome = adjustments::apply_training(&mut self.prompts, &directive, None);
            let r = Adjustment::Applied { directive, outcome };
            assert(Self::adjusted(pre, *self, task_id, class, reply@, r));
            r
        } else {
            let path = adjustments::write_proposal(&mut self.prompts, task_id, &directive);
            let r = Adjustment::Proposed { directive, path };
            assert(Self::adjusted(pre, *self, task_id, class, reply@, r));
            r
        }
    }

    /// Records an adjustment once its files are written. A new skill is taken up.
    pub fn confirm_adjustment(&mut self, task_id: TaskId, adjustment: &Adjustment)
        ensures
            performed(
                old(self).memory,
                adjustment_ops(task_id, *adjustment),
                final(self).memory,
            ),
            final(self).skills@ == (if adds_skill(*adjustment) {
                skills_in(old(self).prompts@.skills)
            } else {
                old(self).skills@
            }),
            *final(self) == (MiniCore {
                memory: final(self).memory,
                skills: final(self).skills,
                ..*old(self)
            }),
    {
        let ghost m0 = self.memory;
        match adjustment {
            Adjustment::Applied { directive, outcome: _ } => {
                let body = "[advisor adjust applied] ".to_owned().concat(
                    directive.summary().as_str(),
                );
                self.memory.append_message(task_id, "advisor-adjust", body.as_str());
                proof {
                    let op = MemoryOp::Message { task_id, role: "advisor-adjust"@, body: body@ };
                    lemma_performed_push(m0, seq![], m0, op, self.memory);
                    assert(seq![].push(op) =~= adjustment_ops(task_id, *adjustment));
                }
                match directive {
                    AdjustmentDirective::SkillNew { name: _, description: _, command: _ } => {
                        self.reload_skills();
                    },
                    _ => {},
                }
            },
            Adjustment::Proposed { directive, path } => {
                let mut body = "[advisor proposal] ".to_owned();
                body.append(directive.summary().as_str());
                body.append(" → ");
                body.append(path.as_str());
                self.memory.append_message(task_id, "advisor-adjust", body.as_str());
                proof {
                    let op = MemoryOp::Message { task_id, role: "advisor-adjust"@, body: body@ };
                    lemma_performed_push(m0, seq![], m0, op, self.memory);
                    assert(seq![].push(op) =~= adjustment_ops(task_id, *adjustment));
                }
            },
            _ => {},
        }
    }

    /// Records how two answers compare, and asks for an adjustment where they
    /// diverge. `similarity` is the similarity as a decimal.
    pub fn settle(
        &mut self,
        task_id: TaskId,
        context: &str,
        record: &DivergenceRecord,
        similarity: &str,
    ) -> (r: Adjustment)
        ensures
            M::message_added(
                old(self).memory,
                final(self).memory,
                task_id,
                "advisor-shadow"@,
                comparison_text(*record, similarity@),
            ),
            if record.verdict != DivergenceVerdict::Divergent || old(self).advisor is None || old(
                self).advisor_mode == AdvisorMode::Work {
                r is Skipped && *final(self) == (MiniCore {
                    memory: final(self).memory,
                    ..*old(self)
                })
            } else {
                exists|reply: Seq<char>|
                    {
                        &&& Self::talked(
                            *old(self),
                            *final(self),
                            AgentChoice::Advisor,
                            seq![
                                coach_call(
                                    old(self).divergence_meta(
                                        context@,
                                        record.class,
                                        record.primary@,
                                        record.advisor@,
                                    ),
                                    reply,
                                ),
                            ],
                        )
                        &&& #[trigger] Self::adjusted(
                            *old(self),
                            *final(self),
                            task_id,
                            record.class,
                            reply,
                            r,
                        )
                    }
            },
            final(self).skills == old(self).skills,
            final(self).agents == old(self).agents,
            final(self).advisor_mode == old(self).advisor_mode,
            final(self).routing == old(self).routing,
            final(self).tools == old(self).tools,
            final(self).os_info == old(self).os_info,
            final(self).max_steps == old(self).max_steps,
            final(self).log == old(self).log,
            old(self).prompts.wf() ==> final(self).prompts.wf(),
    {
        let ghost pre = *self;
        let body = record.render(similarity);
        self.memory.append_message(task_id, "advisor-shadow", body.as_str());
        let ghost mid = *self;
        if record.verdict != DivergenceVerdict::Divergent {
            return Adjustment::Skipped;
        }
        let r = self.run_adjustment(
            task_id,
            context,
            record.class,
            record.primary.as_str(),
            record.advisor.as_str(),
        );
        proof {
            if !(pre.advisor is None || pre.advisor_mode == AdvisorMode::Work) {
                let reply = choose|reply: Seq<char>|
                    {
                        &&& Self::talked(
                            mid,
                            *self,
                            AgentChoice::Advisor,
                            seq![
                                coach_call(
                                    mid.divergence_meta(
                                        context@,
                                        record.class,
                                        record.primary@,
                                        record.advisor@,
                                    ),
                                    reply,
                                ),
                            ],
                        )
                        &&& #[trigger] Self::adjusted(
                            mid,
                            *self,
                            task_id,
                            record.class,
                            reply,
                            r,
                        )
                    };
                assert(Self::adjusted(pre, *self, task_id, record.class, reply, r));
            }
        }
        r
    }

    /// The prompt of a class with the rules of a subclass behind it.
    pub open spec fn layered_prompt(self, class: MessageClass, subclass: Seq<char>) -> Seq<char> {
        match self.prompts@.overlay(class, subclass) {
            Some(overlay) => self.prompts@.class_text(class) + "\n\n[per-subclass overlay "@
                + subclass + "]\n"@ + overlay,
            None => self.prompts@.class_text(class),
        }
    }

    /// What the advisor is asked in training.
    pub open spec fn training_meta(
        self,
        case_task: Seq<char>,
        primary_output: Seq<char>,
        advisor_output: Seq<char>,
        class: MessageClass,
        subclass: Seq<char>,
        prior_attempts: Seq<char>,
        rubric: Seq<char>,
    ) -> Seq<char> {
        substituted(
            self.prompts@.adjust_meta(),
            meta_vars(
                class,
                subclass,
                case_task,
                primary_output,
                advisor_output,
                self.layered_prompt(class, subclass),
                skill_index(self.skills@),
                prior_attempts,
                rubric,
            ),
        )
    }

    /// Asks the advisor for one suggestion in training. None where there is no
    /// advisor or its reply holds no suggestion.
    pub fn ask_directive(
        &mut self,
        case_task: &str,
        primary_output: &str,
        advisor_output: &str,
        class: MessageClass,
        subclass: &str,
        prior_attempts: &str,
        rubric: &str,
    ) -> (r: Option<AdjustmentDirective>)
        ensures
            if old(self).advisor is None {
                r is None && *final(self) == *old(self)
            } else {
                exists|reply: Seq<char>|
                    {
                        &&& Self::talked(
                            *old(self),
                            *final(self),
                            AgentChoice::Advisor,
                            seq![
                                coach_call(
                                    old(self).training_meta(
                                        case_task@,
                                        primary_output@,
                                        advisor_output@,
                                        class,
                                        subclass@,
                                        prior_attempts@,
                                        rubric@,
                                    ),
                                    reply,
                                ),
                            ],
                        )
                        &&& adjustments::opt_directive(r) == #[trigger] directive_of(class, reply)
                    }
            },
            Self::only_talked(*old(self), *final(self)),
            final(self).memory == old(self).memory,
            final(self).log == old(self).log,
            old(self).advisor is Some ==> final(self).advisor is Some,
    {
        if self.advisor.is_none() {
            return None;
        }
        let mut current = self.prompts.read_class(class);
        match self.prompts.read_subclass(class, subclass) {
            Some(overlay) => {
                current.append("\n\n[per-subclass overlay ");
                current.append(subclass);
                current.append("]\n");
                current.append(overlay.as_str());
            },
            None => {},
        }
        let index = self.skills.index_text();
        let vars: [(&str, &str); 9] = [
            ("class", class.label()),
            ("subclass", subclass),
            ("task", case_task),
            ("primary_output", primary_output),
            ("advisor_output", advisor_output),
            ("current_prompt", current.as_str()),
            ("available_skills", index.as_str()),
            ("prior_attempts", prior_attempts),
            ("rubric", rubric),
        ];
        assert(bindings(vars@) =~= meta_vars(
            class,
            subclass@,
            case_task@,
            primary_output@,
            advisor_output@,
            current@,
            index@,
            prior_attempts@,
            rubric@,
        ));
        let meta = self.prompts.render_adjust_meta(vars.as_slice());
        let mut messages: Vec<ChatMessage> = Vec::new();
        messages.push(ChatMessage::user(meta.as_str()));
        assert(turns(messages@) =~= seq![Turn::user(meta@)]);
        let reply = self.ask(
            AgentChoice::Advisor,
            "You are minipaw's offline coach.",
            messages.as_slice(),
        );
        adjustments::parse_directive(class, reply.as_str())
    }
}

// ---------------------------------------------------------------------------
// Laws
// ---------------------------------------------------------------------------

proof fn lemma_searches_read_only<M: MemoryStore>(
    pre: M,
    id: TaskId,
    replies: Seq<Seq<char>>,
    recalls: Seq<ProgressiveModel>,
    n: nat,
    post: M,
)
    requires
        performed(pre, why_ops(id, replies, recalls, false, n), post),
    ensures
        post == pre,
    decreases n,
{
    if n > 0 {
        let ops = why_ops(id, replies, recalls, false, n);
        let before = why_ops(id, replies, recalls, false, (n - 1) as nat);
        assert(ops.drop_last() =~= before);
        let mid = choose|mid: M|
            performed(pre, ops.drop_last(), mid) && #[trigger] performs(mid, ops.last(), post);
        lemma_searches_read_only(pre, id, replies, recalls, (n - 1) as nat, mid);
    }
}

impl<M: MemoryStore, L: LlmClient, A: AgentHandler> MiniCore<M, L, A> {
    /// A session that is not recorded, such as a shadow's or an evaluation's,
    /// leaves the memory as it was, whatever the model replies.
    pub proof fn law_unrecorded_sessions_leave_memory_alone(
        pre: Self,
        post: Self,
        who: AgentChoice,
        class: MessageClass,
        task_id: TaskId,
        context: Seq<char>,
        subclass: Option<Seq<char>>,
        trace: TraceModel,
    )
        requires
            Self::session_ran(pre, post, who, class, task_id, context, false, subclass, trace),
        ensures
            post.memory == pre.memory,
    {
        match class {
            MessageClass::MiniHow => {
                let replies = choose|replies: Seq<Seq<char>>| #[trigger]
                    Self::how_ran(
                        pre,
                        post,
                        who,
                        task_id,
                        context,
                        false,
                        subclass,
                        replies,
                        trace,
                    );
            },
            MessageClass::MiniWhy => {
                let (replies, recalls) = choose|
                    replies: Seq<Seq<char>>,
                    recalls: Seq<ProgressiveModel>,
                | #[trigger]
                    Self::why_ran(
                        pre,
                        post,
                        who,
                        task_id,
                        context,
                        false,
                        replies,
                        recalls,
                        trace,
                    );
                let ops = why_ops(task_id, replies, recalls, false, recalls.len());
                assert(ops + Seq::<MemoryOp>::empty() =~= ops);
                lemma_searches_read_only(
                    pre.memory,
                    task_id,
                    replies,
                    recalls,
                    recalls.len(),
                    post.memory,
                );
            },
            MessageClass::MiniWhat => {
                let (memory, reply) = choose|memory: ProgressiveModel, reply: Seq<char>| #[trigger]
                    Self::what_ran(
                        pre,
                        post,
                        who,
                        task_id,
                        context,
                        false,
                        memory,
                        reply,
                        trace,
                    );
                let op = recall_of(context, memory);
                let ops = seq![op] + Seq::<MemoryOp>::empty();
                assert(ops =~= seq![op]);
                assert(ops.drop_last() =~= seq![]);
                let mid = choose|mid: M|
                    performed(pre.memory, ops.drop_last(), mid) && #[trigger] performs(
                        mid,
                        ops.last(),
                        post.memory,
                    );
                assert(mid == pre.memory);
            },
        }
    }

    /// A session takes no more steps than allowed, and no fewer than one where
    /// any are.
    pub proof fn law_sessions_keep_step_limit(
        pre: Self,
        post: Self,
        who: AgentChoice,
        class: MessageClass,
        task_id: TaskId,
        context: Seq<char>,
        record: bool,
        subclass: Option<Seq<char>>,
        trace: TraceModel,
    )
        requires
            Self::session_ran(pre, post, who, class, task_id, context, record, subclass, trace),
            pre.max_steps > 0,
        ensures
            1 <= trace.steps <= pre.max_steps,
    {
    }

    /// Without an advisor the primary serves every class and nothing is shadowed;
    /// in training the advisor serves every class; in work nothing is shadowed.
    pub proof fn law_routing_by_mode(self, class: MessageClass)
        ensures
            self.advisor is None ==> self.executor_of(class) == AgentChoice::Primary
                && !self.shadows(),
            self.advisor is Some && self.advisor_mode == AdvisorMode::Training
                ==> self.executor_of(class) == AgentChoice::Advisor && self.shadows(),
            self.advisor_mode == AdvisorMode::Work ==> !self.shadows(),
            self.has(self.executor_of(class)),
    {
    }
}

/// A new conversation forgets the task of the old one.
pub proof fn law_restart_forgets_conversation(
    pre: InMemoryStore,
    post: InMemoryStore,
    cid: Seq<char>,
    task: Task,
    answer: Option<Seq<char>>,
)
    requires
        pre.wf(),
        performed(pre, restart_ops(Some(cid), task), post),
        <InMemoryStore as MemoryStore>::fact_found(post, context_key(cid), answer),
    ensures
        prior_task(Some(cid), answer) is None,
{
    let ops = restart_ops(Some(cid), task);
    assert(ops.len() == 5);
    let m4 = choose|mid: InMemoryStore|
        performed(pre, ops.drop_last(), mid) && #[trigger] performs(mid, ops.last(), post);
    let o4 = ops.drop_last();
    let m3 = choose|mid: InMemoryStore|
        performed(pre, o4.drop_last(), mid) && #[trigger] performs(mid, o4.last(), m4);
    let o3 = o4.drop_last();
    let m2 = choose|mid: InMemoryStore|
        performed(pre, o3.drop_last(), mid) && #[trigger] performs(mid, o3.last(), m3);
    let o2 = o3.drop_last();
    let m1 = choose|mid: InMemoryStore|
        performed(pre, o2.drop_last(), mid) && #[trigger] performs(mid, o2.last(), m2);
    let o1 = o2.drop_last();
    let m0 = choose|mid: InMemoryStore|
        performed(pre, o1.drop_last(), mid) && #[trigger] performs(mid, o1.last(), m1);
    assert(m0 == pre);
    assert(o1.last() == MemoryOp::DeleteFact { key: context_key(cid) });
    table::law_without_then_lookup(pre@.facts, context_key(cid), context_key(cid));
    assert(post@.facts == m1@.facts);
}

/// A conversation that was given a task goes on with that task.
pub proof fn law_conversation_goes_on(
    pre: InMemoryStore,
    post: InMemoryStore,
    cid: Seq<char>,
    body: Seq<char>,
    task: Task,
    answer: Option<Seq<char>>,
)
    requires
        pre.wf(),
        performed(pre, task_ops(body, Some(cid), None, task), post),
        <InMemoryStore as MemoryStore>::fact_found(post, context_key(cid), answer),
    ensures
        prior_task(Some(cid), answer) == Some(task.id),
{
    let ops = task_ops(body, Some(cid), None, task);
    let m1 = choose|mid: InMemoryStore|
        performed(pre, ops.drop_last(), mid) && #[trigger] performs(mid, ops.last(), post);
    let o1 = ops.drop_last();
    let m0 = choose|mid: InMemoryStore|
        performed(pre, o1.drop_last(), mid) && #[trigger] performs(mid, o1.last(), m1);
    assert(m0 == pre);
    let value = numbers::decimal(task.id.0 as nat);
    table::law_put_then_lookup(m1@.facts, context_key(cid), value, context_key(cid));
    numbers::law_decimal_round_trip(task.id.0 as nat, u64::MAX as nat);
}

}
