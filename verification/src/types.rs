//! Identifiers, states and plans shared by all modules, with the text form of
//! each enumeration.
use std::time::SystemTime;

use vstd::prelude::*;

use crate::chars;
use crate::numbers;
use crate::text;

verus! {

#[derive(Debug, Clone, Copy, PartialEq, Eq, Hash, PartialOrd, Ord, Structural)]
pub struct TaskId(pub u64);

impl TaskId {
    /// `t` and the number.
    pub open spec fn name(self) -> Seq<char> {
        "t"@ + numbers::decimal(self.0 as nat)
    }

    pub fn label(&self) -> (r: String)
        ensures
            r@ == self.name(),
    {
        "t".to_owned().concat(numbers::decimal_of(self.0).as_str())
    }
}

#[derive(Debug, Clone, Copy, PartialEq, Eq, Hash, PartialOrd, Ord, Structural)]
pub struct WorkerId(pub u8);

impl WorkerId {
    /// `w` and the number.
    pub open spec fn name(self) -> Seq<char> {
        "w"@ + numbers::decimal(self.0 as nat)
    }

    pub fn label(&self) -> (r: String)
        ensures
            r@ == self.name(),
    {
        "w".to_owned().concat(numbers::decimal_of(self.0 as u64).as_str())
    }
}

#[derive(Debug, Clone, Copy, PartialEq, Eq, Structural)]
pub enum TaskStatus {
    New,
    Running,
    Waiting,
    Done,
    Failed,
}

impl TaskStatus {
    pub open spec fn name(self) -> Seq<char> {
        match self {
            TaskStatus::New => "new"@,
            TaskStatus::Running => "running"@,
            TaskStatus::Waiting => "waiting"@,
            TaskStatus::Done => "done"@,
            TaskStatus::Failed => "failed"@,
        }
    }

    pub fn label(&self) -> (r: &'static str)
        ensures
            r@ == self.name(),
    {
        match self {
            TaskStatus::New => "new",
            TaskStatus::Running => "running",
            TaskStatus::Waiting => "waiting",
            TaskStatus::Done => "done",
            TaskStatus::Failed => "failed",
        }
    }
}

#[derive(Debug)]
pub struct Task {
    pub id: TaskId,
    pub title: String,
    pub status: TaskStatus,
    pub created_at: u64,
    pub updated_at: u64,
}

/// The contents of a task.
pub ghost struct TaskModel {
    pub id: TaskId,
    pub title: Seq<char>,
    pub status: TaskStatus,
    pub created_at: u64,
    pub updated_at: u64,
}

impl View for Task {
    type V = TaskModel;

    open spec fn view(&self) -> TaskModel {
        TaskModel {
            id: self.id,
            title: self.title@,
            status: self.status,
            created_at: self.created_at,
            updated_at: self.updated_at,
        }
    }
}

impl Clone for Task {
    fn clone(&self) -> (r: Self)
        ensures
            r == *self,
    {
        Task {
            id: self.id,
            title: self.title.clone(),
            status: self.status,
            created_at: self.created_at,
            updated_at: self.updated_at,
        }
    }
}

#[derive(Debug, Clone, Copy, PartialEq, Eq, PartialOrd, Ord, Structural)]
pub enum MessageClass {
    MiniHow,
    MiniWhy,
    MiniWhat,
}

impl MessageClass {
    pub open spec fn name(self) -> Seq<char> {
        match self {
            MessageClass::MiniHow => "minihow"@,
            MessageClass::MiniWhy => "miniwhy"@,
            MessageClass::MiniWhat => "miniwhat"@,
        }
    }

    /// The class that a text names, up to case and surrounding white space.
    pub open spec fn named(value: Seq<char>) -> Option<MessageClass> {
        let v = chars::lower(chars::trim(value));
        if v == "minihow"@ || v == "how"@ {
            Some(MessageClass::MiniHow)
        } else if v == "miniwhy"@ || v == "why"@ {
            Some(MessageClass::MiniWhy)
        } else if v == "miniwhat"@ || v == "what"@ {
            Some(MessageClass::MiniWhat)
        } else {
            None
        }
    }

    pub fn label(&self) -> (r: &'static str)
        ensures
            r@ == self.name(),
    {
        match self {
            MessageClass::MiniHow => "minihow",
            MessageClass::MiniWhy => "miniwhy",
            MessageClass::MiniWhat => "miniwhat",
        }
    }

    pub fn parse(value: &str) -> (r: Option<MessageClass>)
        ensures
            r == MessageClass::named(value@),
    {
        let lowered = text::lower(text::trim(value));
        let v = lowered.as_str();
        if text::same(v, "minihow") || text::same(v, "how") {
            Some(MessageClass::MiniHow)
        } else if text::same(v, "miniwhy") || text::same(v, "why") {
            Some(MessageClass::MiniWhy)
        } else if text::same(v, "miniwhat") || text::same(v, "what") {
            Some(MessageClass::MiniWhat)
        } else {
            None
        }
    }
}

/// Advisor lifecycle stage: whether the local primary model, the remote advisor
/// model, or both are exercised on each request.
#[derive(Debug, Clone, Copy, PartialEq, Eq, Structural)]
pub enum AdvisorMode {
    /// Every request goes to both models; the advisor's answer is authoritative.
    Training,
    /// Requests are routed per message class, and the other model is shadowed
    /// for divergence data.
    Trial,
    /// Requests are routed per message class, without shadowing.
    Work,
}

impl AdvisorMode {
    pub open spec fn name(self) -> Seq<char> {
        match self {
            AdvisorMode::Training => "training"@,
            AdvisorMode::Trial => "trial"@,
            AdvisorMode::Work => "work"@,
        }
    }

    /// The mode that a text names, up to case and surrounding white space.
    pub open spec fn named(value: Seq<char>) -> Option<AdvisorMode> {
        let v = chars::lower(chars::trim(value));
        if v == "training"@ || v == "train"@ {
            Some(AdvisorMode::Training)
        } else if v == "trial"@ {
            Some(AdvisorMode::Trial)
        } else if v == "work"@ || v == "working"@ {
            Some(AdvisorMode::Work)
        } else {
            None
        }
    }

    pub fn label(&self) -> (r: &'static str)
        ensures
            r@ == self.name(),
    {
        match self {
            AdvisorMode::Training => "training",
            AdvisorMode::Trial => "trial",
            AdvisorMode::Work => "work",
        }
    }

    pub fn parse(value: &str) -> (r: Option<AdvisorMode>)
        ensures
            r == AdvisorMode::named(value@),
    {
        let lowered = text::lower(text::trim(value));
        let v = lowered.as_str();
        if text::same(v, "training") || text::same(v, "train") {
            Some(AdvisorMode::Training)
        } else if text::same(v, "trial") {
            Some(AdvisorMode::Trial)
        } else if text::same(v, "work") || text::same(v, "working") {
            Some(AdvisorMode::Work)
        } else {
            None
        }
    }
}

/// Which configured model answers a request.
#[derive(Debug, Clone, Copy, PartialEq, Eq, Structural)]
pub enum AgentChoice {
    Primary,
    Advisor,
}

impl AgentChoice {
    pub open spec fn name(self) -> Seq<char> {
        match self {
            AgentChoice::Primary => "primary"@,
            AgentChoice::Advisor => "advisor"@,
        }
    }

    /// The choice that a text names, up to case and surrounding white space.
    pub open spec fn named(value: Seq<char>) -> Option<AgentChoice> {
        let v = chars::lower(chars::trim(value));
        if v == "primary"@ || v == "small"@ || v == "local"@ {
            Some(AgentChoice::Primary)
        } else if v == "advisor"@ || v == "large"@ || v == "remote"@ {
            Some(AgentChoice::Advisor)
        } else {
            None
        }
    }

    pub fn label(&self) -> (r: &'static str)
        ensures
            r@ == self.name(),
    {
        match self {
            AgentChoice::Primary => "primary",
            AgentChoice::Advisor => "advisor",
        }
    }

    pub fn parse(value: &str) -> (r: Option<AgentChoice>)
        ensures
            r == AgentChoice::named(value@),
    {
        let lowered = text::lower(text::trim(value));
        let v = lowered.as_str();
        if text::same(v, "primary") || text::same(v, "small") || text::same(v, "local") {
            Some(AgentChoice::Primary)
        } else if text::same(v, "advisor") || text::same(v, "large") || text::same(v, "remote") {
            Some(AgentChoice::Advisor)
        } else {
            None
        }
    }
}

#[derive(Debug, Clone, Copy, PartialEq, Eq, Structural)]
pub enum AgentPattern {
    Direct,
    CoordinatorWorker,
    HubAndSpoke,
    Pipeline,
    MapReduce,
}

impl AgentPattern {
    pub open spec fn name(self) -> Seq<char> {
        match self {
            AgentPattern::Direct => "direct"@,
            AgentPattern::CoordinatorWorker => "coordinator-worker"@,
            AgentPattern::HubAndSpoke => "hub-and-spoke"@,
            AgentPattern::Pipeline => "pipeline"@,
            AgentPattern::MapReduce => "map-reduce"@,
        }
    }

    pub fn label(&self) -> (r: &'static str)
        ensures
            r@ == self.name(),
    {
        match self {
            AgentPattern::Direct => "direct",
            AgentPattern::CoordinatorWorker => "coordinator-worker",
            AgentPattern::HubAndSpoke => "hub-and-spoke",
            AgentPattern::Pipeline => "pipeline",
            AgentPattern::MapReduce => "map-reduce",
        }
    }
}

#[derive(Debug, PartialEq, Eq)]
pub enum PlanStepKind {
    Answer(String),
    ReadFile(String),
    ListDir(String),
    Exec { program: String, args: Vec<String> },
}

/// What a plan step does, with its texts as sequences.
pub ghost enum StepModel {
    Answer(Seq<char>),
    ReadFile(Seq<char>),
    ListDir(Seq<char>),
    Exec { program: Seq<char>, args: Seq<Seq<char>> },
}

impl View for PlanStepKind {
    type V = StepModel;

    open spec fn view(&self) -> StepModel {
        match self {
            PlanStepKind::Answer(t) => StepModel::Answer(t@),
            PlanStepKind::ReadFile(t) => StepModel::ReadFile(t@),
            PlanStepKind::ListDir(t) => StepModel::ListDir(t@),
            PlanStepKind::Exec { program, args } => StepModel::Exec {
                program: program@,
                args: chars::owned_texts(args@),
            },
        }
    }
}

impl Clone for PlanStepKind {
    fn clone(&self) -> (r: Self)
        ensures
            r@ == self@,
    {
        match self {
            PlanStepKind::Answer(t) => PlanStepKind::Answer(t.clone()),
            PlanStepKind::ReadFile(t) => PlanStepKind::ReadFile(t.clone()),
            PlanStepKind::ListDir(t) => PlanStepKind::ListDir(t.clone()),
            PlanStepKind::Exec { program, args } => PlanStepKind::Exec {
                program: program.clone(),
                args: text::copy_all(args),
            },
        }
    }
}

#[derive(Debug, Clone, Copy, PartialEq, Eq, Structural)]
pub enum StepStatus {
    Pending,
    Done,
    Denied,
    Failed,
}

#[derive(Debug)]
pub struct PlanStep {
    pub index: usize,
    pub kind: PlanStepKind,
    pub status: StepStatus,
}

impl Clone for PlanStep {
    fn clone(&self) -> (r: Self)
        ensures
            r.index == self.index,
            r.kind@ == self.kind@,
            r.status == self.status,
    {
        PlanStep { index: self.index, kind: self.kind.clone(), status: self.status }
    }
}

#[derive(Debug)]
pub struct Plan {
    pub task_id: TaskId,
    pub steps: Vec<PlanStep>,
}

#[derive(Debug)]
pub struct ToolCall {
    pub name: String,
    pub input: String,
}

impl Clone for ToolCall {
    fn clone(&self) -> (r: Self)
        ensures
            r == *self,
    {
        ToolCall { name: self.name.clone(), input: self.input.clone() }
    }
}

#[derive(Debug)]
pub struct ToolResult {
    pub name: String,
    pub ok: bool,
    pub output: String,
}

impl Clone for ToolResult {
    fn clone(&self) -> (r: Self)
        ensures
            r == *self,
    {
        ToolResult { name: self.name.clone(), ok: self.ok, output: self.output.clone() }
    }
}

/// The contents of a tool result.
pub ghost struct ToolModel {
    pub name: Seq<char>,
    pub ok: bool,
    pub output: Seq<char>,
}

impl View for ToolResult {
    type V = ToolModel;

    open spec fn view(&self) -> ToolModel {
        ToolModel { name: self.name@, ok: self.ok, output: self.output@ }
    }
}

#[derive(Debug, Clone, Copy, PartialEq, Eq, Structural)]
pub struct Heartbeat {
    pub tick: u64,
    pub last_task: Option<TaskId>,
    pub last_status: TaskStatus,
}

impl Default for Heartbeat {
    fn default() -> (r: Self)
        ensures
            r == (Heartbeat { tick: 0, last_task: None, last_status: TaskStatus::New }),
    {
        Heartbeat { tick: 0, last_task: None, last_status: TaskStatus::New }
    }
}

/// Seconds since the Unix epoch by `SystemTime::elapsed`, when the clock stands
/// at or after it. Nothing is claimed of the reading.
#[verifier::external_body]
fn clock_secs() -> (r: Option<u64>) {
    SystemTime::UNIX_EPOCH.elapsed().ok().map(|d| d.as_secs())
}

/// A clock reading, with 0 for a clock that stands before the epoch.
pub fn secs_or_zero(reading: Option<u64>) -> (r: u64)
    ensures
        r == (match reading {
            Some(n) => n,
            None => 0,
        }),
{
    match reading {
        Some(n) => n,
        None => 0,
    }
}

/// Seconds since the Unix epoch, 0 when the clock stands before it. The result
/// is the machine's clock: the contract leaves it open.
pub fn now_epoch_secs() -> (r: u64) {
    secs_or_zero(clock_secs())
}

/// Each class is named by its own label.
pub proof fn law_class_labels(c: MessageClass)
    ensures
        MessageClass::named(c.name()) == Some(c),
{
    reveal_strlit("minihow");
    reveal_strlit("miniwhy");
    reveal_strlit("miniwhat");
    reveal_strlit("how");
    reveal_strlit("why");
    reveal_strlit("what");
    chars::lemma_plain_word(c.name());
}

/// Each mode is named by its own label.
pub proof fn law_mode_labels(m: AdvisorMode)
    ensures
        AdvisorMode::named(m.name()) == Some(m),
{
    reveal_strlit("training");
    reveal_strlit("train");
    reveal_strlit("trial");
    reveal_strlit("work");
    reveal_strlit("working");
    chars::lemma_plain_word(m.name());
}

/// Each choice is named by its own label.
pub proof fn law_choice_labels(c: AgentChoice)
    ensures
        AgentChoice::named(c.name()) == Some(c),
{
    reveal_strlit("primary");
    reveal_strlit("small");
    reveal_strlit("local");
    reveal_strlit("advisor");
    reveal_strlit("large");
    reveal_strlit("remote");
    chars::lemma_plain_word(c.name());
}

}
