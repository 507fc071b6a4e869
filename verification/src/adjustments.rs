//! Adjustments that the advisor suggests: parsing them, applying them to the
//! workspace, and keeping them as proposals for the operator.
use vstd::prelude::*;

use crate::chars;
use crate::chars::CharSet;
use crate::config;
use crate::config::joined;
use crate::frontmatter;
use crate::frontmatter::{entry_line, entry_lines, front_text, last_of, tidy, tidy_entries};
use crate::numbers;
use crate::prompts;
use crate::prompts::{PromptStore, StoreModel};
use crate::readback::{lacks, plain};
use crate::skills;
use crate::skills::{field_of, SkillModel};
use crate::table;
use crate::table::Row;
use crate::text;
use crate::types::{now_epoch_secs, MessageClass, TaskId};

verus! {

/// What the advisor suggests after it has seen a diverging answer.
#[derive(Debug, PartialEq, Eq)]
pub enum AdjustmentDirective {
    NoChange,
    /// One more numbered rule in the system prompt of a class.
    RuleAppend { class: MessageClass, rule: String },
    /// A new skill that the primary model can run.
    SkillNew { name: String, description: String, command: String },
}

/// The contents of a suggestion.
pub ghost enum DirectiveModel {
    NoChange,
    RuleAppend { class: MessageClass, rule: Seq<char> },
    SkillNew { name: Seq<char>, description: Seq<char>, command: Seq<char> },
}

impl View for AdjustmentDirective {
    type V = DirectiveModel;

    open spec fn view(&self) -> DirectiveModel {
        match self {
            AdjustmentDirective::NoChange => DirectiveModel::NoChange,
            AdjustmentDirective::RuleAppend { class, rule } => DirectiveModel::RuleAppend {
                class: *class,
                rule: rule@,
            },
            AdjustmentDirective::SkillNew { name, description, command } =>
            DirectiveModel::SkillNew {
                name: name@,
                description: description@,
                command: command@,
            },
        }
    }
}

/// At most `max` bytes of a text on one line, with an ellipsis where something
/// was cut.
pub open spec fn one_line(s: Seq<char>, max: nat) -> Seq<char> {
    chars::capped(chars::replace_char(s, '\n', " "@), max, "…"@)
}

fn cap_oneline(s: &str, max: usize) -> (r: String)
    ensures
        r@ == one_line(s@, max as nat),
{
    text::capped(text::replace_char(s, '\n', " ").as_str(), max, "…")
}

impl DirectiveModel {
    pub open spec fn kind_name(self) -> Seq<char> {
        match self {
            DirectiveModel::NoChange => "no-change"@,
            DirectiveModel::RuleAppend { .. } => "rule-append"@,
            DirectiveModel::SkillNew { .. } => "skill-new"@,
        }
    }

    /// The class whose prompt the suggestion changes.
    pub open spec fn class_named(self) -> Option<MessageClass> {
        match self {
            DirectiveModel::RuleAppend { class, .. } => Some(class),
            _ => None,
        }
    }

    pub open spec fn summary_text(self) -> Seq<char> {
        match self {
            DirectiveModel::NoChange => "no change suggested"@,
            DirectiveModel::RuleAppend { class, rule } => "rule-append ["@ + class.name() + "]: "@
                + one_line(rule, 120),
            DirectiveModel::SkillNew { name, description, command } => "skill-new ["@ + name
                + "]: "@ + one_line(description, 120),
        }
    }
}

impl AdjustmentDirective {
    pub fn kind(&self) -> (r: &'static str)
        ensures
            r@ == self@.kind_name(),
    {
        match self {
            AdjustmentDirective::NoChange => "no-change",
            AdjustmentDirective::RuleAppend { .. } => "rule-append",
            AdjustmentDirective::SkillNew { .. } => "skill-new",
        }
    }

    pub fn summary(&self) -> (r: String)
        ensures
            r@ == self@.summary_text(),
    {
        match self {
            AdjustmentDirective::NoChange => "no change suggested".to_owned(),
            AdjustmentDirective::RuleAppend { class, rule } => {
                let mut out = "rule-append [".to_owned();
                out.append(class.label());
                out.append("]: ");
                out.append(cap_oneline(rule.as_str(), 120).as_str());
                out
            },
            AdjustmentDirective::SkillNew { name, description, command: _ } => {
                let mut out = "skill-new [".to_owned();
                out.append(name.as_str());
                out.append("]: ");
                out.append(cap_oneline(description.as_str(), 120).as_str());
                out
            },
        }
    }
}

// ---------------------------------------------------------------------------
// Parsing
// ---------------------------------------------------------------------------

/// The first line with contents behind white space and quote marks.
pub open spec fn first_content(lines: Seq<Seq<char>>) -> Option<Seq<char>>
    decreases lines.len(),
{
    if lines.len() == 0 {
        None
    } else {
        let t = chars::drop_leading(lines[0], CharSet::QuoteOrWhite);
        if t.len() > 0 {
            Some(t)
        } else {
            first_content(lines.skip(1))
        }
    }
}

/// A name of one to 64 letters, digits, hyphens and underscores.
pub open spec fn is_skill_name(name: Seq<char>) -> bool {
    0 < name.len() && chars::byte_len(name) <= 64 && chars::all_in(name, CharSet::NameChar)
}

/// The suggestion in a line: `NO_CHANGE`, a rule of at most 400 bytes, or a
/// skill in three parts.
pub open spec fn directive_in(class: MessageClass, line: Seq<char>) -> Option<DirectiveModel> {
    if chars::starts_with(line, "NO_CHANGE"@) {
        Some(DirectiveModel::NoChange)
    } else {
        match chars::after_prefix(line, "PROMPT_RULE_APPEND:"@) {
            Some(rest) => {
                let rule = chars::trim(rest);
                if rule.len() == 0 || chars::byte_len(rule) > 400 {
                    None
                } else {
                    Some(DirectiveModel::RuleAppend { class, rule })
                }
            },
            None => match chars::after_prefix(line, "SKILL_NEW:"@) {
                Some(rest) => {
                    let parts = chars::pieces(rest, CharSet::Only('|'));
                    if parts.len() != 3 {
                        None
                    } else {
                        let name = chars::trim(parts[0]);
                        let description = chars::trim(parts[1]);
                        let command = chars::trim(parts[2]);
                        if !is_skill_name(name) || description.len() == 0 || command.len() == 0 {
                            None
                        } else {
                            Some(DirectiveModel::SkillNew { name, description, command })
                        }
                    }
                },
                None => None,
            },
        }
    }
}

/// The suggestion in a response.
pub open spec fn directive_of(class: MessageClass, response: Seq<char>) -> Option<DirectiveModel> {
    match first_content(chars::lines(response)) {
        Some(line) => directive_in(class, line),
        None => None,
    }
}

/// The contents of an optional suggestion.
pub open spec fn opt_directive(d: Option<AdjustmentDirective>) -> Option<DirectiveModel> {
    match d {
        Some(x) => Some(x@),
        None => None,
    }
}

fn first_content_line<'a>(lines: &Vec<&'a str>) -> (r: Option<&'a str>)
    ensures
        match r {
            Some(t) => first_content(chars::texts(lines@)) == Some(t@),
            None => first_content(chars::texts(lines@)) is None,
        },
{
    let ghost all = chars::texts(lines@);
    let mut i: usize = 0;
    assert(all.skip(0) =~= all);
    while i < lines.len()
        invariant
            i <= lines.len(),
            all == chars::texts(lines@),
            first_content(all) == first_content(all.skip(i as int)),
        decreases lines.len() - i,
    {
        assert(all.skip(i as int).skip(1) =~= all.skip(i + 1));
        assert(all.skip(i as int)[0] == lines@[i as int]@);
        let t = text::drop_leading(lines[i], CharSet::QuoteOrWhite);
        if t.unicode_len() > 0 {
            return Some(t);
        }
        i += 1;
    }
    None
}

fn is_valid_skill_name(name: &str) -> (r: bool)
    ensures
        r == is_skill_name(name@),
{
    name.unicode_len() > 0 && text::byte_len(name) <= 64 && text::all_in(name, CharSet::NameChar)
}

/// The suggestion on the first line of a response that holds anything.
pub fn parse_directive(class: MessageClass, response: &str) -> (r: Option<AdjustmentDirective>)
    ensures
        opt_directive(r) == directive_of(class, response@),
{
    let lines = text::lines(response);
    let line = match first_content_line(&lines) {
        Some(line) => line,
        None => {
            return None;
        },
    };
    if text::starts_with(line, "NO_CHANGE") {
        return Some(AdjustmentDirective::NoChange);
    }
    if let Some(rest) = text::after_prefix(line, "PROMPT_RULE_APPEND:") {
        let rule = text::trim(rest);
        if rule.unicode_len() == 0 || text::byte_len(rule) > 400 {
            return None;
        }
        return Some(AdjustmentDirective::RuleAppend { class, rule: rule.to_owned() });
    }
    if let Some(rest) = text::after_prefix(line, "SKILL_NEW:") {
        let parts = text::pieces(rest, CharSet::Only('|'));
        assert(chars::texts(parts@).len() == parts@.len());
        if parts.len() != 3 {
            return None;
        }
        assert(forall|k: int| 0 <= k < 3 ==> chars::texts(parts@)[k] == parts@[k]@);
        let name = text::trim(parts[0]);
        let description = text::trim(parts[1]);
        let command = text::trim(parts[2]);
        if !is_valid_skill_name(name) || description.unicode_len() == 0 || command.unicode_len()
            == 0 {
            return None;
        }
        return Some(
            AdjustmentDirective::SkillNew {
                name: name.to_owned(),
                description: description.to_owned(),
                command: command.to_owned(),
            },
        );
    }
    None
}

// ---------------------------------------------------------------------------
// Applying
// ---------------------------------------------------------------------------

/// The file of a skill.
pub open spec fn skill_file(
    name: Seq<char>,
    description: Seq<char>,
    command: Seq<char>,
) -> Seq<char> {
    "---\nname: "@ + name + "\ndescription: "@ + description + "\nexec: "@ + command
        + "\n---\n\nAuto-generated by advisor adjustment.\n"@
}

/// The workspace after a suggestion was applied. A rule goes to the overlay of
/// the subclass where one is given, else to the template of its class.
pub open spec fn applied(
    store: StoreModel,
    d: DirectiveModel,
    subclass: Option<Seq<char>>,
) -> StoreModel {
    match d {
        DirectiveModel::NoChange => store,
        DirectiveModel::RuleAppend { class, rule } => match subclass {
            Some(sub) => store.overlay_rule_appended(class, sub, rule),
            None => store.rule_appended(class, rule),
        },
        DirectiveModel::SkillNew { name, description, command } => StoreModel {
            skills: table::put(
                store.skills,
                name + ".md"@,
                skill_file(name, description, command),
            ),
            ..store
        },
    }
}

/// What is reported of an applied suggestion.
pub open spec fn applied_text(
    store: StoreModel,
    d: DirectiveModel,
    subclass: Option<Seq<char>>,
) -> Seq<char> {
    match d {
        DirectiveModel::NoChange => "no change"@,
        DirectiveModel::RuleAppend { class, rule } => match subclass {
            Some(sub) => "appended rule "@ + numbers::decimal(
                prompts::next_rule(store.overlay_file(class, sub)),
            ) + " to "@ + class.name() + "."@ + sub + ".md"@,
            None => "appended rule "@ + numbers::decimal(
                prompts::next_rule(store.class_text(class)),
            ) + " to "@ + class.name() + ".md"@,
        },
        DirectiveModel::SkillNew { name, description, command } => "wrote skill "@ + joined(
            joined(store.workspace, "skills"@),
            name + ".md"@,
        ),
    }
}

fn render_skill_file(name: &str, description: &str, command: &str) -> (r: String)
    ensures
        r@ == skill_file(name@, description@, command@),
{
    let mut out = "---\nname: ".to_owned();
    out.append(name);
    out.append("\ndescription: ");
    out.append(description);
    out.append("\nexec: ");
    out.append(command);
    out.append("\n---\n\nAuto-generated by advisor adjustment.\n");
    out
}

/// Applies a suggestion to the workspace and says what was done.
pub fn apply_training(
    store: &mut PromptStore,
    directive: &AdjustmentDirective,
    subclass: Option<&str>,
) -> (r: String)
    ensures
        final(store)@ == applied(old(store)@, directive@, config::opt_str(subclass)),
        r@ == applied_text(old(store)@, directive@, config::opt_str(subclass)),
        old(store).wf() ==> final(store).wf(),
{
    match directive {
        AdjustmentDirective::NoChange => "no change".to_owned(),
        AdjustmentDirective::RuleAppend { class, rule } => {
            let mut out = "appended rule ".to_owned();
            match subclass {
                Some(sub) => {
                    let n: usize = store.append_rule_to_subclass(*class, sub, rule.as_str());
                    out.append(numbers::usize_text(n).as_str());
                    out.append(" to ");
                    out.append(class.label());
                    out.append(".");
                    out.append(sub);
                    out.append(".md");
                },
                None => {
                    let n: usize = store.append_rule(*class, rule.as_str());
                    out.append(numbers::usize_text(n).as_str());
                    out.append(" to ");
                    out.append(class.label());
                    out.append(".md");
                },
            }
            out
        },
        AdjustmentDirective::SkillNew { name, description, command } => {
            let body = render_skill_file(name.as_str(), description.as_str(), command.as_str());
            let file = name.clone().concat(".md");
            store.skills.insert(file.as_str(), body.as_str());
            let dir = config::join_path(store.workspace.as_str(), "skills");
            "wrote skill ".to_owned().concat(
                config::join_path(dir.as_str(), file.as_str()).as_str(),
            )
        },
    }
}

// ---------------------------------------------------------------------------
// Proposals
// ---------------------------------------------------------------------------

/// The file of a proposal.
pub open spec fn proposal_file(task_id: TaskId, timestamp: nat, d: DirectiveModel) -> Seq<char> {
    let head = "---\ntask: "@ + task_id.name() + "\ncreated_at: "@ + numbers::decimal(timestamp)
        + "\nkind: "@ + d.kind_name() + "\n"@;
    match d {
        DirectiveModel::NoChange => head + "---\n\nNo change suggested.\n"@,
        DirectiveModel::RuleAppend { class, rule } => head + "class: "@ + class.name()
            + "\n---\n\n"@ + rule + "\n"@,
        DirectiveModel::SkillNew { name, description, command } => head + "skill_name: "@ + name
            + "\nskill_description: "@ + description + "\nskill_exec: "@ + command
            + "\n---\n\nGenerated skill file body:\n\n"@ + skill_file(name, description, command),
    }
}

/// The name of a proposal: when it was made, its kind and its task.
pub open spec fn proposal_id(task_id: TaskId, timestamp: nat, d: DirectiveModel) -> Seq<char> {
    numbers::decimal(timestamp) + "-"@ + d.kind_name() + "-t"@ + numbers::decimal(task_id.0 as nat)
}

/// The workspace with a proposal kept.
pub open spec fn proposed(
    store: StoreModel,
    task_id: TaskId,
    timestamp: nat,
    d: DirectiveModel,
) -> StoreModel {
    StoreModel {
        proposals: table::put(
            store.proposals,
            proposal_id(task_id, timestamp, d) + ".md"@,
            proposal_file(task_id, timestamp, d),
        ),
        ..store
    }
}

/// Where a proposal is kept.
pub open spec fn proposal_path(
    store: StoreModel,
    task_id: TaskId,
    timestamp: nat,
    d: DirectiveModel,
) -> Seq<char> {
    path_of(store.workspace, proposal_id(task_id, timestamp, d) + ".md"@)
}

/// Where a workspace keeps the proposal of a file name.
pub open spec fn path_of(workspace: Seq<char>, name: Seq<char>) -> Seq<char> {
    joined(joined(workspace, "proposals"@), name)
}

/// The file name of a path among a workspace's proposals.
pub open spec fn name_at(workspace: Seq<char>, path: Seq<char>) -> Option<Seq<char>> {
    chars::after_prefix(path, path_of(workspace, ""@))
}

/// A proposal as it was read. `path` is where it is kept.
#[derive(Debug)]
pub struct ProposalEntry {
    pub id: String,
    pub path: String,
    pub kind: String,
    pub class: Option<MessageClass>,
    pub task_id: Option<TaskId>,
    pub created_at: u64,
    pub body: String,
}

/// The contents of a proposal.
pub ghost struct ProposalModel {
    pub id: Seq<char>,
    pub path: Seq<char>,
    pub kind: Seq<char>,
    pub class: Option<MessageClass>,
    pub task_id: Option<TaskId>,
    pub created_at: u64,
    pub body: Seq<char>,
}

impl View for ProposalEntry {
    type V = ProposalModel;

    open spec fn view(&self) -> ProposalModel {
        ProposalModel {
            id: self.id@,
            path: self.path@,
            kind: self.kind@,
            class: self.class,
            task_id: self.task_id,
            created_at: self.created_at,
            body: self.body@,
        }
    }
}

/// Front matter and body of a proposal file.
pub open spec fn front_and_body(content: Seq<char>) -> Option<(Seq<char>, Seq<char>)> {
    match chars::after_prefix(content, "---\n"@) {
        Some(rest) => match chars::around(rest, "\n---"@) {
            Some((front, body)) => Some(
                (front, chars::drop_leading(body, CharSet::Only('\n'))),
            ),
            None => None,
        },
        None => None,
    }
}

/// The file name without its extension.
pub open spec fn stem(name: Seq<char>) -> Seq<char> {
    if skills::is_markdown(name) {
        name.take(name.len() - 3)
    } else {
        name
    }
}

/// The task that a field names, with or without its letter.
pub open spec fn task_in(value: Seq<char>) -> Option<TaskId> {
    let digits = match chars::after_prefix(value, "t"@) {
        Some(rest) => rest,
        None => value,
    };
    match numbers::unsigned_value(digits, 10, u64::MAX as nat) {
        Ok(n) => Some(TaskId(n as u64)),
        Err(_) => None,
    }
}

/// The proposal in a file of a workspace.
pub open spec fn proposal_in(
    workspace: Seq<char>,
    name: Seq<char>,
    content: Seq<char>,
) -> Option<ProposalModel> {
    match front_and_body(content) {
        Some((front, body)) => {
            let lines = chars::lines(front);
            Some(
                ProposalModel {
                    id: stem(name),
                    path: path_of(workspace, name),
                    kind: prompts::value_or(field_of(lines, "kind"@), seq![]),
                    class: match field_of(lines, "class"@) {
                        Some(v) => MessageClass::named(v),
                        None => None,
                    },
                    task_id: match field_of(lines, "task"@) {
                        Some(v) => task_in(v),
                        None => None,
                    },
                    created_at: match field_of(lines, "created_at"@) {
                        Some(v) => match numbers::unsigned_value(v, 10, u64::MAX as nat) {
                            Ok(n) => n as u64,
                            Err(_) => 0,
                        },
                        None => 0,
                    },
                    body,
                },
            )
        },
        None => None,
    }
}

/// The proposals of a workspace in the order of the file names.
pub open spec fn proposals_in(workspace: Seq<char>, rows: Seq<Row>) -> Seq<ProposalModel>
    decreases rows.len(),
{
    if rows.len() == 0 {
        seq![]
    } else {
        let before = proposals_in(workspace, rows.drop_last());
        match proposal_in(workspace, rows.last().0, rows.last().1) {
            Some(p) => if skills::is_markdown(rows.last().0) {
                before.push(p)
            } else {
                before
            },
            None => before,
        }
    }
}

/// The proposal of a name.
pub open spec fn proposal_named(store: StoreModel, id: Seq<char>) -> Option<ProposalModel> {
    match table::lookup(store.proposals, id + ".md"@) {
        Some(content) => proposal_in(store.workspace, id + ".md"@, content),
        None => None,
    }
}

/// The contents of the file at a path among a workspace's proposals.
pub open spec fn file_at(store: StoreModel, path: Seq<char>) -> Option<Seq<char>> {
    match name_at(store.workspace, path) {
        Some(name) => table::lookup(store.proposals, name),
        None => None,
    }
}

/// The suggestion that a proposal keeps. The parts of a skill stand in the front
/// matter of its file.
pub open spec fn kept_directive(store: StoreModel, p: ProposalModel) -> Option<DirectiveModel> {
    if p.kind == "no-change"@ {
        Some(DirectiveModel::NoChange)
    } else if p.kind == "rule-append"@ {
        match p.class {
            Some(class) => Some(DirectiveModel::RuleAppend { class, rule: chars::trim(p.body) }),
            None => None,
        }
    } else if p.kind == "skill-new"@ {
        match file_at(store, p.path) {
            Some(content) => match front_and_body(content) {
                Some((front, _)) => {
                    let lines = chars::lines(front);
                    match (
                        field_of(lines, "skill_name"@),
                        field_of(lines, "skill_description"@),
                        field_of(lines, "skill_exec"@),
                    ) {
                        (Some(name), Some(description), Some(command)) => Some(
                            DirectiveModel::SkillNew { name, description, command },
                        ),
                        _ => None,
                    }
                },
                None => None,
            },
            None => None,
        }
    } else {
        None
    }
}

fn render_proposal(task_id: TaskId, timestamp: u64, directive: &AdjustmentDirective) -> (r: String)
    ensures
        r@ == proposal_file(task_id, timestamp as nat, directive@),
{
    let mut out = "---\ntask: ".to_owned();
    out.append(task_id.label().as_str());
    out.append("\ncreated_at: ");
    out.append(numbers::decimal_of(timestamp).as_str());
    out.append("\nkind: ");
    out.append(directive.kind());
    out.append("\n");
    match directive {
        AdjustmentDirective::NoChange => {
            out.append("---\n\nNo change suggested.\n");
        },
        AdjustmentDirective::RuleAppend { class, rule } => {
            out.append("class: ");
            out.append(class.label());
            out.append("\n---\n\n");
            out.append(rule.as_str());
            out.append("\n");
        },
        AdjustmentDirective::SkillNew { name, description, command } => {
            out.append("skill_name: ");
            out.append(name.as_str());
            out.append("\nskill_description: ");
            out.append(description.as_str());
            out.append("\nskill_exec: ");
            out.append(command.as_str());
            out.append("\n---\n\nGenerated skill file body:\n\n");
            out.append(
                render_skill_file(name.as_str(), description.as_str(), command.as_str()).as_str(),
            );
        },
    }
    out
}

/// Keeps a suggestion as a proposal made at a given time, and returns where.
pub fn write_proposal_at(
    store: &mut PromptStore,
    task_id: TaskId,
    timestamp: u64,
    directive: &AdjustmentDirective,
) -> (r: String)
    ensures
        final(store)@ == proposed(old(store)@, task_id, timestamp as nat, directive@),
        r@ == proposal_path(old(store)@, task_id, timestamp as nat, directive@),
        old(store).wf() ==> final(store).wf(),
{
    let mut file = numbers::decimal_of(timestamp);
    file.append("-");
    file.append(directive.kind());
    file.append("-t");
    file.append(numbers::decimal_of(task_id.0).as_str());
    file.append(".md");
    let body = render_proposal(task_id, timestamp, directive);
    store.proposals.insert(file.as_str(), body.as_str());
    path_in(store.workspace(), file.as_str())
}

/// Keeps a suggestion as a proposal made now, and returns where.
pub fn write_proposal(
    store: &mut PromptStore,
    task_id: TaskId,
    directive: &AdjustmentDirective,
) -> (r: String)
    ensures
        exists|now: u64|
            {
                &&& final(store)@ == #[trigger] proposed(
                    old(store)@,
                    task_id,
                    now as nat,
                    directive@,
                )
                &&& r@ == proposal_path(old(store)@, task_id, now as nat, directive@)
            },
        old(store).wf() ==> final(store).wf(),
{
    let now: u64 = now_epoch_secs();
    write_proposal_at(store, task_id, now, directive)
}

fn split_frontmatter<'a>(content: &'a str) -> (r: Option<(&'a str, &'a str)>)
    ensures
        match r {
            Some((f, b)) => front_and_body(content@) == Some((f@, b@)),
            None => front_and_body(content@) is None,
        },
{
    match text::after_prefix(content, "---\n") {
        Some(rest) => match text::around(rest, "\n---") {
            Some((front, body)) => Some((front, text::drop_leading(body, CharSet::Only('\n')))),
            None => None,
        },
        None => None,
    }
}

fn file_stem(name: &str) -> (r: String)
    ensures
        r@ == stem(name@),
{
    if skills::markdown(name) {
        let n: usize = name.unicode_len();
        let s = name.substring_char(0, n - 3);
        assert(s@ =~= name@.take(n - 3));
        s.to_owned()
    } else {
        name.to_owned()
    }
}

fn read_task(value: &str) -> (r: Option<TaskId>)
    ensures
        r == task_in(value@),
{
    let digits = match text::after_prefix(value, "t") {
        Some(rest) => rest,
        None => value,
    };
    match numbers::parse_u64(digits) {
        Some(n) => Some(TaskId(n)),
        None => None,
    }
}

/// The contents of an optional proposal.
pub open spec fn opt_proposal(p: Option<ProposalEntry>) -> Option<ProposalModel> {
    match p {
        Some(x) => Some(x@),
        None => None,
    }
}

fn path_in(workspace: &str, name: &str) -> (r: String)
    ensures
        r@ == path_of(workspace@, name@),
{
    config::join_path(config::join_path(workspace, "proposals").as_str(), name)
}

fn read_proposal(workspace: &str, name: &str, content: &str) -> (r: Option<ProposalEntry>)
    ensures
        opt_proposal(r) == proposal_in(workspace@, name@, content@),
{
    let (front, body) = match split_frontmatter(content) {
        Some(parts) => parts,
        None => {
            return None;
        },
    };
    let lines = text::lines(front);
    let kind = match skills::read_field(&lines, "kind") {
        Some(v) => v.to_owned(),
        None => {
            assert(Seq::<char>::empty() =~= seq![]);
            String::new()
        },
    };
    let class = match skills::read_field(&lines, "class") {
        Some(v) => MessageClass::parse(v),
        None => None,
    };
    let task_id = match skills::read_field(&lines, "task") {
        Some(v) => read_task(v),
        None => None,
    };
    let created_at: u64 = match skills::read_field(&lines, "created_at") {
        Some(v) => match numbers::parse_u64(v) {
            Some(n) => n,
            None => 0,
        },
        None => 0,
    };
    Some(
        ProposalEntry {
            id: file_stem(name),
            path: path_in(workspace, name),
            kind,
            class,
            task_id,
            created_at,
            body: body.to_owned(),
        },
    )
}

/// The contents of a list of proposals.
pub open spec fn proposal_models(v: Seq<ProposalEntry>) -> Seq<ProposalModel> {
    v.map_values(|p: ProposalEntry| p@)
}

/// The proposals in the order of their file names.
pub fn list_proposals(store: &PromptStore) -> (r: Vec<ProposalEntry>)
    ensures
        proposal_models(r@) == proposals_in(store@.workspace, store@.proposals),
{
    let mut out: Vec<ProposalEntry> = Vec::new();
    let ghost all = store@.proposals;
    let mut i: usize = 0;
    assert(all.take(0) =~= Seq::empty());
    assert(proposal_models(out@) =~= Seq::empty());
    while i < store.proposals.len()
        invariant
            i <= all.len(),
            all == store.proposals@,
            proposal_models(out@) == proposals_in(store@.workspace, all.take(i as int)),
        decreases all.len() - i,
    {
        assert(all.take(i + 1).drop_last() =~= all.take(i as int));
        if skills::markdown(store.proposals.key(i)) {
            match read_proposal(
                store.workspace(),
                store.proposals.key(i),
                store.proposals.value(i),
            ) {
                Some(p) => {
                    let ghost before = proposal_models(out@);
                    let ghost m = p@;
                    out.push(p);
                    assert(proposal_models(out@) =~= before.push(m));
                },
                None => {},
            }
        }
        i += 1;
    }
    assert(all.take(i as int) =~= all);
    out
}

/// The proposal of a name.
pub fn find_proposal(store: &PromptStore, id: &str) -> (r: Option<ProposalEntry>)
    ensures
        opt_proposal(r) == proposal_named(store@, id@),
{
    let name = id.to_owned().concat(".md");
    match store.proposals.get(name.as_str()) {
        Some(content) => read_proposal(store.workspace(), name.as_str(), content),
        None => None,
    }
}

fn read_file<'a>(store: &'a PromptStore, path: &str) -> (r: Option<&'a str>)
    ensures
        match r {
            Some(content) => file_at(store@, path@) == Some(content@),
            None => file_at(store@, path@) is None,
        },
{
    match text::after_prefix(path, path_in(store.workspace(), "").as_str()) {
        Some(name) => store.proposals.get(name),
        None => None,
    }
}

fn directive_from_proposal(store: &PromptStore, p: &ProposalEntry) -> (r: Option<
    AdjustmentDirective,
>)
    ensures
        opt_directive(r) == kept_directive(store@, p@),
{
    let kind = p.kind.as_str();
    if text::same(kind, "no-change") {
        return Some(AdjustmentDirective::NoChange);
    }
    if text::same(kind, "rule-append") {
        return match p.class {
            Some(class) => Some(
                AdjustmentDirective::RuleAppend {
                    class,
                    rule: text::trim(p.body.as_str()).to_owned(),
                },
            ),
            None => None,
        };
    }
    if text::same(kind, "skill-new") {
        let content = match read_file(store, p.path.as_str()) {
            Some(content) => content,
            None => {
                return None;
            },
        };
        let (front, _) = match split_frontmatter(content) {
            Some(parts) => parts,
            None => {
                return None;
            },
        };
        let lines = text::lines(front);
        return match (
            skills::read_field(&lines, "skill_name"),
            skills::read_field(&lines, "skill_description"),
            skills::read_field(&lines, "skill_exec"),
        ) {
            (Some(name), Some(description), Some(command)) => Some(
                AdjustmentDirective::SkillNew {
                    name: name.to_owned(),
                    description: description.to_owned(),
                    command: command.to_owned(),
                },
            ),
            _ => None,
        };
    }
    None
}

/// The workspace without a proposal.
pub open spec fn dropped(store: StoreModel, p: ProposalModel) -> StoreModel {
    match name_at(store.workspace, p.path) {
        Some(name) => StoreModel { proposals: table::without(store.proposals, name), ..store },
        None => store,
    }
}

/// Applies a proposal and takes it off the list. A malformed one is refused and
/// stays.
pub fn apply_proposal(store: &mut PromptStore, proposal: &ProposalEntry) -> (r: Result<
    String,
    String,
>)
    ensures
        match kept_directive(old(store)@, proposal@) {
            Some(d) => {
                &&& final(store)@ == dropped(applied(old(store)@, d, None), proposal@)
                &&& r matches Ok(out) && out@ == applied_text(old(store)@, d, None)
            },
            None => {
                &&& final(store)@ == old(store)@
                &&& r matches Err(e) && e@ == "proposal "@ + proposal.id@ + " is malformed"@
            },
        },
        old(store).wf() ==> final(store).wf(),
{
    match directive_from_proposal(store, proposal) {
        Some(d) => {
            let outcome = apply_training(store, &d, None);
            reject_proposal(store, proposal);
            Ok(outcome)
        },
        None => {
            let mut e = "proposal ".to_owned();
            e.append(proposal.id.as_str());
            e.append(" is malformed");
            Err(e)
        },
    }
}

/// Takes a proposal off the list.
pub fn reject_proposal(store: &mut PromptStore, proposal: &ProposalEntry)
    ensures
        final(store)@ == dropped(old(store)@, proposal@),
        old(store).wf() ==> final(store).wf(),
{
    let dir = path_in(store.workspace(), "");
    match text::after_prefix(proposal.path.as_str(), dir.as_str()) {
        Some(name) => {
            store.proposals.remove(name);
        },
        None => {},
    }
}

/// A suggested rule is for the class that was asked about.
pub proof fn lemma_directive_class(class: MessageClass, response: Seq<char>)
    ensures
        directive_of(class, response) matches Some(DirectiveModel::RuleAppend { class: c, .. })
            ==> c == class,
{
}

// ---------------------------------------------------------------------------
// Laws
// ---------------------------------------------------------------------------

/// A suggestion as it comes out of a response: texts without white space around
/// them, and those of a skill on one line each.
pub open spec fn clean(d: DirectiveModel) -> bool {
    match d {
        DirectiveModel::NoChange => true,
        DirectiveModel::RuleAppend { class, rule } => chars::trim(rule) == rule,
        DirectiveModel::SkillNew { name, description, command } => is_skill_name(name) && tidy(
            description,
        ) && description.len() > 0 && tidy(command),
    }
}

proof fn lemma_trim(s: Seq<char>)
    ensures
        chars::trim(chars::trim(s)) == chars::trim(s),
        lacks(s, '\n') ==> lacks(chars::trim(s), '\n'),
{
    let a = chars::trim_start(s);
    let t = chars::trim(s);
    chars::lemma_drop_leading(s, CharSet::White);
    chars::lemma_drop_trailing(a, CharSet::White);
    assert forall|i: int| 0 <= i < t.len() implies #[trigger] t[i] == s[s.len() - a.len() + i] by {
        assert(t[i] == a[i]);
    }
    if t.len() > 0 {
        assert(t[0] == a[0]);
        assert(chars::trim_start(t) == t);
        assert(chars::trim_end(t) == t);
    }
}

/// No line holds a line break.
proof fn lemma_lines_lack(s: Seq<char>)
    ensures
        forall|i: int| 0 <= i < chars::lines(s).len() ==> lacks(#[trigger] chars::lines(s)[i], '\n'),
    decreases s.len(),
{
    let set = CharSet::Only('\n');
    let k = chars::until(s, set) as int;
    chars::lemma_until(s, set);
    if s.len() > 0 && k < s.len() {
        let rest = s.skip(k + 1);
        lemma_lines_lack(rest);
        let first = chars::without_cr(s.take(k));
        assert(lacks(first, '\n')) by {
            assert forall|j: int| 0 <= j < first.len() implies #[trigger] first[j] != '\n' by {
                assert(first[j] == s[j]);
                assert(!set.has(s[j]));
            }
        }
        let all = chars::lines(s);
        assert(all == seq![first] + chars::lines(rest));
        assert forall|i: int| 0 <= i < all.len() implies lacks(#[trigger] all[i], '\n') by {
            if i > 0 {
                assert(all[i] == chars::lines(rest)[i - 1]);
            }
        }
    } else if s.len() > 0 {
        assert forall|j: int| 0 <= j < s.len() implies #[trigger] s[j] != '\n' by {
            assert(!set.has(s[j]));
        }
    }
}

/// No part of a text holds what the text lacks.
proof fn lemma_pieces_lack(s: Seq<char>, set: CharSet, c: char)
    requires
        lacks(s, c),
    ensures
        forall|i: int|
            0 <= i < chars::pieces(s, set).len() ==> lacks(#[trigger] chars::pieces(s, set)[i], c),
    decreases s.len(),
{
    let k = chars::until(s, set) as int;
    chars::lemma_until(s, set);
    if k < s.len() {
        let rest = s.skip(k + 1);
        lemma_pieces_lack(rest, set, c);
        let all = chars::pieces(s, set);
        assert(all == seq![s.take(k)] + chars::pieces(rest, set));
        assert forall|i: int| 0 <= i < all.len() implies lacks(#[trigger] all[i], c) by {
            if i > 0 {
                assert(all[i] == chars::pieces(rest, set)[i - 1]);
            }
        }
    }
}

proof fn lemma_content_lacks(lines: Seq<Seq<char>>)
    requires
        forall|i: int| 0 <= i < lines.len() ==> lacks(#[trigger] lines[i], '\n'),
    ensures
        first_content(lines) matches Some(line) ==> lacks(line, '\n'),
    decreases lines.len(),
{
    if lines.len() > 0 {
        assert(lacks(lines[0], '\n'));
        chars::lemma_drop_leading(lines[0], CharSet::QuoteOrWhite);
        let rest = lines.skip(1);
        assert forall|i: int| 0 <= i < rest.len() implies lacks(#[trigger] rest[i], '\n') by {
            assert(rest[i] == lines[i + 1]);
        }
        lemma_content_lacks(rest);
    }
}

/// Every suggestion that comes out of a response is clean.
pub proof fn law_parsed_suggestion_is_clean(class: MessageClass, response: Seq<char>)
    ensures
        directive_of(class, response) matches Some(d) ==> clean(d),
{
    lemma_lines_lack(response);
    lemma_content_lacks(chars::lines(response));
    match first_content(chars::lines(response)) {
        Some(line) => {
            match chars::after_prefix(line, "PROMPT_RULE_APPEND:"@) {
                Some(rest) => {
                    lemma_trim(rest);
                },
                None => {},
            }
            match chars::after_prefix(line, "SKILL_NEW:"@) {
                Some(rest) => {
                    assert(lacks(rest, '\n'));
                    lemma_pieces_lack(rest, CharSet::Only('|'), '\n');
                    let parts = chars::pieces(rest, CharSet::Only('|'));
                    if parts.len() == 3 {
                        lemma_trim(parts[1]);
                        lemma_trim(parts[2]);
                    }
                },
                None => {},
            }
        },
        None => {},
    }
}

proof fn lemma_name_tidy(name: Seq<char>)
    requires
        is_skill_name(name),
    ensures
        tidy(name),
{
    assert forall|i: int| 0 <= i < name.len() implies !chars::is_white(#[trigger] name[i])
        && name[i] != '\n' by {
        assert(CharSet::NameChar.has(name[i]));
    }
    assert(!chars::is_white(name[0]));
    assert(!chars::is_white(name[name.len() - 1]));
    assert(chars::trim_start(name) == name);
    assert(chars::trim_end(name) == name);
}

/// The fields of a skill file.
spec fn skill_entries(
    name: Seq<char>,
    description: Seq<char>,
    command: Seq<char>,
) -> Seq<(Seq<char>, Seq<char>)> {
    seq![("name"@, name), ("description"@, description), ("exec"@, command)]
}

proof fn lemma_skill_text(name: Seq<char>, description: Seq<char>, command: Seq<char>)
    ensures
        skill_file(name, description, command) == "---"@ + (seq!['\n'] + front_text(
            skill_entries(name, description, command),
        ) + ("\n---"@ + "\n\nAuto-generated by advisor adjustment.\n"@)),
{
    let es = skill_entries(name, description, command);
    let ls = entry_lines(es);
    reveal_strlit("---\nname: ");
    reveal_strlit("---");
    reveal_strlit("name");
    reveal_strlit(": ");
    reveal_strlit("\ndescription: ");
    reveal_strlit("description");
    reveal_strlit("\nexec: ");
    reveal_strlit("exec");
    reveal_strlit("\n");
    assert("---\nname: "@ =~= "---"@ + (seq!['\n'] + ("name"@ + ": "@)));
    assert("\ndescription: "@ =~= seq!['\n'] + ("description"@ + ": "@));
    assert("\nexec: "@ =~= seq!['\n'] + ("exec"@ + ": "@));
    assert("\n"@ =~= seq!['\n']);
    lemma_skill_end();
    lemma_three(ls, "\n"@);
    assert(ls[0] == entry_line(es[0]) && ls[1] == entry_line(es[1]) && ls[2] == entry_line(es[2]));
    assert(front_text(es) =~= ("name"@ + ": "@ + name) + (seq!['\n'] + (("description"@ + ": "@
        + description) + (seq!['\n'] + ("exec"@ + ": "@ + command)))));
    lemma_skill_regroup(
        "---"@,
        "name"@ + ": "@,
        name,
        "description"@ + ": "@,
        description,
        "exec"@ + ": "@,
        command,
        "\n---"@ + "\n\nAuto-generated by advisor adjustment.\n"@,
    );
}

proof fn lemma_skill_end()
    ensures
        "\n---\n\nAuto-generated by advisor adjustment.\n"@ == "\n---"@
            + "\n\nAuto-generated by advisor adjustment.\n"@,
{
    reveal_strlit("\n---\n\nAuto-generated by advisor adjustment.\n");
    reveal_strlit("\n---");
    reveal_strlit("\n\nAuto-generated by advisor adjustment.\n");
    assert("\n---\n\nAuto-generated by advisor adjustment.\n"@ =~= "\n---"@
        + "\n\nAuto-generated by advisor adjustment.\n"@);
}

proof fn lemma_three(ls: Seq<Seq<char>>, sep: Seq<char>)
    requires
        ls.len() == 3,
    ensures
        chars::join(ls, sep) == ls[0] + (sep + (ls[1] + (sep + ls[2]))),
{
    crate::readback::lemma_join_left(ls, sep);
    let more = ls.skip(1);
    crate::readback::lemma_join_left(more, sep);
    assert(more.skip(1) =~= seq![ls[2]]);
}

proof fn lemma_skill_regroup(
    dashes: Seq<char>,
    k1: Seq<char>,
    v1: Seq<char>,
    k2: Seq<char>,
    v2: Seq<char>,
    k3: Seq<char>,
    v3: Seq<char>,
    end: Seq<char>,
)
    ensures
        ((((((dashes + (seq!['\n'] + k1)) + v1) + (seq!['\n'] + k2)) + v2) + (seq!['\n'] + k3)) + v3)
            + end == dashes + (seq!['\n'] + ((k1 + v1) + (seq!['\n'] + ((k2 + v2) + (seq!['\n'] + (k3
            + v3))))) + end),
{
    assert(((((((dashes + (seq!['\n'] + k1)) + v1) + (seq!['\n'] + k2)) + v2) + (seq!['\n'] + k3))
        + v3) + end =~= dashes + (seq!['\n'] + ((k1 + v1) + (seq!['\n'] + ((k2 + v2) + (seq!['\n'] + (
    k3 + v3))))) + end));
}

/// The file of a new skill describes that skill.
pub proof fn law_skill_file_reads_back(
    name: Seq<char>,
    description: Seq<char>,
    command: Seq<char>,
)
    requires
        clean(DirectiveModel::SkillNew { name, description, command }),
    ensures
        skills::skill_in(skill_file(name, description, command)) == Some(
            SkillModel { name, description, command: Some(command) },
        ),
{
    let es = skill_entries(name, description, command);
    let content = skill_file(name, description, command);
    let rest = "\n\nAuto-generated by advisor adjustment.\n"@;
    let front = front_text(es);
    lemma_skill_text(name, description, command);
    lemma_name_tidy(name);
    reveal_strlit("name");
    reveal_strlit("description");
    reveal_strlit("exec");
    assert(tidy_entries(es)) by {
        assert(plain("name"@) && plain("description"@) && plain("exec"@));
    }
    frontmatter::lemma_front_found(es, rest);
    let after = seq!['\n'] + front + ("\n---"@ + rest);
    reveal_strlit("---");
    assert(content[0] == '-');
    assert(chars::trim_start(content) == content);
    assert(content.take(3) =~= "---"@);
    assert(content.skip(3) =~= after);
    let whole = seq!['\n'] + front;
    assert(after.take(front.len() as int + 1) =~= whole);
    let none = Seq::<char>::empty();
    assert(whole =~= none + seq!['\n'] + front);
    chars::lemma_first_line(none, front);
    frontmatter::lemma_front_lines(es);
    let lines = chars::lines(whole);
    assert(lines == seq![none] + entry_lines(es));
    frontmatter::lemma_blank_line(entry_lines(es), "name"@);
    frontmatter::lemma_blank_line(entry_lines(es), "description"@);
    frontmatter::lemma_blank_line(entry_lines(es), "exec"@);
    frontmatter::lemma_front_fields(es, "name"@);
    frontmatter::lemma_front_fields(es, "description"@);
    frontmatter::lemma_front_fields(es, "exec"@);
    let two = es.drop_last();
    let one = two.drop_last();
    assert(es.last() == es[2] && two.last() == es[1] && one.last() == es[0]);
    assert("name"@[0] == 'n' && "exec"@[0] == 'e');
    assert(last_of(es, "exec"@) == Some(command));
    assert(last_of(es, "description"@) == last_of(two, "description"@));
    assert(last_of(es, "name"@) == last_of(two, "name"@));
    assert(last_of(two, "name"@) == last_of(one, "name"@));
}

/// The fields of every proposal.
spec fn head_entries(
    task_id: TaskId,
    timestamp: nat,
    d: DirectiveModel,
) -> Seq<(Seq<char>, Seq<char>)> {
    seq![
        ("task"@, task_id.name()),
        ("created_at"@, numbers::decimal(timestamp)),
        ("kind"@, d.kind_name()),
    ]
}

/// The fields of a proposal's kind.
spec fn kind_entries(d: DirectiveModel) -> Seq<(Seq<char>, Seq<char>)> {
    match d {
        DirectiveModel::NoChange => seq![],
        DirectiveModel::RuleAppend { class, rule } => seq![("class"@, class.name())],
        DirectiveModel::SkillNew { name, description, command } => seq![
            ("skill_name"@, name),
            ("skill_description"@, description),
            ("skill_exec"@, command),
        ],
    }
}

/// What follows the fields of a proposal.
spec fn proposal_rest(d: DirectiveModel) -> Seq<char> {
    match d {
        DirectiveModel::NoChange => "\n\nNo change suggested.\n"@,
        DirectiveModel::RuleAppend { class, rule } => "\n\n"@ + rule + "\n"@,
        DirectiveModel::SkillNew { name, description, command } =>
        "\n\nGenerated skill file body:\n\n"@ + skill_file(name, description, command),
    }
}

/// The fields of a proposal.
spec fn proposal_entries(
    task_id: TaskId,
    timestamp: nat,
    d: DirectiveModel,
) -> Seq<(Seq<char>, Seq<char>)> {
    head_entries(task_id, timestamp, d) + kind_entries(d)
}

proof fn lemma_join_push(ls: Seq<Seq<char>>, sep: Seq<char>, x: Seq<char>)
    requires
        ls.len() > 0,
    ensures
        chars::join(ls.push(x), sep) == chars::join(ls, sep) + sep + x,
{
    assert(ls.push(x).drop_last() =~= ls);
}

/// The lines of fields with one more.
proof fn lemma_front_push(es: Seq<(Seq<char>, Seq<char>)>, e: (Seq<char>, Seq<char>))
    requires
        es.len() > 0,
    ensures
        front_text(es.push(e)) == front_text(es) + "\n"@ + (e.0 + ": "@ + e.1),
{
    assert(entry_lines(es.push(e)) =~= entry_lines(es).push(entry_line(e)));
    lemma_join_push(entry_lines(es), "\n"@, entry_line(e));
}

proof fn lemma_head_literals()
    ensures
        "---\ntask: "@ == "---\n"@ + ("task"@ + ": "@),
        "\ncreated_at: "@ == "\n"@ + ("created_at"@ + ": "@),
        "\nkind: "@ == "\n"@ + ("kind"@ + ": "@),
        "class: "@ == "class"@ + ": "@,
        "skill_name: "@ == "skill_name"@ + ": "@,
        "\nskill_description: "@ == "\n"@ + ("skill_description"@ + ": "@),
        "\nskill_exec: "@ == "\n"@ + ("skill_exec"@ + ": "@),
{
    reveal_strlit("---\ntask: ");
    reveal_strlit("---\n");
    reveal_strlit("task");
    reveal_strlit(": ");
    reveal_strlit("\n");
    reveal_strlit("\ncreated_at: ");
    reveal_strlit("created_at");
    reveal_strlit("\nkind: ");
    reveal_strlit("kind");
    reveal_strlit("class: ");
    reveal_strlit("class");
    reveal_strlit("skill_name: ");
    reveal_strlit("skill_name");
    reveal_strlit("\nskill_description: ");
    reveal_strlit("skill_description");
    reveal_strlit("\nskill_exec: ");
    reveal_strlit("skill_exec");
    assert("---\ntask: "@ =~= "---\n"@ + ("task"@ + ": "@));
    assert("\ncreated_at: "@ =~= "\n"@ + ("created_at"@ + ": "@));
    assert("\nkind: "@ =~= "\n"@ + ("kind"@ + ": "@));
    assert("class: "@ =~= "class"@ + ": "@);
    assert("skill_name: "@ =~= "skill_name"@ + ": "@);
    assert("\nskill_description: "@ =~= "\n"@ + ("skill_description"@ + ": "@));
    assert("\nskill_exec: "@ =~= "\n"@ + ("skill_exec"@ + ": "@));
}

proof fn lemma_rest_literals()
    ensures
        "\n"@ + "---\n\nNo change suggested.\n"@ == "\n---"@ + "\n\nNo change suggested.\n"@,
        "\n---\n\n"@ == "\n---"@ + "\n\n"@,
        "\n---\n\nGenerated skill file body:\n\n"@ == "\n---"@
            + "\n\nGenerated skill file body:\n\n"@,
{
    reveal_strlit("---\n\nNo change suggested.\n");
    reveal_strlit("\n");
    reveal_strlit("\n---");
    reveal_strlit("\n\nNo change suggested.\n");
    reveal_strlit("\n---\n\n");
    reveal_strlit("\n\n");
    reveal_strlit("\n---\n\nGenerated skill file body:\n\n");
    reveal_strlit("\n\nGenerated skill file body:\n\n");
    assert("\n"@ + "---\n\nNo change suggested.\n"@ =~= "\n---"@
        + "\n\nNo change suggested.\n"@);
    assert("\n---\n\n"@ =~= "\n---"@ + "\n\n"@);
    assert("\n---\n\nGenerated skill file body:\n\n"@ =~= "\n---"@
        + "\n\nGenerated skill file body:\n\n"@);
}

proof fn lemma_head_text(task_id: TaskId, timestamp: nat, d: DirectiveModel)
    ensures
        "---\ntask: "@ + task_id.name() + "\ncreated_at: "@ + numbers::decimal(timestamp)
            + "\nkind: "@ + d.kind_name() == "---\n"@ + front_text(
            head_entries(task_id, timestamp, d),
        ),
{
    let a = ("task"@, task_id.name());
    let b = ("created_at"@, numbers::decimal(timestamp));
    let c = ("kind"@, d.kind_name());
    let one = seq![a];
    lemma_head_literals();
    lemma_front_push(one, b);
    lemma_front_push(one.push(b), c);
    assert(head_entries(task_id, timestamp, d) =~= one.push(b).push(c));
    assert(entry_lines(one) =~= seq![entry_line(a)]);
    assert("---\ntask: "@ + task_id.name() + "\ncreated_at: "@ + numbers::decimal(timestamp)
        + "\nkind: "@ + d.kind_name() =~= "---\n"@ + front_text(
        head_entries(task_id, timestamp, d),
    ));
}

proof fn lemma_proposal_regroup(
    start: Seq<char>,
    line: Seq<char>,
    k1: Seq<char>,
    v1: Seq<char>,
    k2: Seq<char>,
    v2: Seq<char>,
    k3: Seq<char>,
    v3: Seq<char>,
    end: Seq<char>,
    body: Seq<char>,
    dashes: Seq<char>,
)
    ensures
        ((((((((dashes + start) + line) + k1 + v1) + (line + k2)) + v2) + (line + k3)) + v3) + end)
            + body == dashes + ((((start + line + (k1 + v1)) + line + (k2 + v2)) + line + (k3 + v3))
            + (end + body)),
{
    assert(((((((((dashes + start) + line) + k1 + v1) + (line + k2)) + v2) + (line + k3)) + v3)
        + end) + body =~= dashes + ((((start + line + (k1 + v1)) + line + (k2 + v2)) + line + (k3
        + v3)) + (end + body)));
}

proof fn lemma_kept_skill_text(
    task_id: TaskId,
    timestamp: nat,
    name: Seq<char>,
    description: Seq<char>,
    command: Seq<char>,
)
    ensures
        ({
            let d = DirectiveModel::SkillNew { name, description, command };
            proposal_file(task_id, timestamp, d) == "---\n"@ + (front_text(
                proposal_entries(task_id, timestamp, d),
            ) + ("\n---"@ + proposal_rest(d)))
        }),
{
    let d = DirectiveModel::SkillNew { name, description, command };
    let hs = head_entries(task_id, timestamp, d);
    let es = proposal_entries(task_id, timestamp, d);
    let a = ("skill_name"@, name);
    let b = ("skill_description"@, description);
    let c = ("skill_exec"@, command);
    lemma_front_push(hs, a);
    lemma_front_push(hs.push(a), b);
    lemma_front_push(hs.push(a).push(b), c);
    assert(es =~= hs.push(a).push(b).push(c));
    lemma_head_text(task_id, timestamp, d);
    lemma_head_literals();
    lemma_rest_literals();
    let file = skill_file(name, description, command);
    let end = "\n---"@ + "\n\nGenerated skill file body:\n\n"@;
    lemma_proposal_regroup(
        front_text(hs),
        "\n"@,
        "skill_name"@ + ": "@,
        name,
        "skill_description"@ + ": "@,
        description,
        "skill_exec"@ + ": "@,
        command,
        end,
        file,
        "---\n"@,
    );
    assert(end + file =~= "\n---"@ + proposal_rest(d));
}

proof fn lemma_plain_regroup(dashes: Seq<char>, head: Seq<char>, line: Seq<char>, end: Seq<char>)
    ensures
        ((dashes + head) + line) + end == dashes + (head + (line + end)),
{
    assert(((dashes + head) + line) + end =~= dashes + (head + (line + end)));
}

proof fn lemma_rule_regroup(
    dashes: Seq<char>,
    head: Seq<char>,
    line: Seq<char>,
    key: Seq<char>,
    value: Seq<char>,
    close: Seq<char>,
    gap: Seq<char>,
    rule: Seq<char>,
)
    ensures
        ((((((dashes + head) + line) + key) + value) + (close + gap)) + rule) + line == dashes + ((
        head + line + (key + value)) + (close + (gap + rule + line))),
{
    assert(((((((dashes + head) + line) + key) + value) + (close + gap)) + rule) + line =~= dashes
        + ((head + line + (key + value)) + (close + (gap + rule + line))));
}

proof fn lemma_kept_rule_text(
    task_id: TaskId,
    timestamp: nat,
    class: MessageClass,
    rule: Seq<char>,
)
    ensures
        ({
            let d = DirectiveModel::RuleAppend { class, rule };
            proposal_file(task_id, timestamp, d) == "---\n"@ + (front_text(
                proposal_entries(task_id, timestamp, d),
            ) + ("\n---"@ + proposal_rest(d)))
        }),
{
    let d = DirectiveModel::RuleAppend { class, rule };
    let hs = head_entries(task_id, timestamp, d);
    let es = proposal_entries(task_id, timestamp, d);
    let e = ("class"@, class.name());
    lemma_head_text(task_id, timestamp, d);
    lemma_head_literals();
    lemma_rest_literals();
    lemma_front_push(hs, e);
    assert(es =~= hs.push(e));
    lemma_rule_regroup(
        "---\n"@,
        front_text(hs),
        "\n"@,
        "class"@ + ": "@,
        class.name(),
        "\n---"@,
        "\n\n"@,
        rule,
    );
}

proof fn lemma_proposal_text(task_id: TaskId, timestamp: nat, d: DirectiveModel)
    ensures
        proposal_file(task_id, timestamp, d) == "---\n"@ + (front_text(
            proposal_entries(task_id, timestamp, d),
        ) + ("\n---"@ + proposal_rest(d))),
{
    let hs = head_entries(task_id, timestamp, d);
    let h = front_text(hs);
    let es = proposal_entries(task_id, timestamp, d);
    match d {
        DirectiveModel::NoChange => {
            lemma_head_text(task_id, timestamp, d);
            lemma_rest_literals();
            assert(es =~= hs);
            lemma_plain_regroup("---\n"@, h, "\n"@, "---\n\nNo change suggested.\n"@);
        },
        DirectiveModel::RuleAppend { class, rule } => {
            lemma_kept_rule_text(task_id, timestamp, class, rule);
        },
        DirectiveModel::SkillNew { name, description, command } => {
            lemma_kept_skill_text(task_id, timestamp, name, description, command);
        },
    }
}

proof fn lemma_word_tidy(v: Seq<char>)
    requires
        forall|i: int| 0 <= i < v.len() ==> !chars::is_white(#[trigger] v[i]),
    ensures
        tidy(v),
{
    if v.len() > 0 {
        assert(!chars::is_white(v[0]));
        assert(!chars::is_white(v[v.len() - 1]));
    }
    assert(chars::trim_start(v) == v);
    assert(chars::trim_end(v) == v);
    assert forall|i: int| 0 <= i < v.len() implies #[trigger] v[i] != '\n' by {
        assert(!chars::is_white(v[i]));
    }
}

proof fn lemma_last_join(
    a: Seq<(Seq<char>, Seq<char>)>,
    b: Seq<(Seq<char>, Seq<char>)>,
    key: Seq<char>,
)
    ensures
        last_of(a + b, key) == (match last_of(b, key) {
            Some(v) => Some(v),
            None => last_of(a, key),
        }),
    decreases b.len(),
{
    if b.len() == 0 {
        assert(a + b =~= a);
    } else {
        assert((a + b).last() == b.last());
        assert((a + b).drop_last() =~= a + b.drop_last());
        lemma_last_join(a, b.drop_last(), key);
    }
}

proof fn lemma_three_fields(
    x: (Seq<char>, Seq<char>),
    y: (Seq<char>, Seq<char>),
    z: (Seq<char>, Seq<char>),
    key: Seq<char>,
)
    ensures
        last_of(seq![x, y, z], key) == (if z.0 == key {
            Some(z.1)
        } else if y.0 == key {
            Some(y.1)
        } else if x.0 == key {
            Some(x.1)
        } else {
            None
        }),
{
    let es = seq![x, y, z];
    let two = es.drop_last();
    let one = two.drop_last();
    assert(es.last() == z && two.last() == y && one.last() == x);
    assert(one.drop_last() =~= seq![]);
    assert(last_of(one.drop_last(), key) is None);
    assert(last_of(two, key) == (if y.0 == key {
        Some(y.1)
    } else {
        last_of(one, key)
    }));
}

/// The keys of proposals differ.
proof fn lemma_keys()
    ensures
        plain("task"@) && plain("created_at"@) && plain("kind"@) && plain("class"@),
        plain("skill_name"@) && plain("skill_description"@) && plain("skill_exec"@),
        "task"@.len() == 4 && "kind"@.len() == 4 && "class"@.len() == 5,
        "created_at"@.len() == 10 && "skill_name"@.len() == 10 && "skill_exec"@.len() == 10,
        "skill_description"@.len() == 17,
        "task"@[0] == 't' && "kind"@[0] == 'k',
        "created_at"@[0] == 'c' && "skill_name"@[0] == 's' && "skill_exec"@[0] == 's',
        "skill_name"@[6] == 'n' && "skill_exec"@[6] == 'e',
{
    reveal_strlit("task");
    reveal_strlit("created_at");
    reveal_strlit("kind");
    reveal_strlit("class");
    reveal_strlit("skill_name");
    reveal_strlit("skill_description");
    reveal_strlit("skill_exec");
}

/// The kinds and the class names stand on one line.
proof fn lemma_kinds_tidy(d: DirectiveModel, class: MessageClass)
    ensures
        tidy(d.kind_name()),
        tidy(class.name()),
        "no-change"@.len() == 9 && "rule-append"@.len() == 11 && "skill-new"@.len() == 9,
        "no-change"@[0] == 'n' && "skill-new"@[0] == 's',
{
    reveal_strlit("no-change");
    reveal_strlit("rule-append");
    reveal_strlit("skill-new");
    reveal_strlit("minihow");
    reveal_strlit("miniwhy");
    reveal_strlit("miniwhat");
    lemma_word_tidy(d.kind_name());
    lemma_word_tidy(class.name());
}

proof fn lemma_numbers_tidy(task_id: TaskId, timestamp: nat)
    ensures
        tidy(task_id.name()),
        tidy(numbers::decimal(timestamp)),
{
    reveal_strlit("t");
    numbers::lemma_decimal_digits(timestamp);
    numbers::lemma_decimal_digits(task_id.0 as nat);
    let s = numbers::decimal(timestamp);
    assert forall|i: int| 0 <= i < s.len() implies !chars::is_white(#[trigger] s[i]) by {}
    lemma_word_tidy(s);
    let n = task_id.name();
    assert forall|i: int| 0 <= i < n.len() implies !chars::is_white(#[trigger] n[i]) by {
        if i > 0 {
            assert(n[i] == numbers::decimal(task_id.0 as nat)[i - 1]);
        }
    }
    lemma_word_tidy(n);
}

proof fn lemma_proposal_tidy(task_id: TaskId, timestamp: nat, d: DirectiveModel)
    requires
        clean(d),
    ensures
        tidy_entries(proposal_entries(task_id, timestamp, d)),
{
    let es = proposal_entries(task_id, timestamp, d);
    let hs = head_entries(task_id, timestamp, d);
    let ks = kind_entries(d);
    lemma_keys();
    lemma_numbers_tidy(task_id, timestamp);
    lemma_kinds_tidy(d, MessageClass::MiniHow);
    assert(tidy_entries(hs));
    match d {
        DirectiveModel::NoChange => {},
        DirectiveModel::RuleAppend { class, rule } => {
            lemma_kinds_tidy(d, class);
            assert(tidy_entries(ks));
        },
        DirectiveModel::SkillNew { name, description, command } => {
            lemma_name_tidy(name);
            assert(tidy_entries(ks));
        },
    }
    assert forall|i: int| 0 <= i < es.len() implies plain((#[trigger] es[i]).0) && es[i].0.len() > 0
        && tidy(es[i].1) by {
        if i < hs.len() {
            assert(es[i] == hs[i]);
        } else {
            assert(es[i] == ks[i - hs.len()]);
        }
    }
}

/// The fields of a proposal are found by their keys.
proof fn lemma_proposal_fields(task_id: TaskId, timestamp: nat, d: DirectiveModel)
    requires
        clean(d),
    ensures
        ({
            let lines = entry_lines(proposal_entries(task_id, timestamp, d));
            &&& field_of(lines, "task"@) == Some(task_id.name())
            &&& field_of(lines, "created_at"@) == Some(numbers::decimal(timestamp))
            &&& field_of(lines, "kind"@) == Some(d.kind_name())
            &&& field_of(lines, "class"@) == (match d.class_named() {
                Some(class) => Some(class.name()),
                None => None,
            })
            &&& d matches DirectiveModel::SkillNew { name, description, command } ==> field_of(
                lines,
                "skill_name"@,
            ) == Some(name) && field_of(lines, "skill_description"@) == Some(description)
                && field_of(lines, "skill_exec"@) == Some(command)
        }),
{
    let es = proposal_entries(task_id, timestamp, d);
    let hs = head_entries(task_id, timestamp, d);
    let ks = kind_entries(d);
    lemma_proposal_tidy(task_id, timestamp, d);
    lemma_keys();
    let keys = seq![
        "task"@,
        "created_at"@,
        "kind"@,
        "class"@,
        "skill_name"@,
        "skill_description"@,
        "skill_exec"@,
    ];
    assert forall|i: int| 0 <= i < keys.len() implies field_of(
        entry_lines(es),
        #[trigger] keys[i],
    ) == (match last_of(ks, keys[i]) {
        Some(v) => Some(v),
        None => last_of(hs, keys[i]),
    }) by {
        frontmatter::lemma_front_fields(es, keys[i]);
        lemma_last_join(hs, ks, keys[i]);
    }
    assert forall|i: int| 0 <= i < keys.len() implies last_of(hs, #[trigger] keys[i]) == (if i == 0 {
        Some(task_id.name())
    } else if i == 1 {
        Some(numbers::decimal(timestamp))
    } else if i == 2 {
        Some(d.kind_name())
    } else {
        None
    }) by {
        lemma_three_fields(hs[0], hs[1], hs[2], keys[i]);
    }
    assert(keys[0] == "task"@ && keys[1] == "created_at"@ && keys[2] == "kind"@);
    assert(keys[3] == "class"@ && keys[4] == "skill_name"@);
    assert(keys[5] == "skill_description"@ && keys[6] == "skill_exec"@);
    match d {
        DirectiveModel::NoChange => {},
        DirectiveModel::RuleAppend { class, rule } => {
            assert(ks.last() == ks[0]);
            assert(ks.drop_last() =~= seq![]);
            assert(last_of(ks.drop_last(), keys[0]) is None);
            assert(last_of(ks.drop_last(), keys[1]) is None);
            assert(last_of(ks.drop_last(), keys[2]) is None);
            assert(last_of(ks, keys[0]) is None);
            assert(last_of(ks, keys[1]) is None);
            assert(last_of(ks, keys[2]) is None);
        },
        DirectiveModel::SkillNew { name, description, command } => {
            assert forall|i: int| 0 <= i < keys.len() implies last_of(ks, #[trigger] keys[i]) == (
            if i == 4 {
                Some(name)
            } else if i == 5 {
                Some(description)
            } else if i == 6 {
                Some(command)
            } else {
                None
            }) by {
                lemma_three_fields(ks[0], ks[1], ks[2], keys[i]);
            }
        },
    }
}

/// The rule is what stands behind the front matter.
proof fn lemma_rule_body(rule: Seq<char>)
    requires
        chars::trim(rule) == rule,
    ensures
        chars::trim(chars::drop_leading("\n\n"@ + rule + "\n"@, CharSet::Only('\n'))) == rule,
        rule.len() > 0 ==> chars::drop_leading("\n\n"@ + rule + "\n"@, CharSet::Only('\n')) == rule
            + "\n"@,
{
    reveal_strlit("\n\n");
    reveal_strlit("\n");
    let s = "\n\n"@ + rule + "\n"@;
    let set = CharSet::Only('\n');
    if rule.len() == 0 {
        assert forall|j: int| 0 <= j < s.len() implies set.has(#[trigger] s[j]) by {}
        chars::lemma_drop_leading_is(s, set, s.len() as int);
        assert(s.skip(s.len() as int) =~= rule);
    } else {
        frontmatter::lemma_trimmed_ends(rule);
        assert(s[2] == rule[0]);
        chars::lemma_drop_leading_is(s, set, 2);
        let body = rule + seq!['\n'];
        assert(s.skip(2) =~= body);
        assert(body[0] == rule[0]);
        assert(chars::trim_start(body) == body);
        assert(body[rule.len() - 1] == rule.last());
        chars::lemma_drop_trailing_is(body, CharSet::White, rule.len() as int);
        assert(body.take(rule.len() as int) =~= rule);
    }
}

proof fn lemma_row_found(rows: Seq<Row>, key: Seq<char>) -> (i: int)
    requires
        table::lookup(rows, key) is Some,
    ensures
        0 <= i < rows.len(),
        rows[i] == (key, table::lookup(rows, key)->0),
    decreases rows.len(),
{
    if rows[0].0 == key {
        assert(rows[0] == (key, rows[0].1));
        0
    } else {
        let j = lemma_row_found(rows.skip(1), key);
        assert(rows.skip(1)[j] == rows[j + 1]);
        j + 1
    }
}

proof fn lemma_row_listed(workspace: Seq<char>, rows: Seq<Row>, i: int)
    requires
        0 <= i < rows.len(),
        skills::is_markdown(rows[i].0),
        proposal_in(workspace, rows[i].0, rows[i].1) is Some,
    ensures
        proposals_in(workspace, rows).contains(
            proposal_in(workspace, rows[i].0, rows[i].1)->0,
        ),
    decreases rows.len(),
{
    let before = proposals_in(workspace, rows.drop_last());
    let all = proposals_in(workspace, rows);
    let p = proposal_in(workspace, rows[i].0, rows[i].1)->0;
    if i == rows.len() - 1 {
        assert(all.last() == p);
    } else {
        lemma_row_listed(workspace, rows.drop_last(), i);
        let j = before.index_of(p);
        assert(all[j] == p);
    }
}

/// Every proposal that is found under a name is on the list.
pub proof fn law_found_proposal_is_listed(store: StoreModel, id: Seq<char>)
    requires
        id.len() > 0,
        proposal_named(store, id) is Some,
    ensures
        proposals_in(store.workspace, store.proposals).contains(proposal_named(store, id)->0),
{
    let name = id + ".md"@;
    let i = lemma_row_found(store.proposals, name);
    reveal_strlit(".md");
    assert(name.skip(name.len() - 3) =~= ".md"@);
    lemma_row_listed(store.workspace, store.proposals, i);
}

proof fn lemma_name_at(workspace: Seq<char>, name: Seq<char>)
    ensures
        name_at(workspace, path_of(workspace, name)) == Some(name),
{
    reveal_strlit("");
    reveal_strlit("proposals");
    let dir = path_of(workspace, ""@);
    let path = path_of(workspace, name);
    assert(dir + name =~= path);
    assert(path.take(dir.len() as int) =~= dir);
    assert(path.skip(dir.len() as int) =~= name);
}

/// A proposal that was kept is found under its name and at the path where it was
/// kept, with its kind, its class, its task and the time it was made, and gives
/// back the suggestion. The body that is shown of a rule is the rule.
pub proof fn law_proposal_reads_back(
    store: StoreModel,
    task_id: TaskId,
    timestamp: u64,
    d: DirectiveModel,
)
    requires
        store.wf(),
        clean(d),
    ensures
        ({
            let kept = proposed(store, task_id, timestamp as nat, d);
            let id = proposal_id(task_id, timestamp as nat, d);
            proposal_named(kept, id) matches Some(p) && {
                &&& p.id == id
                &&& p.path == proposal_path(store, task_id, timestamp as nat, d)
                &&& p.kind == d.kind_name()
                &&& p.class == d.class_named()
                &&& p.task_id == Some(task_id)
                &&& p.created_at == timestamp
                &&& d matches DirectiveModel::RuleAppend { rule, .. } ==> (rule.len() > 0 ==> p.body
                    == rule + "\n"@)
                &&& kept_directive(kept, p) == Some(d)
                &&& dropped(kept, p).proposals == table::without(kept.proposals, id + ".md"@)
            }
        }),
{
    let at = timestamp as nat;
    let id = proposal_id(task_id, at, d);
    let path = id + ".md"@;
    let content = proposal_file(task_id, at, d);
    table::law_put_then_lookup(store.proposals, path, content, path);
    let es = proposal_entries(task_id, at, d);
    let rest = proposal_rest(d);
    lemma_proposal_text(task_id, at, d);
    lemma_proposal_tidy(task_id, at, d);
    frontmatter::lemma_front_found(es, rest);
    frontmatter::lemma_front_lines(es);
    lemma_proposal_fields(task_id, at, d);
    let after = front_text(es) + ("\n---"@ + rest);
    assert(content.take("---\n"@.len() as int) =~= "---\n"@);
    assert(content.skip("---\n"@.len() as int) =~= after);
    let body = chars::drop_leading(rest, CharSet::Only('\n'));
    assert(front_and_body(content) == Some((front_text(es), body)));
    reveal_strlit(".md");
    reveal_strlit("-");
    reveal_strlit("-t");
    assert(path.skip(path.len() - 3) =~= ".md"@);
    assert(path.take(path.len() - 3) =~= id);
    assert(stem(path) == id);
    lemma_name_at(store.workspace, path);
    numbers::law_decimal_round_trip(at, u64::MAX as nat);
    numbers::law_decimal_round_trip(task_id.0 as nat, u64::MAX as nat);
    reveal_strlit("t");
    assert(task_id.name().take(1) =~= "t"@);
    assert(task_id.name().skip(1) =~= numbers::decimal(task_id.0 as nat));
    lemma_kinds_tidy(d, MessageClass::MiniHow);
    match d {
        DirectiveModel::NoChange => {},
        DirectiveModel::RuleAppend { class, rule } => {
            lemma_rule_body(rule);
            crate::types::law_class_labels(class);
        },
        DirectiveModel::SkillNew { name, description, command } => {},
    }
}

}
