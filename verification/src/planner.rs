//! Plans: which orchestration pattern a task gets, and which step it starts
//! with, decided locally where the words are plain and by a model otherwise.
use vstd::prelude::*;

use crate::chars;
use crate::chars::CharSet;
use crate::foreign;
use crate::foreign::unicode_alphanumeric;
use crate::llm::{single_turn_system, LlmClient, Turn};
use crate::memory::{ProgressiveMemory, ProgressiveModel};
use crate::memory::top;
use crate::skills;
use crate::skills::{overlap, skill_index, skill_named, Skill, SkillModel, SkillRegistry};
use crate::text;
use crate::types::{
    AgentPattern, MessageClass, Plan, PlanStep, PlanStepKind, StepModel, StepStatus, Task,
};

verus! {

/// A model was asked one question and gave the reply.
pub open spec fn asked<L: LlmClient>(
    pre: L,
    post: L,
    prompt: Seq<char>,
    reply: Seq<char>,
) -> bool {
    L::replied(pre, post, single_turn_system(), seq![Turn::user(prompt)], reply)
}

// ---------------------------------------------------------------------------
// Patterns
// ---------------------------------------------------------------------------

/// The pattern that a slash command fixes.
pub open spec fn pattern_of_command(input: Seq<char>) -> Option<AgentPattern> {
    let t = chars::trim_start(input);
    if chars::starts_with(t, "/pipeline"@) {
        Some(AgentPattern::Pipeline)
    } else if chars::starts_with(t, "/map"@) || chars::starts_with(t, "/reduce"@) {
        Some(AgentPattern::MapReduce)
    } else if chars::starts_with(t, "/exec"@) {
        Some(AgentPattern::HubAndSpoke)
    } else if chars::starts_with(t, "/read"@) || chars::starts_with(t, "/ls"@) || t == "/help"@ {
        Some(AgentPattern::Direct)
    } else {
        None
    }
}

/// The pattern that the words of a task suggest.
pub open spec fn pattern_of_words(input: Seq<char>) -> AgentPattern {
    let l = chars::lower(input);
    if chars::contains(l, "map reduce"@) || chars::contains(l, "map-reduce"@) || (chars::count(
        input,
        '|',
    ) >= 2 && (chars::contains(l, "summarize"@) || chars::contains(l, "compare"@)
        || chars::contains(l, "classify"@))) {
        AgentPattern::MapReduce
    } else if chars::contains(l, "pipeline"@) || chars::contains(l, "then"@) || chars::contains(
        l,
        "step by step"@,
    ) || chars::contains(l, "refine"@) {
        AgentPattern::Pipeline
    } else if chars::contains(l, "run command"@) || chars::contains(l, "execute"@)
        || chars::contains(l, "install"@) || chars::contains(l, "delete"@) {
        AgentPattern::HubAndSpoke
    } else if chars::contains(l, "delegate"@) || chars::contains(l, "worker"@) || chars::contains(
        l,
        "investigate"@,
    ) || chars::contains(l, "implement"@) {
        AgentPattern::CoordinatorWorker
    } else {
        AgentPattern::Direct
    }
}

/// The task asks for something that changes the machine.
pub open spec fn is_risky(input: Seq<char>) -> bool {
    let l = chars::lower(input);
    ||| chars::contains(l, "run a local command"@)
    ||| chars::contains(l, "run command"@)
    ||| chars::contains(l, "execute"@)
    ||| chars::contains(l, "install"@)
    ||| chars::contains(l, "delete"@)
    ||| chars::contains(l, "overwrite"@)
    ||| chars::contains(l, "sudo"@)
}

/// A risky task is never run directly.
pub open spec fn validated(input: Seq<char>, selected: AgentPattern) -> AgentPattern {
    if is_risky(input) && selected == AgentPattern::Direct {
        AgentPattern::HubAndSpoke
    } else {
        selected
    }
}

/// The pattern with a name.
pub open spec fn pattern_named(v: Seq<char>) -> Option<AgentPattern> {
    if v == "direct"@ {
        Some(AgentPattern::Direct)
    } else if v == "coordinator-worker"@ || v == "coordinator_worker"@ || v
        == "coordinator worker"@ {
        Some(AgentPattern::CoordinatorWorker)
    } else if v == "hub-and-spoke"@ || v == "hub_and_spoke"@ || v == "hub and spoke"@ {
        Some(AgentPattern::HubAndSpoke)
    } else if v == "pipeline"@ {
        Some(AgentPattern::Pipeline)
    } else if v == "map-reduce"@ || v == "map_reduce"@ || v == "map reduce"@ {
        Some(AgentPattern::MapReduce)
    } else {
        None
    }
}

/// A line without surrounding punctuation, in lower case.
pub open spec fn bare(line: Seq<char>) -> Seq<char> {
    chars::lower(chars::trim(chars::trim_set(chars::trim(line), CharSet::Punctuation)))
}

/// The pattern that a line names, behind `pattern:` or alone.
pub open spec fn pattern_in_line(line: Seq<char>) -> Option<AgentPattern> {
    let b = bare(line);
    match chars::after_prefix(b, "pattern"@) {
        Some(rest) => match chars::after_prefix(chars::trim(rest), ":"@) {
            Some(value) => pattern_named(chars::trim(value)),
            None => pattern_named(b),
        },
        None => pattern_named(b),
    }
}

/// The pattern of the first line that names one.
pub open spec fn pattern_in_lines(lines: Seq<Seq<char>>) -> Option<AgentPattern>
    decreases lines.len(),
{
    if lines.len() == 0 {
        None
    } else {
        match pattern_in_line(lines[0]) {
            Some(p) => Some(p),
            None => pattern_in_lines(lines.skip(1)),
        }
    }
}

/// The pattern that a reply names in its first eight lines.
pub open spec fn pattern_in(reply: Seq<char>) -> Option<AgentPattern> {
    pattern_in_lines(top(chars::lines(reply), 8))
}

/// The pattern of a task once a model has replied: the one that the reply names,
/// else the one that the words suggest, and never a direct run of a risky task.
pub open spec fn pattern_after(input: Seq<char>, reply: Seq<char>) -> AgentPattern {
    validated(
        input,
        match pattern_in(reply) {
            Some(p) => p,
            None => pattern_of_words(input),
        },
    )
}

/// What a model is asked about the pattern of a task.
pub open spec fn pattern_question(input: Seq<char>, memory: ProgressiveModel) -> Seq<char> {
    PATTERN_QUESTION@ + memory.rendered() + "\nTask:\n"@ + input
}

/// The question about the pattern, before the memory and the task.
pub const PATTERN_QUESTION: &'static str = "Choose exactly one orchestration pattern for this \
task.
Allowed values:
direct
coordinator-worker
hub-and-spoke
pipeline
map-reduce

Rules:
direct = simple answer or one local read/list operation
coordinator-worker = normal delegated work with a worker sub-agent
hub-and-spoke = risky local tool work or gateway-controlled execution
pipeline = ordered transform/refine stages
map-reduce = independent items that should be mapped then reduced

Reply with only the allowed value.
";

pub fn local_pattern(input: &str) -> (r: Option<AgentPattern>)
    ensures
        r == pattern_of_command(input@),
{
    let t = text::trim_start(input);
    if text::starts_with(t, "/pipeline") {
        Some(AgentPattern::Pipeline)
    } else if text::starts_with(t, "/map") || text::starts_with(t, "/reduce") {
        Some(AgentPattern::MapReduce)
    } else if text::starts_with(t, "/exec") {
        Some(AgentPattern::HubAndSpoke)
    } else if text::starts_with(t, "/read") || text::starts_with(t, "/ls") || text::same(
        t,
        "/help",
    ) {
        Some(AgentPattern::Direct)
    } else {
        None
    }
}

pub fn heuristic_pattern(input: &str) -> (r: AgentPattern)
    ensures
        r == pattern_of_words(input@),
{
    let lowered = text::lower(input);
    let l = lowered.as_str();
    if text::contains(l, "map reduce") || text::contains(l, "map-reduce") || (text::count(
        input,
        '|',
    ) >= 2 && (text::contains(l, "summarize") || text::contains(l, "compare") || text::contains(
        l,
        "classify",
    ))) {
        AgentPattern::MapReduce
    } else if text::contains(l, "pipeline") || text::contains(l, "then") || text::contains(
        l,
        "step by step",
    ) || text::contains(l, "refine") {
        AgentPattern::Pipeline
    } else if text::contains(l, "run command") || text::contains(l, "execute") || text::contains(
        l,
        "install",
    ) || text::contains(l, "delete") {
        AgentPattern::HubAndSpoke
    } else if text::contains(l, "delegate") || text::contains(l, "worker") || text::contains(
        l,
        "investigate",
    ) || text::contains(l, "implement") {
        AgentPattern::CoordinatorWorker
    } else {
        AgentPattern::Direct
    }
}

pub fn validate_pattern(input: &str, selected: AgentPattern) -> (r: AgentPattern)
    ensures
        r == validated(input@, selected),
{
    let lowered = text::lower(input);
    let l = lowered.as_str();
    let risky = text::contains(l, "run a local command") || text::contains(l, "run command")
        || text::contains(l, "execute") || text::contains(l, "install") || text::contains(
        l,
        "delete",
    ) || text::contains(l, "overwrite") || text::contains(l, "sudo");
    if risky && selected == AgentPattern::Direct {
        AgentPattern::HubAndSpoke
    } else {
        selected
    }
}

fn name_to_pattern(v: &str) -> (r: Option<AgentPattern>)
    ensures
        r == pattern_named(v@),
{
    if text::same(v, "direct") {
        Some(AgentPattern::Direct)
    } else if text::same(v, "coordinator-worker") || text::same(v, "coordinator_worker")
        || text::same(v, "coordinator worker") {
        Some(AgentPattern::CoordinatorWorker)
    } else if text::same(v, "hub-and-spoke") || text::same(v, "hub_and_spoke") || text::same(
        v,
        "hub and spoke",
    ) {
        Some(AgentPattern::HubAndSpoke)
    } else if text::same(v, "pipeline") {
        Some(AgentPattern::Pipeline)
    } else if text::same(v, "map-reduce") || text::same(v, "map_reduce") || text::same(
        v,
        "map reduce",
    ) {
        Some(AgentPattern::MapReduce)
    } else {
        None
    }
}

fn parse_pattern_line(line: &str) -> (r: Option<AgentPattern>)
    ensures
        r == pattern_in_line(line@),
{
    let b = text::lower(text::trim(text::trim_set(text::trim(line), CharSet::Punctuation)));
    match text::after_prefix(b.as_str(), "pattern") {
        Some(rest) => match text::after_prefix(text::trim(rest), ":") {
            Some(value) => name_to_pattern(text::trim(value)),
            None => name_to_pattern(b.as_str()),
        },
        None => name_to_pattern(b.as_str()),
    }
}

/// The pattern that a reply names in its first eight lines.
pub fn parse_pattern(reply: &str) -> (r: Option<AgentPattern>)
    ensures
        r == pattern_in(reply@),
{
    let lines = text::lines(reply);
    let ghost all = top(chars::texts(lines@), 8);
    let mut i: usize = 0;
    assert(all.skip(0) =~= all);
    while i < lines.len() && i < 8
        invariant
            i <= all.len(),
            all == top(chars::texts(lines@), 8),
            all == top(chars::lines(reply@), 8),
            pattern_in_lines(all) == pattern_in_lines(all.skip(i as int)),
        decreases all.len() - i,
    {
        assert(all.skip(i as int).skip(1) =~= all.skip(i + 1));
        assert(all.skip(i as int)[0] == lines@[i as int]@);
        match parse_pattern_line(lines[i]) {
            Some(p) => {
                return Some(p);
            },
            None => {},
        }
        i += 1;
    }
    None
}

fn pattern_selection_prompt(input: &str, memory: &ProgressiveMemory) -> (r: String)
    ensures
        r@ == pattern_question(input@, memory@),
{
    let mut out = PATTERN_QUESTION.to_owned();
    out.append(memory.render().as_str());
    out.append("\nTask:\n");
    out.append(input);
    out
}

/// The pattern of a task once a model has replied.
pub fn pattern_for_reply(input: &str, reply: &str) -> (r: AgentPattern)
    ensures
        r == pattern_after(input@, reply@),
{
    let selected = match parse_pattern(reply) {
        Some(p) => p,
        None => heuristic_pattern(input),
    };
    validate_pattern(input, selected)
}

// ---------------------------------------------------------------------------
// Words
// ---------------------------------------------------------------------------

/// Words that name no file and tell nothing about a skill.
pub open spec fn is_stop(w: Seq<char>) -> bool {
    ||| w == "the"@ || w == "a"@ || w == "an"@ || w == "all"@ || w == "file"@ || w == "files"@
    ||| w == "dir"@ || w == "directory"@ || w == "folder"@ || w == "folders"@ || w == "in"@ || w == "of"@
    ||| w == "for"@ || w == "at"@ || w == "to"@ || w == "from"@ || w == "about"@ || w == "with"@
    ||| w == "on"@ || w == "by"@ || w == "as"@ || w == "into"@ || w == "through"@ || w == "please"@
    ||| w == "me"@ || w == "my"@ || w == "here"@ || w == "there"@ || w == "this"@ || w == "that"@
    ||| w == "it"@ || w == "them"@ || w == "they"@ || w == "him"@ || w == "her"@ || w == "us"@
    ||| w == "you"@ || w == "we"@ || w == "and"@ || w == "or"@ || w == "is"@ || w == "are"@
    ||| w == "was"@ || w == "were"@ || w == "be"@ || w == "been"@ || w == "have"@ || w == "has"@
    ||| w == "had"@ || w == "do"@ || w == "does"@ || w == "did"@ || w == "will"@ || w == "would"@
    ||| w == "can"@ || w == "could"@ || w == "should"@ || w == "may"@ || w == "might"@ || w == "must"@
    ||| w == "shall"@
}

pub fn is_stop_word(word: &str) -> (r: bool)
    ensures
        r == is_stop(chars::lower(word@)),
{
    let lowered = text::lower(word);
    let w = lowered.as_str();
    text::same(w, "the") || text::same(w, "a") || text::same(w, "an")
        || text::same(w, "all") || text::same(w, "file") || text::same(w, "files")
        || text::same(w, "dir") || text::same(w, "directory") || text::same(w, "folder")
        || text::same(w, "folders") || text::same(w, "in") || text::same(w, "of")
        || text::same(w, "for") || text::same(w, "at") || text::same(w, "to")
        || text::same(w, "from") || text::same(w, "about") || text::same(w, "with")
        || text::same(w, "on") || text::same(w, "by") || text::same(w, "as")
        || text::same(w, "into") || text::same(w, "through") || text::same(w, "please")
        || text::same(w, "me") || text::same(w, "my") || text::same(w, "here")
        || text::same(w, "there") || text::same(w, "this") || text::same(w, "that")
        || text::same(w, "it") || text::same(w, "them") || text::same(w, "they")
        || text::same(w, "him") || text::same(w, "her") || text::same(w, "us")
        || text::same(w, "you") || text::same(w, "we") || text::same(w, "and")
        || text::same(w, "or") || text::same(w, "is") || text::same(w, "are")
        || text::same(w, "was") || text::same(w, "were") || text::same(w, "be")
        || text::same(w, "been") || text::same(w, "have") || text::same(w, "has")
        || text::same(w, "had") || text::same(w, "do") || text::same(w, "does")
        || text::same(w, "did") || text::same(w, "will") || text::same(w, "would")
        || text::same(w, "can") || text::same(w, "could") || text::same(w, "should")
        || text::same(w, "may") || text::same(w, "might") || text::same(w, "must")
        || text::same(w, "shall")
}

/// The words of three characters or more that are no stop words.
pub open spec fn is_meaningful() -> spec_fn(Seq<char>) -> bool {
    |w: Seq<char>| w.len() >= 3 && !is_stop(w)
}

/// The meaningful words of a text, in lower case.
pub open spec fn meaningful_words(s: Seq<char>) -> Seq<Seq<char>> {
    chars::pieces(chars::lower(s), CharSet::NotAlphanumeric).filter(is_meaningful())
}

/// A skill may be called for an input that shares a meaningful word with its
/// name or description.
pub open spec fn skill_fits(input: Seq<char>, skill: SkillModel) -> bool {
    overlap(meaningful_words(input), meaningful_words(skill.name + " "@ + skill.description))
}

/// A word with a separator, or with a dot inside.
pub open spec fn names_file(w: Seq<char>) -> bool {
    chars::contains(w, "/"@) || chars::contains(w, "\\"@) || (match chars::last_index(w, '.') {
        Some(i) => 0 < i && i < w.len() - 1,
        None => false,
    })
}

/// Letters and digits of any script, hyphens and underscores.
pub open spec fn is_plain_name(w: Seq<char>) -> bool {
    forall|i: int|
        0 <= i < w.len() ==> unicode_alphanumeric(#[trigger] w[i]) || w[i] == '-' || w[i] == '_'
}

/// A word that can name a path: one that names a file, or a plain name that is
/// no stop word.
pub open spec fn names_path(w: Seq<char>) -> bool {
    w.len() > 0 && (names_file(w) || (is_plain_name(w) && !is_stop(chars::lower(w))))
}

/// The words that can name a path.
pub open spec fn path_names() -> spec_fn(Seq<char>) -> bool {
    |w: Seq<char>| names_path(w)
}

/// The words that name a file.
pub open spec fn file_names() -> spec_fn(Seq<char>) -> bool {
    |w: Seq<char>| names_file(w)
}

/// The first word of a kind.
pub open spec fn first_of(words: Seq<Seq<char>>, kind: spec_fn(Seq<char>) -> bool) -> Option<
    Seq<char>,
>
    decreases words.len(),
{
    if words.len() == 0 {
        None
    } else if kind(words[0]) {
        Some(words[0])
    } else {
        first_of(words.skip(1), kind)
    }
}

fn meaningful_terms(s: &str) -> (r: Vec<String>)
    ensures
        chars::owned_texts(r@) == meaningful_words(s@),
{
    let lowered = text::lower(s);
    let parts = text::pieces(lowered.as_str(), CharSet::NotAlphanumeric);
    let ghost all = chars::texts(parts@);
    let mut out: Vec<String> = Vec::new();
    let mut i: usize = 0;
    proof {
        reveal(Seq::filter);
        assert(all.take(0) =~= Seq::empty());
        assert(chars::owned_texts(out@) =~= Seq::empty());
        lemma_lower_again(s@);
    }
    while i < parts.len()
        invariant
            i <= parts.len(),
            all == chars::texts(parts@),
            all == chars::pieces(chars::lower(s@), CharSet::NotAlphanumeric),
            forall|k: int| 0 <= k < all.len() ==> chars::lower(#[trigger] all[k]) == all[k],
            chars::owned_texts(out@) == all.take(i as int).filter(is_meaningful()),
        decreases parts.len() - i,
    {
        proof {
            reveal(Seq::filter);
            assert(all.take(i + 1).drop_last() =~= all.take(i as int));
        }
        let part = parts[i];
        assert(all[i as int] == part@);
        if part.unicode_len() >= 3 && !is_stop_word(part) {
            let ghost before = chars::owned_texts(out@);
            out.push(part.to_owned());
            assert(chars::owned_texts(out@) =~= before.push(part@));
        }
        i += 1;
    }
    assert(all.take(i as int) =~= all);
    out
}

/// The parts of a text in lower case are in lower case.
proof fn lemma_lower_again(s: Seq<char>)
    ensures
        forall|k: int|
            0 <= k < chars::pieces(chars::lower(s), CharSet::NotAlphanumeric).len()
                ==> chars::lower(
                #[trigger] chars::pieces(chars::lower(s), CharSet::NotAlphanumeric)[k],
            ) == chars::pieces(chars::lower(s), CharSet::NotAlphanumeric)[k],
{
    let l = chars::lower(s);
    assert forall|i: int| 0 <= i < l.len() implies chars::lower_char(#[trigger] l[i]) == l[i] by {}
    lemma_lower_pieces(l);
}

proof fn lemma_lower_pieces(l: Seq<char>)
    requires
        forall|i: int| 0 <= i < l.len() ==> chars::lower_char(#[trigger] l[i]) == l[i],
    ensures
        forall|k: int|
            0 <= k < chars::pieces(l, CharSet::NotAlphanumeric).len() ==> chars::lower(
                #[trigger] chars::pieces(l, CharSet::NotAlphanumeric)[k],
            ) == chars::pieces(l, CharSet::NotAlphanumeric)[k],
    decreases l.len(),
{
    let set = CharSet::NotAlphanumeric;
    let i = chars::until(l, set) as int;
    let all = chars::pieces(l, set);
    if i >= l.len() {
        assert(chars::lower(l) =~= l);
    } else {
        let rest = l.skip(i + 1);
        lemma_lower_pieces(rest);
        assert(chars::lower(l.take(i)) =~= l.take(i));
        assert forall|k: int| 0 <= k < all.len() implies chars::lower(#[trigger] all[k])
            == all[k] by {
            if k > 0 {
                assert(all[k] == chars::pieces(rest, set)[k - 1]);
            }
        }
    }
}

/// Whether a skill may be called for an input.
pub fn skill_allowed_for_input(input: &str, skill: &Skill) -> (r: bool)
    ensures
        r == skill_fits(input@, skill@),
{
    let mut line = skill.name.clone();
    line.append(" ");
    line.append(skill.description.as_str());
    skills::share_word(&meaningful_terms(input), &meaningful_terms(line.as_str()))
}

fn looks_like_file_path(w: &str) -> (r: bool)
    ensures
        r == names_file(w@),
{
    if text::contains(w, "/") || text::contains(w, "\\") {
        return true;
    }
    match text::last_index(w, '.') {
        Some(i) => 0 < i && i < w.unicode_len() - 1,
        None => false,
    }
}

fn plain_name(w: &str) -> (r: bool)
    ensures
        r == is_plain_name(w@),
{
    let v = text::chars_of(w);
    let mut i: usize = 0;
    while i < v.len()
        invariant
            i <= v.len(),
            v@ == w@,
            forall|k: int|
                0 <= k < i ==> unicode_alphanumeric(#[trigger] w@[k]) || w@[k] == '-' || w@[k]
                    == '_',
        decreases v.len() - i,
    {
        let c = v[i];
        if !(foreign::is_unicode_alphanumeric(c) || c == '-' || c == '_') {
            assert(w@[i as int] == c);
            return false;
        }
        i += 1;
    }
    true
}

fn is_path_like(w: &str) -> (r: bool)
    ensures
        r == names_path(w@),
{
    w.unicode_len() > 0 && (looks_like_file_path(w) || (plain_name(w) && !is_stop_word(w)))
}

fn first_path_token<'a>(tokens: &Vec<&'a str>) -> (r: Option<&'a str>)
    requires
        tokens@.len() > 0,
    ensures
        match r {
            Some(t) => first_of(chars::texts(tokens@).skip(1), path_names()) == Some(t@),
            None => first_of(chars::texts(tokens@).skip(1), path_names()) is None,
        },
{
    let ghost all = chars::texts(tokens@);
    let mut i: usize = 1;
    while i < tokens.len()
        invariant
            1 <= i <= tokens.len(),
            all == chars::texts(tokens@),
            first_of(all.skip(1), path_names()) == first_of(all.skip(i as int), path_names()),
        decreases tokens.len() - i,
    {
        assert(all.skip(i as int).skip(1) =~= all.skip(i + 1));
        assert(all.skip(i as int)[0] == tokens@[i as int]@);
        if is_path_like(tokens[i]) {
            return Some(tokens[i]);
        }
        i += 1;
    }
    assert(all.skip(i as int).len() == 0);
    None
}

fn first_file_token<'a>(tokens: &Vec<&'a str>) -> (r: Option<&'a str>)
    requires
        tokens@.len() > 0,
    ensures
        match r {
            Some(t) => first_of(chars::texts(tokens@).skip(1), file_names()) == Some(t@),
            None => first_of(chars::texts(tokens@).skip(1), file_names()) is None,
        },
{
    let ghost all = chars::texts(tokens@);
    let mut i: usize = 1;
    while i < tokens.len()
        invariant
            1 <= i <= tokens.len(),
            all == chars::texts(tokens@),
            first_of(all.skip(1), file_names()) == first_of(all.skip(i as int), file_names()),
        decreases tokens.len() - i,
    {
        assert(all.skip(i as int).skip(1) =~= all.skip(i + 1));
        assert(all.skip(i as int)[0] == tokens@[i as int]@);
        if looks_like_file_path(tokens[i]) {
            return Some(tokens[i]);
        }
        i += 1;
    }
    assert(all.skip(i as int).len() == 0);
    None
}

// ---------------------------------------------------------------------------
// Steps
// ---------------------------------------------------------------------------

/// The step that a phrase asks for: listing, reading or running something.
pub open spec fn natural_action(input: Seq<char>) -> Option<StepModel> {
    let tokens = chars::words(input);
    if tokens.len() == 0 {
        None
    } else {
        let verb = chars::lower(tokens[0]);
        if verb == "list"@ || verb == "ls"@ {
            Some(
                StepModel::ListDir(
                    match first_of(tokens.skip(1), path_names()) {
                        Some(p) => p,
                        None => "."@,
                    },
                ),
            )
        } else if verb == "read"@ || verb == "cat"@ {
            match first_of(tokens.skip(1), file_names()) {
                Some(p) => Some(StepModel::ReadFile(p)),
                None => None,
            }
        } else if verb == "run"@ || verb == "exec"@ || verb == "execute"@ {
            command_in(behind_stops(tokens.skip(1)))
        } else {
            None
        }
    }
}

/// The words from the first on that is no stop word.
pub open spec fn behind_stops(words: Seq<Seq<char>>) -> Seq<Seq<char>>
    decreases words.len(),
{
    if words.len() > 0 && is_stop(chars::lower(words[0])) {
        behind_stops(words.skip(1))
    } else {
        words
    }
}

/// The program that the words start with, run with the rest of them.
pub open spec fn command_in(words: Seq<Seq<char>>) -> Option<StepModel> {
    if words.len() == 0 {
        None
    } else {
        Some(StepModel::Exec { program: words[0], args: words.skip(1) })
    }
}

/// The step that an input fixes without a model: a slash command, a request for
/// help, or a plain phrase.
pub open spec fn local_intent(input: Seq<char>) -> Option<StepModel> {
    let parts = chars::words(input);
    if parts.len() == 0 {
        None
    } else {
        let head = parts[0];
        let rest = chars::join(parts.skip(1), " "@);
        if head == "/read"@ {
            Some(StepModel::ReadFile(rest))
        } else if head == "/ls"@ {
            Some(
                StepModel::ListDir(
                    if rest.len() == 0 {
                        "."@
                    } else {
                        rest
                    },
                ),
            )
        } else if head == "/exec"@ {
            command_in(parts.skip(1))
        } else if head == "/help"@ || head == "help"@ {
            Some(StepModel::Answer(HELP_TEXT@))
        } else {
            natural_action(input)
        }
    }
}

/// The commands, one on each line.
pub const HELP_TEXT: &'static str = "minipaw commands:
run                         start interactive agent
task new <text>             create and run a task
telegram run                poll Telegram and answer paired chats
task list                   list tasks
memory get <key>            read memory
memory set <key> <value>    write memory
gateway run                 run foreground gateway
gateway simulate            wait for simulated channel/agent messages
onboarding                  configure model and channel
uninstall                   remove minipaw install
config check                validate config
config telegram set ...     configure Telegram bot
config telegram pair <id>   allow one Telegram chat
config telegram unpair <id> remove one Telegram chat
config telegram show        show Telegram bot config
/ls [path]                  list directory
/read <path>                read capped file
/exec <program> [args...]   run allowlisted command
/enqueue <task>             queue a task for heartbeat tick
/tick                       run one loop tick
/heartbeat                  show loop heartbeat
/pipeline a | b | c         run pipeline stages
/mapreduce goal | a | b     run map-reduce supervisor";

pub fn help_text() -> (r: String)
    ensures
        r@ == HELP_TEXT@,
{
    HELP_TEXT.to_owned()
}

/// The contents of an optional step.
pub open spec fn opt_step(k: Option<PlanStepKind>) -> Option<StepModel> {
    match k {
        Some(x) => Some(x@),
        None => None,
    }
}

fn exec_step(tokens: &Vec<&str>, from: usize) -> (r: Option<PlanStepKind>)
    requires
        from <= tokens@.len(),
    ensures
        opt_step(r) == command_in(chars::texts(tokens@).skip(from as int)),
{
    if from == tokens.len() {
        return None;
    }
    let ghost words = chars::texts(tokens@).skip(from as int);
    assert(words[0] == tokens@[from as int]@);
    assert(words.skip(1) =~= chars::texts(tokens@).skip(from + 1));
    Some(
        PlanStepKind::Exec {
            program: tokens[from].to_owned(),
            args: text::to_owned_all(tokens, from + 1),
        },
    )
}

fn first_program(tokens: &Vec<&str>) -> (r: usize)
    requires
        tokens@.len() > 0,
    ensures
        r <= tokens@.len(),
        chars::texts(tokens@).skip(r as int) == behind_stops(chars::texts(tokens@).skip(1)),
{
    let ghost all = chars::texts(tokens@);
    let mut i: usize = 1;
    while i < tokens.len() && is_stop_word(tokens[i])
        invariant
            1 <= i <= tokens.len(),
            all == chars::texts(tokens@),
            behind_stops(all.skip(1)) == behind_stops(all.skip(i as int)),
        decreases tokens.len() - i,
    {
        assert(all.skip(i as int).skip(1) =~= all.skip(i + 1));
        assert(all.skip(i as int)[0] == tokens@[i as int]@);
        i += 1;
    }
    assert(i < tokens.len() ==> all.skip(i as int)[0] == tokens@[i as int]@);
    i
}

/// The step that a phrase asks for.
pub fn parse_natural_action(input: &str) -> (r: Option<PlanStepKind>)
    ensures
        opt_step(r) == natural_action(input@),
{
    let tokens = text::words(input);
    assert(chars::texts(tokens@).len() == tokens@.len());
    if tokens.len() == 0 {
        return None;
    }
    assert(chars::texts(tokens@)[0] == tokens@[0]@);
    let lowered = text::lower(tokens[0]);
    let verb = lowered.as_str();
    if text::same(verb, "list") || text::same(verb, "ls") {
        let path = match first_path_token(&tokens) {
            Some(p) => p,
            None => ".",
        };
        Some(PlanStepKind::ListDir(path.to_owned()))
    } else if text::same(verb, "read") || text::same(verb, "cat") {
        match first_file_token(&tokens) {
            Some(p) => Some(PlanStepKind::ReadFile(p.to_owned())),
            None => None,
        }
    } else if text::same(verb, "run") || text::same(verb, "exec") || text::same(verb, "execute") {
        exec_step(&tokens, first_program(&tokens))
    } else {
        None
    }
}

fn rest_of(tokens: &Vec<&str>) -> (r: String)
    requires
        tokens@.len() > 0,
    ensures
        r@ == chars::join(chars::texts(tokens@).skip(1), " "@),
{
    text::join_owned(&text::to_owned_all(tokens, 1), " ")
}

/// The step that an input fixes without a model.
pub fn parse_local_intent(input: &str) -> (r: Option<PlanStepKind>)
    ensures
        opt_step(r) == local_intent(input@),
{
    let parts = text::words(input);
    assert(chars::texts(parts@).len() == parts@.len());
    if parts.len() == 0 {
        return None;
    }
    assert(chars::texts(parts@)[0] == parts@[0]@);
    let head = parts[0];
    if text::same(head, "/read") {
        Some(PlanStepKind::ReadFile(rest_of(&parts)))
    } else if text::same(head, "/ls") {
        let path = rest_of(&parts);
        if path.as_str().unicode_len() == 0 {
            Some(PlanStepKind::ListDir(".".to_owned()))
        } else {
            Some(PlanStepKind::ListDir(path))
        }
    } else if text::same(head, "/exec") {
        exec_step(&parts, 1)
    } else if text::same(head, "/help") || text::same(head, "help") {
        Some(PlanStepKind::Answer(help_text()))
    } else {
        parse_natural_action(input)
    }
}

/// The name behind `skill:` on the first line that starts with it.
pub open spec fn called_skill(lines: Seq<Seq<char>>) -> Option<Seq<char>>
    decreases lines.len(),
{
    if lines.len() == 0 {
        None
    } else {
        let t = chars::trim(lines[0]);
        if chars::starts_with(chars::lower(t), "skill:"@) {
            Some(chars::trim(t.skip(6)))
        } else {
            called_skill(lines.skip(1))
        }
    }
}

/// The step of a skill that a reply calls in its first four lines: the skill is
/// registered, fits the input and has a command.
pub open spec fn skill_call(
    input: Seq<char>,
    reply: Seq<char>,
    registry: Seq<SkillModel>,
) -> Option<StepModel> {
    match called_skill(top(chars::lines(reply), 4)) {
        Some(name) => match skill_named(registry, name) {
            Some(skill) => match skill.command {
                Some(command) => if skill_fits(input, skill) && chars::words(command).len() > 0 {
                    Some(
                        StepModel::Exec {
                            program: chars::words(command)[0],
                            args: chars::words(command).skip(1),
                        },
                    )
                } else {
                    None
                },
                None => None,
            },
            None => None,
        },
        None => None,
    }
}

/// The step for a model's reply: the skill that it calls, else the reply itself.
pub open spec fn step_after(
    input: Seq<char>,
    reply: Seq<char>,
    registry: Seq<SkillModel>,
) -> StepModel {
    match skill_call(input, reply, registry) {
        Some(step) => step,
        None => StepModel::Answer(reply),
    }
}

/// What a model is told about skills, nothing where there are none.
pub open spec fn skills_section(registry: Seq<SkillModel>) -> Seq<char> {
    if skill_index(registry).len() == 0 {
        seq![]
    } else {
        "\n"@ + skill_index(registry)
            + "If a skill matches what is needed, respond with exactly:\nSKILL: <skill-name>\nOtherwise answer directly.\n"@
    }
}

/// The opening of a planner's prompt under a pattern.
pub open spec fn prompt_opening(pattern: AgentPattern) -> Seq<char> {
    match pattern {
        AgentPattern::Direct => ""@,
        AgentPattern::CoordinatorWorker =>
        "You are a worker sub-agent. Use progressive memory only as needed.\n"@,
        AgentPattern::HubAndSpoke =>
        "You are behind a gateway in a hub-and-spoke agent. Use memory index first, details second.\n"@,
        AgentPattern::Pipeline => "Produce the next pipeline stage output.\n"@,
        AgentPattern::MapReduce => "Produce a map-reduce friendly answer.\n"@,
    }
}

/// How the task is introduced in a planner's prompt.
pub open spec fn task_opening(pattern: AgentPattern) -> Seq<char> {
    match pattern {
        AgentPattern::CoordinatorWorker => "\nComplete this assigned task concisely:\n"@,
        _ => "\nTask:\n"@,
    }
}

/// What a model is asked about a task.
pub open spec fn plan_question(
    pattern: AgentPattern,
    input: Seq<char>,
    memory: ProgressiveModel,
    registry: Seq<SkillModel>,
) -> Seq<char> {
    prompt_opening(pattern) + memory.rendered() + skills_section(registry) + task_opening(pattern)
        + input
}

fn find_called_skill<'a>(lines: &Vec<&'a str>) -> (r: Option<&'a str>)
    ensures
        match r {
            Some(t) => called_skill(top(chars::texts(lines@), 4)) == Some(t@),
            None => called_skill(top(chars::texts(lines@), 4)) is None,
        },
{
    let ghost all = top(chars::texts(lines@), 4);
    let mut i: usize = 0;
    assert(all.skip(0) =~= all);
    while i < lines.len() && i < 4
        invariant
            i <= all.len(),
            all == top(chars::texts(lines@), 4),
            called_skill(all) == called_skill(all.skip(i as int)),
        decreases all.len() - i,
    {
        assert(all.skip(i as int).skip(1) =~= all.skip(i + 1));
        assert(all.skip(i as int)[0] == lines@[i as int]@);
        let t = text::trim(lines[i]);
        if text::starts_with(text::lower(t).as_str(), "skill:") {
            let n: usize = t.unicode_len();
            proof {
                reveal_strlit("skill:");
            }
            let name = t.substring_char(6, n);
            assert(name@ =~= t@.skip(6));
            return Some(text::trim(name));
        }
        i += 1;
    }
    assert(all.skip(i as int).len() == 0);
    None
}

/// The step of a skill that a reply calls.
pub fn parse_skill_call(input: &str, reply: &str, registry: &SkillRegistry) -> (r: Option<
    PlanStepKind,
>)
    ensures
        opt_step(r) == skill_call(input@, reply@, registry@),
{
    let lines = text::lines(reply);
    let name = match find_called_skill(&lines) {
        Some(name) => name,
        None => {
            return None;
        },
    };
    let skill = match registry.find(name) {
        Some(skill) => skill,
        None => {
            return None;
        },
    };
    if !skill_allowed_for_input(input, skill) {
        return None;
    }
    match &skill.command {
        Some(command) => {
            let words = text::words(command.as_str());
            assert(chars::texts(words@).len() == words@.len());
            if words.len() == 0 {
                return None;
            }
            assert(chars::texts(words@)[0] == words@[0]@);
            Some(
                PlanStepKind::Exec {
                    program: words[0].to_owned(),
                    args: text::to_owned_all(&words, 1),
                },
            )
        },
        None => None,
    }
}

/// The step for a model's reply.
pub fn step_for_reply(input: &str, reply: &str, registry: &SkillRegistry) -> (r: PlanStepKind)
    ensures
        r@ == step_after(input@, reply@, registry@),
{
    match parse_skill_call(input, reply, registry) {
        Some(step) => step,
        None => PlanStepKind::Answer(reply.to_owned()),
    }
}

fn planner_prompt(
    pattern: AgentPattern,
    input: &str,
    memory: &ProgressiveMemory,
    registry: &SkillRegistry,
) -> (r: String)
    ensures
        r@ == plan_question(pattern, input@, memory@, registry@),
{
    let index = registry.index_text();
    let mut section = String::new();
    if index.as_str().unicode_len() > 0 {
        section.append("\n");
        section.append(index.as_str());
        section.append(
            "If a skill matches what is needed, respond with exactly:\nSKILL: <skill-name>\nOtherwise answer directly.\n",
        );
        assert(Seq::<char>::empty() + "\n"@ =~= "\n"@);
    }
    assert(section@ == skills_section(registry@));
    let mut out = match pattern {
        AgentPattern::Direct => "".to_owned(),
        AgentPattern::CoordinatorWorker =>
            "You are a worker sub-agent. Use progressive memory only as needed.\n".to_owned(),
        AgentPattern::HubAndSpoke =>
            "You are behind a gateway in a hub-and-spoke agent. Use memory index first, details second.\n".to_owned(),
        AgentPattern::Pipeline => "Produce the next pipeline stage output.\n".to_owned(),
        AgentPattern::MapReduce => "Produce a map-reduce friendly answer.\n".to_owned(),
    };
    out.append(memory.render().as_str());
    out.append(section.as_str());
    match pattern {
        AgentPattern::CoordinatorWorker => {
            out.append("\nComplete this assigned task concisely:\n");
        },
        _ => {
            out.append("\nTask:\n");
        },
    }
    out.append(input);
    out
}

// ---------------------------------------------------------------------------
// The planner
// ---------------------------------------------------------------------------

#[derive(Debug, Clone, Copy)]
pub struct Planner;

/// The empty memory.
pub open spec fn no_memory() -> ProgressiveModel {
    ProgressiveModel { index: seq![], details: seq![] }
}

/// How a pattern was selected: by the command, without a question, else by the
/// model's reply to the question about it.
pub open spec fn selected<L: LlmClient>(
    pre: L,
    post: L,
    input: Seq<char>,
    memory: ProgressiveModel,
    pattern: AgentPattern,
) -> bool {
    match pattern_of_command(input) {
        Some(p) => post == pre && pattern == p,
        None => exists|reply: Seq<char>|
            asked(pre, post, pattern_question(input, memory), reply) && pattern
                == #[trigger] pattern_after(input, reply),
    }
}

/// How a task was planned: one pending step, fixed by the input without a
/// question, else by the model's reply to the question about it.
pub open spec fn planned<L: LlmClient>(
    pre: L,
    post: L,
    input: Seq<char>,
    pattern: AgentPattern,
    memory: ProgressiveModel,
    registry: Seq<SkillModel>,
    plan: Plan,
) -> bool {
    let t = chars::trim(input);
    &&& plan.steps@.len() == 1
    &&& plan.steps@[0].index == 0
    &&& plan.steps@[0].status == StepStatus::Pending
    &&& match local_intent(t) {
        Some(step) => post == pre && plan.steps@[0].kind@ == step,
        None => exists|reply: Seq<char>|
            asked(pre, post, plan_question(pattern, t, memory, registry), reply)
                && plan.steps@[0].kind@ == #[trigger] step_after(t, reply, registry),
    }
}

fn empty_memory() -> (r: ProgressiveMemory)
    ensures
        r@ == no_memory(),
{
    let r = ProgressiveMemory { index: Vec::new(), details: Vec::new() };
    assert(r@.index =~= seq![]);
    assert(r@.details =~= seq![]);
    r
}

fn no_skills() -> (r: SkillRegistry)
    ensures
        r@ == Seq::<SkillModel>::empty(),
{
    let r = SkillRegistry { skills: Vec::new() };
    assert(r@ =~= Seq::<SkillModel>::empty());
    r
}

impl Planner {
    pub fn select_pattern<L: LlmClient>(&self, input: &str, llm: &mut L) -> (r: AgentPattern)
        ensures
            selected(*old(llm), *final(llm), input@, no_memory(), r),
    {
        self.select_pattern_with_memory(input, &empty_memory(), llm)
    }

    pub fn select_pattern_with_memory<L: LlmClient>(
        &self,
        input: &str,
        memory: &ProgressiveMemory,
        llm: &mut L,
    ) -> (r: AgentPattern)
        ensures
            selected(*old(llm), *final(llm), input@, memory@, r),
    {
        match local_pattern(input) {
            Some(p) => p,
            None => {
                let prompt = pattern_selection_prompt(input, memory);
                let reply = llm.next_step(prompt.as_str());
                pattern_for_reply(input, reply.as_str())
            },
        }
    }

    pub fn plan<L: LlmClient>(&self, task: &Task, llm: &mut L) -> (r: Plan)
        ensures
            r.task_id == task.id,
            planned(
                *old(llm),
                *final(llm),
                task.title@,
                AgentPattern::Direct,
                no_memory(),
                seq![],
                r,
            ),
    {
        assert(Seq::<SkillModel>::empty() =~= seq![]);
        self.plan_with_context(
            task,
            task.title.as_str(),
            AgentPattern::Direct,
            &empty_memory(),
            &no_skills(),
            llm,
        )
    }

    pub fn plan_with_pattern<L: LlmClient>(
        &self,
        task: &Task,
        input: &str,
        pattern: AgentPattern,
        llm: &mut L,
    ) -> (r: Plan)
        ensures
            r.task_id == task.id,
            planned(*old(llm), *final(llm), input@, pattern, no_memory(), seq![], r),
    {
        assert(Seq::<SkillModel>::empty() =~= seq![]);
        self.plan_with_context(task, input, pattern, &empty_memory(), &no_skills(), llm)
    }

    /// Plans a task: one step, by the input where it is plain, else by asking.
    pub fn plan_with_context<L: LlmClient>(
        &self,
        task: &Task,
        input: &str,
        pattern: AgentPattern,
        memory: &ProgressiveMemory,
        registry: &SkillRegistry,
        llm: &mut L,
    ) -> (r: Plan)
        ensures
            r.task_id == task.id,
            planned(*old(llm), *final(llm), input@, pattern, memory@, registry@, r),
    {
        let t = text::trim(input);
        let kind = match parse_local_intent(t) {
            Some(step) => step,
            None => {
                let prompt = planner_prompt(pattern, t, memory, registry);
                let reply = llm.next_step(prompt.as_str());
                step_for_reply(t, reply.as_str(), registry)
            },
        };
        let mut steps: Vec<PlanStep> = Vec::new();
        steps.push(PlanStep { index: 0, kind, status: StepStatus::Pending });
        Plan { task_id: task.id, steps }
    }
}

// ---------------------------------------------------------------------------
// Message classes
// ---------------------------------------------------------------------------

/// What a model is asked about the class of a message, before the message.
pub const CLASS_QUESTION: &'static str = "Classify the message. Reply with exactly one word.
minihow = something has to be done or computed on this machine
miniwhy = something has to be analysed or explained
miniwhat = a fact has to be recalled

Message:
";

/// What a model is asked about the class of a message.
pub open spec fn class_question(context: Seq<char>) -> Seq<char> {
    CLASS_QUESTION@ + context
}

/// The class that the first line of a reply names; execution where it names none.
pub open spec fn class_after(reply: Seq<char>) -> MessageClass {
    let lines = chars::lines(reply);
    let first = if lines.len() > 0 {
        lines[0]
    } else {
        ""@
    };
    match MessageClass::named(bare(first)) {
        Some(class) => class,
        None => MessageClass::MiniHow,
    }
}

/// The class that a reply names.
pub fn class_for_reply(reply: &str) -> (r: MessageClass)
    ensures
        r == class_after(reply@),
{
    let lines = text::lines(reply);
    assert(chars::texts(lines@).len() == lines@.len());
    let first = if lines.len() > 0 {
        assert(chars::texts(lines@)[0] == lines@[0]@);
        lines[0]
    } else {
        ""
    };
    let b = text::lower(text::trim(text::trim_set(text::trim(first), CharSet::Punctuation)));
    match MessageClass::parse(b.as_str()) {
        Some(class) => class,
        None => MessageClass::MiniHow,
    }
}

/// Asks a model for the class of a message.
pub fn classify_message<L: LlmClient>(context: &str, llm: &mut L) -> (r: MessageClass)
    ensures
        exists|reply: Seq<char>|
            asked(*old(llm), *final(llm), class_question(context@), reply) && r
                == #[trigger] class_after(reply),
{
    let prompt = CLASS_QUESTION.to_owned().concat(context);
    let reply = llm.next_step(prompt.as_str());
    class_for_reply(reply.as_str())
}

// ---------------------------------------------------------------------------
// Laws
// ---------------------------------------------------------------------------

/// Whatever a model replies, a risky task is not run directly.
pub proof fn law_risky_is_never_direct(input: Seq<char>, reply: Seq<char>)
    requires
        is_risky(input),
    ensures
        pattern_after(input, reply) != AgentPattern::Direct,
{
}

/// Whatever a model replies, the program that is run is one of a registered
/// skill that shares a meaningful word with the input.
pub proof fn law_replies_run_skills_only(
    input: Seq<char>,
    reply: Seq<char>,
    registry: Seq<SkillModel>,
)
    ensures
        step_after(input, reply, registry) matches StepModel::Exec { program, args } ==> exists|
            skill: SkillModel,
        |
            {
                &&& #[trigger] registry.contains(skill)
                &&& skill_fits(input, skill)
                &&& skill.command matches Some(c) && chars::words(c) == seq![program] + args
            },
        !(step_after(input, reply, registry) is Exec) ==> step_after(input, reply, registry)
            == StepModel::Answer(reply),
{
    if let Some(name) = called_skill(top(chars::lines(reply), 4)) {
        lemma_named_is_registered(registry, name);
        if let Some(skill) = skill_named(registry, name) {
            if let Some(c) = skill.command {
                let w = chars::words(c);
                if w.len() > 0 {
                    assert(w =~= seq![w[0]] + w.skip(1));
                }
            }
        }
    }
}

proof fn lemma_named_is_registered(registry: Seq<SkillModel>, name: Seq<char>)
    ensures
        skill_named(registry, name) matches Some(s) ==> registry.contains(s),
    decreases registry.len(),
{
    if registry.len() > 0 {
        assert(registry.contains(registry[0]));
        lemma_named_is_registered(registry.skip(1), name);
        if let Some(s) = skill_named(registry.skip(1), name) {
            let k = registry.skip(1).index_of(s);
            assert(registry[k + 1] == s);
        }
    }
}

}
