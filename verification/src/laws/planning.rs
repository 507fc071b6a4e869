//! Promises of the plans: the pattern and the step that a task gets, the skills
//! that are found, and what the tools may do and give back.
use vstd::prelude::*;

use crate::chars;
use crate::chars::CharSet;
use crate::foreign::lossy;
use crate::laws::texts::{
    law_find_is_first_occurrence, law_joined_parts_stand_in_whole, law_lower_of_parts,
    law_occurrence_carries_over, law_prefix_stands_first, lemma_concat_part, lemma_filter_concat,
    lemma_filter_has, lemma_last_index, lemma_part, lemma_pieces_break, lemma_within, occurs,
    stands_at,
};
use crate::memory::{top, ProgressiveModel};
use crate::numbers;
use crate::planner::{
    bare, behind_stops, called_skill, class_after, class_question, file_names, first_of,
    is_meaningful, is_risky, is_stop, local_intent, meaningful_words, names_file, natural_action,
    path_names, pattern_after, pattern_in, pattern_in_line, pattern_in_lines, pattern_named,
    pattern_of_command, pattern_of_words, pattern_question, plan_question, prompt_opening,
    skill_fits, skills_section, step_after, task_opening, CLASS_QUESTION, PATTERN_QUESTION,
};
use crate::skills::{
    field_of, first_serving, index_line, is_markdown, is_telling, matched_text, programs, serves,
    skill_in, skill_index, skill_named, skills_in, telling_words, SkillModel,
};
use crate::table::Row;
use crate::tools::{
    denied, entry_names, file_output, listing_output, path_in, process_result, requested,
    step_result, DirEntry, ProcessReply, RequestModel, ToolPolicy, ToolReply,
};
use crate::types::{AgentPattern, MessageClass, StepModel, ToolModel};

verus! {

// ---------------------------------------------------------------------------
// Patterns
// ---------------------------------------------------------------------------

/// Only slash commands fix a pattern.
pub proof fn law_plain_text_fixes_no_pattern(input: Seq<char>)
    requires
        chars::trim_start(input).len() == 0 || chars::trim_start(input)[0] != '/',
    ensures
        pattern_of_command(input) is None,
{
    let t = chars::trim_start(input);
    reveal_strlit("/pipeline");
    reveal_strlit("/map");
    reveal_strlit("/reduce");
    reveal_strlit("/exec");
    reveal_strlit("/read");
    reveal_strlit("/ls");
    reveal_strlit("/help");
    lemma_starts(t, "/pipeline"@);
    lemma_starts(t, "/map"@);
    lemma_starts(t, "/reduce"@);
    lemma_starts(t, "/exec"@);
    lemma_starts(t, "/read"@);
    lemma_starts(t, "/ls"@);
    assert("/help"@[0] == '/');
}

proof fn lemma_starts(t: Seq<char>, p: Seq<char>)
    requires
        p.len() > 0,
    ensures
        chars::starts_with(t, p) ==> t.len() > 0 && t[0] == p[0],
{
    if chars::starts_with(t, p) {
        assert(t.take(p.len() as int)[0] == p[0]);
    }
}

/// Work that changes the machine, asked for by name, goes through the gateway, and
/// a task without any of the words that tell a pattern is run directly.
pub proof fn law_words_tell_the_pattern(input: Seq<char>)
    ensures
        ({
            let l = chars::lower(input);
            let reduce = occurs(l, "map reduce"@) || occurs(l, "map-reduce"@);
            let stages = occurs(l, "pipeline"@) || occurs(l, "then"@) || occurs(l, "step by step"@)
                || occurs(l, "refine"@);
            let gate = occurs(l, "run command"@) || occurs(l, "execute"@) || occurs(l, "install"@)
                || occurs(l, "delete"@);
            let work = occurs(l, "delegate"@) || occurs(l, "worker"@) || occurs(l, "investigate"@)
                || occurs(l, "implement"@);
            let listed = chars::count(input, '|') >= 2 && (occurs(l, "summarize"@) || occurs(
                l,
                "compare"@,
            ) || occurs(l, "classify"@));
            &&& pattern_of_words(input) == AgentPattern::MapReduce <==> reduce || listed
            &&& pattern_of_words(input) == AgentPattern::Pipeline <==> !reduce && !listed && stages
            &&& pattern_of_words(input) == AgentPattern::HubAndSpoke <==> !reduce && !listed
                && !stages && gate
            &&& pattern_of_words(input) == AgentPattern::CoordinatorWorker <==> !reduce && !listed
                && !stages && !gate && work
            &&& !reduce && !listed && !stages && !gate && !work ==> pattern_of_words(input)
                == AgentPattern::Direct
        }),
{
    let l = chars::lower(input);
    law_find_is_first_occurrence(l, "map reduce"@);
    law_find_is_first_occurrence(l, "map-reduce"@);
    law_find_is_first_occurrence(l, "summarize"@);
    law_find_is_first_occurrence(l, "compare"@);
    law_find_is_first_occurrence(l, "classify"@);
    law_find_is_first_occurrence(l, "pipeline"@);
    law_find_is_first_occurrence(l, "then"@);
    law_find_is_first_occurrence(l, "step by step"@);
    law_find_is_first_occurrence(l, "refine"@);
    law_find_is_first_occurrence(l, "run command"@);
    law_find_is_first_occurrence(l, "execute"@);
    law_find_is_first_occurrence(l, "install"@);
    law_find_is_first_occurrence(l, "delete"@);
    law_find_is_first_occurrence(l, "delegate"@);
    law_find_is_first_occurrence(l, "worker"@);
    law_find_is_first_occurrence(l, "investigate"@);
    law_find_is_first_occurrence(l, "implement"@);
}

/// Every pattern is named by its own name, and no two share one.
pub proof fn law_patterns_are_named(p: AgentPattern)
    ensures
        pattern_named(p.name()) == Some(p),
{
    reveal_strlit("direct");
    reveal_strlit("coordinator-worker");
    reveal_strlit("coordinator_worker");
    reveal_strlit("coordinator worker");
    reveal_strlit("hub-and-spoke");
    reveal_strlit("hub_and_spoke");
    reveal_strlit("hub and spoke");
    reveal_strlit("pipeline");
    reveal_strlit("map-reduce");
    reveal_strlit("map_reduce");
    reveal_strlit("map reduce");
    assert("map-reduce"@.len() == 10);
    assert("direct"@.len() == 6);
    assert("pipeline"@.len() == 8);
    assert("hub-and-spoke"@.len() == 13);
    assert("coordinator-worker"@.len() == 18);
}

proof fn lemma_first_pattern(lines: Seq<Seq<char>>, i: int)
    requires
        0 <= i < lines.len(),
        pattern_in_line(lines[i]) is Some,
        forall|j: int| 0 <= j < i ==> pattern_in_line(#[trigger] lines[j]) is None,
    ensures
        pattern_in_lines(lines) == pattern_in_line(lines[i]),
    decreases lines.len(),
{
    if i > 0 {
        assert(pattern_in_line(lines[0]) is None);
        let rest = lines.skip(1);
        assert(rest[i - 1] == lines[i]);
        assert forall|j: int| 0 <= j < i - 1 implies pattern_in_line(#[trigger] rest[j]) is None by {
            assert(rest[j] == lines[j + 1]);
        }
        lemma_first_pattern(rest, i - 1);
    }
}

proof fn lemma_no_pattern(lines: Seq<Seq<char>>)
    requires
        forall|j: int| 0 <= j < lines.len() ==> pattern_in_line(#[trigger] lines[j]) is None,
    ensures
        pattern_in_lines(lines) is None,
    decreases lines.len(),
{
    if lines.len() > 0 {
        assert(pattern_in_line(lines[0]) is None);
        let rest = lines.skip(1);
        assert forall|j: int| 0 <= j < rest.len() implies pattern_in_line(
            #[trigger] rest[j],
        ) is None by {
            assert(rest[j] == lines[j + 1]);
        }
        lemma_no_pattern(rest);
    }
}

/// A model's choice of a pattern is the one that the first of its lines names,
/// within the first eight; it is taken unless a risky task would run directly.
pub proof fn law_first_named_pattern_is_taken(input: Seq<char>, reply: Seq<char>, i: int)
    requires
        0 <= i < chars::lines(reply).len(),
        i < 8,
        pattern_in_line(chars::lines(reply)[i]) is Some,
        forall|j: int| 0 <= j < i ==> pattern_in_line(#[trigger] chars::lines(reply)[j]) is None,
    ensures
        pattern_in(reply) == pattern_in_line(chars::lines(reply)[i]),
        pattern_in_line(chars::lines(reply)[i]) != Some(AgentPattern::Direct) ==> Some(
            pattern_after(input, reply),
        ) == pattern_in_line(chars::lines(reply)[i]),
{
    let lines = chars::lines(reply);
    let all = top(lines, 8);
    assert(all[i] == lines[i]);
    assert forall|j: int| 0 <= j < i implies pattern_in_line(#[trigger] all[j]) is None by {
        assert(all[j] == lines[j]);
    }
    lemma_first_pattern(all, i);
}

/// Where a model names no pattern in its first eight lines the words of the task
/// decide, but a risky task is not run directly.
pub proof fn law_words_decide_without_a_name(input: Seq<char>, reply: Seq<char>)
    requires
        forall|j: int|
            0 <= j < chars::lines(reply).len() && j < 8 ==> pattern_in_line(
                #[trigger] chars::lines(reply)[j],
            ) is None,
    ensures
        pattern_in(reply) is None,
        pattern_after(input, reply) == pattern_of_words(input) || pattern_of_words(input)
            == AgentPattern::Direct && pattern_after(input, reply) == AgentPattern::HubAndSpoke,
{
    let lines = chars::lines(reply);
    let all = top(lines, 8);
    assert forall|j: int| 0 <= j < all.len() implies pattern_in_line(#[trigger] all[j]) is None by {
        assert(all[j] == lines[j]);
    }
    lemma_no_pattern(all);
}

/// A model that is asked for the pattern sees the memory and the task.
pub proof fn law_pattern_question_shows_the_task(input: Seq<char>, memory: ProgressiveModel)
    ensures
        occurs(pattern_question(input, memory), input),
        occurs(pattern_question(input, memory), memory.rendered()),
{
    let q = PATTERN_QUESTION@;
    let m = memory.rendered();
    let t = "\nTask:\n"@;
    lemma_part(q + m + t, input, seq![]);
    assert(q + m + t + input + Seq::<char>::empty() =~= q + m + t + input);
    lemma_part(q, m, t + input);
    assert(q + m + (t + input) =~= q + m + t + input);
}

/// A model that is asked for a step sees the memory, every skill and the task.
pub proof fn law_plan_question_shows_everything(
    pattern: AgentPattern,
    input: Seq<char>,
    memory: ProgressiveModel,
    registry: Seq<SkillModel>,
)
    ensures
        occurs(plan_question(pattern, input, memory, registry), input),
        occurs(plan_question(pattern, input, memory, registry), memory.rendered()),
        forall|i: int|
            0 <= i < registry.len() ==> occurs(
                plan_question(pattern, input, memory, registry),
                index_line(#[trigger] registry[i]),
            ),
{
    let a = prompt_opening(pattern);
    let m = memory.rendered();
    let s = skills_section(registry);
    let t = task_opening(pattern);
    let all = plan_question(pattern, input, memory, registry);
    lemma_part(a + m + s + t, input, seq![]);
    assert(a + m + s + t + input + Seq::<char>::empty() =~= all);
    lemma_part(a, m, s + t + input);
    assert(a + m + (s + t + input) =~= all);
    lemma_part(a + m, s, t + input);
    assert(a + m + s + (t + input) =~= all);
    assert forall|i: int| 0 <= i < registry.len() implies occurs(
        all,
        index_line(#[trigger] registry[i]),
    ) by {
        law_index_names_every_skill(registry, i);
        let x = skill_index(registry);
        let more =
            "If a skill matches what is needed, respond with exactly:\nSKILL: <skill-name>\nOtherwise answer directly.\n"@;
        reveal_strlit("Available skills:\n");
        law_occurrence_carries_over("\n"@, x, more, index_line(registry[i]));
        lemma_within(all, s, index_line(registry[i]));
    }
}

// ---------------------------------------------------------------------------
// Words
// ---------------------------------------------------------------------------

proof fn lemma_words_break(a: Seq<char>, b: Seq<char>, kind: spec_fn(Seq<char>) -> bool)
    ensures
        chars::pieces(chars::lower(a + " "@ + b), CharSet::NotAlphanumeric).filter(kind)
            == chars::pieces(chars::lower(a), CharSet::NotAlphanumeric).filter(kind)
            + chars::pieces(chars::lower(b), CharSet::NotAlphanumeric).filter(kind),
{
    let set = CharSet::NotAlphanumeric;
    reveal_strlit(" ");
    assert(" "@ =~= seq![' ']);
    law_lower_of_parts(a + " "@, b);
    law_lower_of_parts(a, " "@);
    assert(chars::lower(" "@) =~= seq![' ']);
    lemma_pieces_break(chars::lower(a), ' ', chars::lower(b), set);
    lemma_filter_concat(
        chars::pieces(chars::lower(a), set),
        chars::pieces(chars::lower(b), set),
        kind,
    );
}

/// A meaningful word of a text is one of its runs of letters and digits, in lower
/// case, of three characters or more and no stop word; all of those are.
pub proof fn law_meaningful_words(s: Seq<char>, w: Seq<char>)
    ensures
        meaningful_words(s).contains(w) == (chars::pieces(
            chars::lower(s),
            CharSet::NotAlphanumeric,
        ).contains(w) && w.len() >= 3 && !is_stop(w)),
{
    lemma_filter_has(
        chars::pieces(chars::lower(s), CharSet::NotAlphanumeric),
        is_meaningful(),
        w,
    );
}

/// A word that an input shares with the name of a skill, or with its description,
/// makes the skill fit.
pub proof fn law_shared_word_makes_a_skill_fit(
    input: Seq<char>,
    skill: SkillModel,
    w: Seq<char>,
)
    requires
        meaningful_words(input).contains(w),
        meaningful_words(skill.name).contains(w) || meaningful_words(skill.description).contains(w),
    ensures
        skill_fits(input, skill),
{
    let a = meaningful_words(skill.name);
    let b = meaningful_words(skill.description);
    let all = meaningful_words(skill.name + " "@ + skill.description);
    lemma_words_break(skill.name, skill.description, is_meaningful());
    if a.contains(w) {
        let i = a.index_of(w);
        assert(all[i] == w);
    } else {
        let i = b.index_of(w);
        assert(all[a.len() + i] == w);
    }
}

/// A skill that fits shares a word with the input.
pub proof fn law_fitting_skill_shares_a_word(input: Seq<char>, skill: SkillModel) -> (w: Seq<char>)
    requires
        skill_fits(input, skill),
    ensures
        meaningful_words(input).contains(w),
        meaningful_words(skill.name).contains(w) || meaningful_words(skill.description).contains(w),
{
    let a = meaningful_words(skill.name);
    let b = meaningful_words(skill.description);
    let all = meaningful_words(skill.name + " "@ + skill.description);
    lemma_words_break(skill.name, skill.description, is_meaningful());
    let w = choose|w: Seq<char>| #[trigger]
        meaningful_words(input).contains(w) && all.contains(w);
    let i = all.index_of(w);
    if i < a.len() {
        assert(a[i] == w);
    } else {
        assert(b[i - a.len()] == w);
    }
    w
}

/// The first word of a kind is of the kind, and no word before it is.
pub proof fn law_first_of_a_kind(words: Seq<Seq<char>>, kind: spec_fn(Seq<char>) -> bool, i: int)
    requires
        0 <= i < words.len(),
        kind(words[i]),
        forall|j: int| 0 <= j < i ==> !kind(#[trigger] words[j]),
    ensures
        first_of(words, kind) == Some(words[i]),
    decreases words.len(),
{
    if i > 0 {
        assert(!kind(words[0]));
        let rest = words.skip(1);
        assert(rest[i - 1] == words[i]);
        assert forall|j: int| 0 <= j < i - 1 implies !kind(#[trigger] rest[j]) by {
            assert(rest[j] == words[j + 1]);
        }
        law_first_of_a_kind(rest, kind, i - 1);
    }
}

/// Where no word is of a kind none is found.
pub proof fn law_none_of_a_kind(words: Seq<Seq<char>>, kind: spec_fn(Seq<char>) -> bool)
    requires
        forall|j: int| 0 <= j < words.len() ==> !kind(#[trigger] words[j]),
    ensures
        first_of(words, kind) is None,
    decreases words.len(),
{
    if words.len() > 0 {
        assert(!kind(words[0]));
        let rest = words.skip(1);
        assert forall|j: int| 0 <= j < rest.len() implies !kind(#[trigger] rest[j]) by {
            assert(rest[j] == words[j + 1]);
        }
        law_none_of_a_kind(rest, kind);
    }
}

/// A word with a separator in it names a file; one without a separator and a dot
/// does not.
pub proof fn law_separators_name_files(w: Seq<char>)
    ensures
        occurs(w, "/"@) || occurs(w, "\\"@) ==> names_file(w),
        !occurs(w, "/"@) && !occurs(w, "\\"@) && !w.contains('.') ==> !names_file(w),
{
    law_find_is_first_occurrence(w, "/"@);
    law_find_is_first_occurrence(w, "\\"@);
    lemma_last_index(w, '.');
}

/// A name with an extension names a file; a dot at either end alone does not.
pub proof fn law_extensions_name_files(a: Seq<char>, b: Seq<char>)
    requires
        !b.contains('.'),
    ensures
        a.len() > 0 && b.len() > 0 ==> names_file(a + seq!['.'] + b),
        (a.len() == 0 || b.len() == 0) && !occurs(a + seq!['.'] + b, "/"@) && !occurs(
            a + seq!['.'] + b,
            "\\"@,
        ) ==> !names_file(a + seq!['.'] + b),
{
    let w = a + seq!['.'] + b;
    law_find_is_first_occurrence(w, "/"@);
    law_find_is_first_occurrence(w, "\\"@);
    lemma_last_index(w, '.');
    assert(w[a.len() as int] == '.');
    assert(w.contains('.'));
    let i = chars::last_index(w, '.')->0 as int;
    assert(i >= a.len());
    if i > a.len() {
        assert(b[i - a.len() - 1] == '.');
    }
}

// ---------------------------------------------------------------------------
// Steps
// ---------------------------------------------------------------------------

/// A phrase that starts with a verb for listing lists the first word that can name
/// a path, or where the agent is.
pub proof fn law_listing_phrases(input: Seq<char>, i: int)
    requires
        chars::words(input).len() > 0,
        chars::lower(chars::words(input)[0]) == "list"@ || chars::lower(chars::words(input)[0])
            == "ls"@,
        0 < i <= chars::words(input).len(),
        forall|j: int| 0 < j < i ==> !path_names()(#[trigger] chars::words(input)[j]),
        i < chars::words(input).len() ==> path_names()(chars::words(input)[i]),
    ensures
        i < chars::words(input).len() ==> natural_action(input) == Some(
            StepModel::ListDir(chars::words(input)[i]),
        ),
        i == chars::words(input).len() ==> natural_action(input) == Some(StepModel::ListDir("."@)),
{
    let rest = chars::words(input).skip(1);
    assert forall|j: int| 0 <= j < i - 1 implies !path_names()(#[trigger] rest[j]) by {
        assert(rest[j] == chars::words(input)[j + 1]);
    }
    if i < chars::words(input).len() {
        assert(rest[i - 1] == chars::words(input)[i]);
        law_first_of_a_kind(rest, path_names(), i - 1);
    } else {
        law_none_of_a_kind(rest, path_names());
    }
}

/// A phrase that starts with a verb for reading reads the first word that names a
/// file, and asks for nothing where none does.
pub proof fn law_reading_phrases(input: Seq<char>, i: int)
    requires
        chars::words(input).len() > 0,
        chars::lower(chars::words(input)[0]) == "read"@ || chars::lower(chars::words(input)[0])
            == "cat"@,
        0 < i <= chars::words(input).len(),
        forall|j: int| 0 < j < i ==> !names_file(#[trigger] chars::words(input)[j]),
        i < chars::words(input).len() ==> names_file(chars::words(input)[i]),
    ensures
        i < chars::words(input).len() ==> natural_action(input) == Some(
            StepModel::ReadFile(chars::words(input)[i]),
        ),
        i == chars::words(input).len() ==> natural_action(input) is None,
{
    reveal_strlit("read");
    reveal_strlit("cat");
    reveal_strlit("list");
    reveal_strlit("ls");
    assert("read"@[0] == 'r' && "list"@[0] == 'l' && "ls"@.len() == 2 && "cat"@.len() == 3);
    let rest = chars::words(input).skip(1);
    assert forall|j: int| 0 <= j < i - 1 implies !file_names()(#[trigger] rest[j]) by {
        assert(rest[j] == chars::words(input)[j + 1]);
    }
    if i < chars::words(input).len() {
        assert(rest[i - 1] == chars::words(input)[i]);
        law_first_of_a_kind(rest, file_names(), i - 1);
    } else {
        law_none_of_a_kind(rest, file_names());
    }
}

/// A phrase that starts with a verb for running runs the words behind it, with the
/// stop words in front of the program left out and nothing else.
pub proof fn law_running_phrases(input: Seq<char>, i: int)
    requires
        chars::words(input).len() > 0,
        chars::lower(chars::words(input)[0]) == "run"@ || chars::lower(chars::words(input)[0])
            == "exec"@ || chars::lower(chars::words(input)[0]) == "execute"@,
        0 < i <= chars::words(input).len(),
        forall|j: int| 0 < j < i ==> is_stop(chars::lower(#[trigger] chars::words(input)[j])),
        i < chars::words(input).len() ==> !is_stop(chars::lower(chars::words(input)[i])),
    ensures
        i < chars::words(input).len() ==> natural_action(input) == Some(
            StepModel::Exec {
                program: chars::words(input)[i],
                args: chars::words(input).skip(i + 1),
            },
        ),
        i == chars::words(input).len() ==> natural_action(input) is None,
{
    reveal_strlit("read");
    reveal_strlit("cat");
    reveal_strlit("list");
    reveal_strlit("ls");
    reveal_strlit("run");
    reveal_strlit("exec");
    reveal_strlit("execute");
    assert("run"@[0] == 'r' && "cat"@[0] == 'c' && "exec"@[0] == 'e' && "execute"@[0] == 'e');
    assert("list"@[0] == 'l' && "ls"@[0] == 'l' && "read"@.len() == 4 && "run"@.len() == 3
        && "read"@[0] == 'r');
    let words = chars::words(input);
    let rest = words.skip(1);
    assert forall|j: int| 0 <= j < i - 1 implies is_stop(chars::lower(#[trigger] rest[j])) by {
        assert(rest[j] == words[j + 1]);
    }
    if i < words.len() {
        assert(rest[i - 1] == words[i]);
    }
    lemma_behind(rest, i - 1);
    assert(rest.skip(i - 1) =~= words.skip(i));
    if i < words.len() {
        assert(words.skip(i).skip(1) =~= words.skip(i + 1));
    }
}

proof fn lemma_behind(words: Seq<Seq<char>>, i: int)
    requires
        0 <= i <= words.len(),
        forall|j: int| 0 <= j < i ==> is_stop(chars::lower(#[trigger] words[j])),
        i < words.len() ==> !is_stop(chars::lower(words[i])),
    ensures
        behind_stops(words) == words.skip(i),
    decreases words.len(),
{
    if i > 0 {
        assert(is_stop(chars::lower(words[0])));
        let rest = words.skip(1);
        assert forall|j: int| 0 <= j < i - 1 implies is_stop(chars::lower(#[trigger] rest[j])) by {
            assert(rest[j] == words[j + 1]);
        }
        if i < words.len() {
            assert(rest[i - 1] == words[i]);
        }
        lemma_behind(rest, i - 1);
        assert(rest.skip(i - 1) =~= words.skip(i));
    } else {
        assert(words.skip(0) =~= words);
    }
}

/// Slash commands are carried out as they are given, word by word.
pub proof fn law_slash_commands_are_carried_out(input: Seq<char>)
    requires
        chars::words(input).len() > 0,
    ensures
        ({
            let w = chars::words(input);
            &&& w[0] == "/read"@ ==> local_intent(input) == Some(
                StepModel::ReadFile(chars::join(w.skip(1), " "@)),
            )
            &&& w[0] == "/ls"@ && w.len() == 1 ==> local_intent(input) == Some(
                StepModel::ListDir("."@),
            )
            &&& w[0] == "/ls"@ && w.len() == 2 && w[1].len() > 0 ==> local_intent(input) == Some(
                StepModel::ListDir(w[1]),
            )
            &&& w[0] == "/exec"@ && w.len() > 1 ==> local_intent(input) == Some(
                StepModel::Exec { program: w[1], args: w.skip(2) },
            )
            &&& w[0] == "/exec"@ && w.len() == 1 ==> local_intent(input) is None
            &&& (w[0] == "/help"@ || w[0] == "help"@) ==> local_intent(input) is Some
                && local_intent(input)->0 is Answer
        }),
{
    let w = chars::words(input);
    reveal_strlit("/read");
    reveal_strlit("/ls");
    reveal_strlit("/exec");
    reveal_strlit("/help");
    reveal_strlit("help");
    assert("/read"@[1] == 'r' && "/ls"@[1] == 'l' && "/exec"@[1] == 'e' && "/help"@[1] == 'h'
        && "help"@[0] == 'h');
    assert("/read"@[0] == '/' && "/ls"@[0] == '/' && "/exec"@[0] == '/');
    if w.len() == 2 {
        assert(w.skip(1) =~= seq![w[1]]);
        assert(chars::join(w.skip(1), " "@) == w[1]);
    }
    if w.len() == 1 {
        assert(w.skip(1).len() == 0);
        assert(chars::join(w.skip(1), " "@).len() == 0);
    }
    if w.len() > 1 {
        assert(w.skip(1).skip(1) =~= w.skip(2));
    }
}

/// Nothing is done for a phrase that starts with no word for it.
pub proof fn law_other_phrases_are_left_to_the_model(input: Seq<char>)
    requires
        chars::words(input).len() > 0,
        ({
            let v = chars::lower(chars::words(input)[0]);
            v != "list"@ && v != "ls"@ && v != "read"@ && v != "cat"@ && v != "run"@ && v
                != "exec"@ && v != "execute"@ && v != "/read"@ && v != "/ls"@ && v != "/exec"@ && v
                != "/help"@ && v != "help"@
        }),
    ensures
        local_intent(input) is None,
{
    let w = chars::words(input)[0];
    reveal_strlit("/read");
    reveal_strlit("/ls");
    reveal_strlit("/exec");
    reveal_strlit("/help");
    reveal_strlit("help");
    assert(chars::lower("/read"@) =~= "/read"@);
    assert(chars::lower("/ls"@) =~= "/ls"@);
    assert(chars::lower("/exec"@) =~= "/exec"@);
    assert(chars::lower("/help"@) =~= "/help"@);
    assert(chars::lower("help"@) =~= "help"@);
}

// ---------------------------------------------------------------------------
// Skills that a reply calls
// ---------------------------------------------------------------------------

proof fn lemma_called(lines: Seq<Seq<char>>, i: int)
    requires
        0 <= i < lines.len(),
        stands_at(chars::lower(chars::trim(lines[i])), "skill:"@, 0),
        forall|j: int|
            0 <= j < i ==> !stands_at(
                chars::lower(chars::trim(#[trigger] lines[j])),
                "skill:"@,
                0,
            ),
    ensures
        called_skill(lines) == Some(chars::trim(chars::trim(lines[i]).skip(6))),
    decreases lines.len(),
{
    law_prefix_stands_first(chars::lower(chars::trim(lines[0])), "skill:"@);
    if i > 0 {
        assert(!stands_at(chars::lower(chars::trim(lines[0])), "skill:"@, 0));
        let rest = lines.skip(1);
        assert(rest[i - 1] == lines[i]);
        assert forall|j: int| 0 <= j < i - 1 implies !stands_at(
            chars::lower(chars::trim(#[trigger] rest[j])),
            "skill:"@,
            0,
        ) by {
            assert(rest[j] == lines[j + 1]);
        }
        lemma_called(rest, i - 1);
    }
}

/// A reply that calls a registered skill that fits the task, on one of its first
/// four lines, has the skill's command run, with all its words.
pub proof fn law_called_skill_is_run(
    input: Seq<char>,
    reply: Seq<char>,
    registry: Seq<SkillModel>,
    i: int,
    k: int,
)
    requires
        0 <= i < chars::lines(reply).len(),
        i < 4,
        stands_at(chars::lower(chars::trim(chars::lines(reply)[i])), "skill:"@, 0),
        forall|j: int|
            0 <= j < i ==> !stands_at(
                chars::lower(chars::trim(#[trigger] chars::lines(reply)[j])),
                "skill:"@,
                0,
            ),
        0 <= k < registry.len(),
        chars::lower(registry[k].name) == chars::lower(
            chars::trim(chars::trim(chars::trim(chars::lines(reply)[i]).skip(6))),
        ),
        forall|j: int|
            0 <= j < k ==> chars::lower((#[trigger] registry[j]).name) != chars::lower(
                registry[k].name,
            ),
        skill_fits(input, registry[k]),
        registry[k].command matches Some(c) && chars::words(c).len() > 0,
    ensures
        step_after(input, reply, registry) matches StepModel::Exec { program, args } && seq![program]
            + args == chars::words(registry[k].command->0),
{
    let lines = chars::lines(reply);
    let all = top(lines, 4);
    assert(all[i] == lines[i]);
    assert forall|j: int| 0 <= j < i implies !stands_at(
        chars::lower(chars::trim(#[trigger] all[j])),
        "skill:"@,
        0,
    ) by {
        assert(all[j] == lines[j]);
    }
    lemma_called(all, i);
    let name = chars::trim(chars::trim(lines[i]).skip(6));
    law_first_skill_of_a_name(registry, name, k);
    let w = chars::words(registry[k].command->0);
    assert(seq![w[0]] + w.skip(1) =~= w);
}

/// A reply that calls no skill on its first four lines is the answer, whole.
pub proof fn law_plain_reply_is_an_answer(
    input: Seq<char>,
    reply: Seq<char>,
    registry: Seq<SkillModel>,
)
    requires
        forall|j: int|
            0 <= j < chars::lines(reply).len() && j < 4 ==> !stands_at(
                chars::lower(chars::trim(#[trigger] chars::lines(reply)[j])),
                "skill:"@,
                0,
            ),
    ensures
        step_after(input, reply, registry) == StepModel::Answer(reply),
{
    let all = top(chars::lines(reply), 4);
    assert forall|j: int| 0 <= j < all.len() implies !stands_at(
        chars::lower(chars::trim(#[trigger] all[j])),
        "skill:"@,
        0,
    ) by {
        assert(all[j] == chars::lines(reply)[j]);
    }
    lemma_not_called(all);
}

proof fn lemma_not_called(lines: Seq<Seq<char>>)
    requires
        forall|j: int|
            0 <= j < lines.len() ==> !stands_at(
                chars::lower(chars::trim(#[trigger] lines[j])),
                "skill:"@,
                0,
            ),
    ensures
        called_skill(lines) is None,
    decreases lines.len(),
{
    if lines.len() > 0 {
        law_prefix_stands_first(chars::lower(chars::trim(lines[0])), "skill:"@);
        assert(!stands_at(chars::lower(chars::trim(lines[0])), "skill:"@, 0));
        let rest = lines.skip(1);
        assert forall|j: int| 0 <= j < rest.len() implies !stands_at(
            chars::lower(chars::trim(#[trigger] rest[j])),
            "skill:"@,
            0,
        ) by {
            assert(rest[j] == lines[j + 1]);
        }
        lemma_not_called(rest);
    }
}

// ---------------------------------------------------------------------------
// Classes
// ---------------------------------------------------------------------------

/// A reply whose first line is the name of a class gives the class, and one whose
/// first line names none asks for execution.
pub proof fn law_named_class_is_taken(reply: Seq<char>)
    requires
        chars::lines(reply).len() > 0,
    ensures
        MessageClass::named(bare(chars::lines(reply)[0])) is Some ==> Some(class_after(reply))
            == MessageClass::named(bare(chars::lines(reply)[0])),
        MessageClass::named(bare(chars::lines(reply)[0])) is None ==> class_after(reply)
            == MessageClass::MiniHow,
{
}

/// The question about the class shows the message.
pub proof fn law_class_question_shows_the_message(context: Seq<char>)
    ensures
        occurs(class_question(context), context),
{
    lemma_part(CLASS_QUESTION@, context, seq![]);
    assert(CLASS_QUESTION@ + context + Seq::<char>::empty() =~= CLASS_QUESTION@ + context);
}

// ---------------------------------------------------------------------------
// The registry of skills
// ---------------------------------------------------------------------------

/// The row is a file of a skill.
pub open spec fn is_skill_file() -> spec_fn(Row) -> bool {
    |r: Row| is_markdown(r.0) && skill_in(r.1) is Some
}

/// The registry holds the skill of every skill file, in the order of the files,
/// and no others.
pub proof fn law_registry_holds_every_skill(rows: Seq<Row>)
    ensures
        skills_in(rows).map_values(|s: SkillModel| Some(s)) == rows.filter(
            is_skill_file(),
        ).map_values(|r: Row| skill_in(r.1)),
        skills_in(rows).len() == rows.filter(is_skill_file()).len(),
    decreases rows.len(),
{
    reveal(Seq::filter);
    let wrap = |s: SkillModel| Some(s);
    let read = |r: Row| skill_in(r.1);
    let f = is_skill_file();
    if rows.len() == 0 {
        assert(skills_in(rows).map_values(wrap) =~= rows.filter(f).map_values(read));
    } else {
        law_registry_holds_every_skill(rows.drop_last());
        let before = skills_in(rows.drop_last());
        let kept = rows.drop_last().filter(f);
        if f(rows.last()) {
            assert(rows.filter(f) == kept.push(rows.last()));
            assert(kept.push(rows.last()).map_values(read) =~= kept.map_values(read).push(
                skill_in(rows.last().1),
            ));
            assert(skills_in(rows).map_values(wrap) =~= before.map_values(wrap).push(
                skill_in(rows.last().1),
            ));
        }
    }
}

/// A field is what the last line with its key says.
pub proof fn law_last_line_of_a_field_counts(lines: Seq<Seq<char>>, key: Seq<char>, i: int)
    requires
        0 <= i < lines.len(),
        chars::around(lines[i], ":"@) matches Some((k, _)) && chars::trim(k) == key,
        forall|j: int|
            i < j < lines.len() ==> !(chars::around(#[trigger] lines[j], ":"@) matches Some((k, _))
                && chars::trim(k) == key),
    ensures
        field_of(lines, key) == Some(chars::trim((chars::around(lines[i], ":"@)->0).1)),
    decreases lines.len(),
{
    if i < lines.len() - 1 {
        assert(!(chars::around(lines[lines.len() - 1], ":"@) matches Some((k, _)) && chars::trim(k)
            == key));
        law_last_line_of_a_field_counts(lines.drop_last(), key, i);
    }
}

/// A skill has the name, the description and the command that its file gives.
pub proof fn law_skill_is_what_its_file_says(content: Seq<char>)
    ensures
        skill_in(content) matches Some(s) ==> s.name.len() > 0 && s.description.len() > 0 && (
        exists|front: Seq<char>|
            #![trigger chars::lines(front)]
            occurs(content, front) && field_of(chars::lines(front), "name"@) == Some(s.name)
                && field_of(chars::lines(front), "description"@) == Some(s.description) && field_of(
                chars::lines(front),
                "exec"@,
            ) == s.command),
{
    let t = chars::trim_start(content);
    if skill_in(content) is Some {
        let after = chars::after_prefix(t, "---"@)->0;
        let end = chars::find(after, "\n---"@)->0 as int;
        let front = after.take(end);
        law_prefix_stands_first(t, "---"@);
        law_find_is_first_occurrence(after, "\n---"@);
        chars::lemma_drop_leading(content, CharSet::White);
        let a = content.take(content.len() - t.len());
        assert(content =~= a + t);
        lemma_part(a + "---"@, front, after.skip(end));
        assert(after =~= front + after.skip(end));
        assert(content =~= a + "---"@ + front + after.skip(end));
        assert(field_of(chars::lines(front), "exec"@) == (skill_in(content)->0).command);
    }
}

/// The skill that serves an input is the first that has a command and shares a
/// telling word with it, and there is one where any does.
pub proof fn law_first_serving_skill(skills: Seq<SkillModel>, input: Seq<char>, i: int)
    requires
        0 <= i < skills.len(),
        serves(skills[i], input),
        forall|j: int| 0 <= j < i ==> !serves(#[trigger] skills[j], input),
    ensures
        first_serving(skills, input) == Some(skills[i]),
    decreases skills.len(),
{
    if i > 0 {
        assert(!serves(skills[0], input));
        let rest = skills.skip(1);
        assert(rest[i - 1] == skills[i]);
        assert forall|j: int| 0 <= j < i - 1 implies !serves(#[trigger] rest[j], input) by {
            assert(rest[j] == skills[j + 1]);
        }
        law_first_serving_skill(rest, input, i - 1);
    }
}

/// Where no skill serves an input none is found.
pub proof fn law_no_serving_skill(skills: Seq<SkillModel>, input: Seq<char>)
    requires
        forall|j: int| 0 <= j < skills.len() ==> !serves(#[trigger] skills[j], input),
    ensures
        first_serving(skills, input) is None,
    decreases skills.len(),
{
    if skills.len() > 0 {
        assert(!serves(skills[0], input));
        let rest = skills.skip(1);
        assert forall|j: int| 0 <= j < rest.len() implies !serves(#[trigger] rest[j], input) by {
            assert(rest[j] == skills[j + 1]);
        }
        law_no_serving_skill(rest, input);
    }
}

/// A skill with a command serves every input that shares a telling word with its
/// description, or with its name read with spaces for hyphens.
pub proof fn law_shared_word_makes_a_skill_serve(
    skill: SkillModel,
    input: Seq<char>,
    w: Seq<char>,
)
    requires
        skill.command is Some,
        telling_words(input).contains(w),
        telling_words(skill.description).contains(w) || telling_words(
            chars::replace_char(skill.name, '-', " "@),
        ).contains(w),
    ensures
        serves(skill, input),
{
    let name = chars::replace_char(skill.name, '-', " "@);
    let a = telling_words(name);
    let b = telling_words(skill.description);
    let all = telling_words(matched_text(skill));
    lemma_words_break(name, skill.description, is_telling());
    if a.contains(w) {
        let i = a.index_of(w);
        assert(all[i] == w);
    } else {
        let i = b.index_of(w);
        assert(all[a.len() + i] == w);
    }
}

/// A telling word is a run of letters and digits of the text, in lower case, of
/// three characters or more, and not generic; all of those are.
pub proof fn law_telling_words(s: Seq<char>, w: Seq<char>)
    ensures
        telling_words(s).contains(w) == (chars::pieces(
            chars::lower(s),
            CharSet::NotAlphanumeric,
        ).contains(w) && w.len() >= 3 && !crate::skills::is_generic(w)),
{
    lemma_filter_has(
        chars::pieces(chars::lower(s), CharSet::NotAlphanumeric),
        is_telling(),
        w,
    );
}

/// The skill of a name is the first of that name, in whatever case.
pub proof fn law_first_skill_of_a_name(skills: Seq<SkillModel>, name: Seq<char>, i: int)
    requires
        0 <= i < skills.len(),
        chars::lower(skills[i].name) == chars::lower(chars::trim(name)),
        forall|j: int|
            0 <= j < i ==> chars::lower((#[trigger] skills[j]).name) != chars::lower(
                chars::trim(name),
            ),
    ensures
        skill_named(skills, name) == Some(skills[i]),
    decreases skills.len(),
{
    if i > 0 {
        assert(chars::lower(skills[0].name) != chars::lower(chars::trim(name)));
        let rest = skills.skip(1);
        assert(rest[i - 1] == skills[i]);
        assert forall|j: int| 0 <= j < i - 1 implies chars::lower((#[trigger] rest[j]).name)
            != chars::lower(chars::trim(name)) by {
            assert(rest[j] == skills[j + 1]);
        }
        law_first_skill_of_a_name(rest, name, i - 1);
    }
}

/// The index that a model is shown names every skill with its description.
pub proof fn law_index_names_every_skill(skills: Seq<SkillModel>, i: int)
    requires
        0 <= i < skills.len(),
    ensures
        occurs(skill_index(skills), index_line(skills[i])),
        occurs(skill_index(skills), skills[i].name),
        occurs(skill_index(skills), skills[i].description),
{
    let lines = skills.map_values(|s: SkillModel| index_line(s));
    let s = skills[i];
    let all = skill_index(skills);
    lemma_concat_part(lines, i);
    law_occurrence_carries_over("Available skills:\n"@, chars::concat(lines), seq![], lines[i]);
    assert("Available skills:\n"@ + chars::concat(lines) + Seq::<char>::empty() =~= all);
    lemma_part("- "@, s.name, ": "@ + s.description + "\n"@);
    assert("- "@ + s.name + (": "@ + s.description + "\n"@) =~= index_line(s));
    lemma_part("- "@ + s.name + ": "@, s.description, "\n"@);
    lemma_within(all, index_line(s), s.name);
    lemma_within(all, index_line(s), s.description);
}

/// The program of every skill's command is among the programs of the skills, and
/// no other is.
pub proof fn law_programs_of_skills(skills: Seq<SkillModel>, p: Seq<char>)
    ensures
        programs(skills).contains(p) == exists|i: int|
            0 <= i < skills.len() && ((#[trigger] skills[i]).command matches Some(c)
                && chars::words(c).len() > 0 && chars::words(c)[0] == p),
    decreases skills.len(),
{
    let all = programs(skills);
    if skills.len() > 0 {
        let init = skills.drop_last();
        let before = programs(init);
        law_programs_of_skills(init, p);
        if all.contains(p) {
            let k = all.index_of(p);
            if k < before.len() {
                assert(before[k] == p);
                assert(before.contains(p));
                let i = choose|i: int|
                    0 <= i < init.len() && ((#[trigger] init[i]).command matches Some(c)
                        && chars::words(c).len() > 0 && chars::words(c)[0] == p);
                assert(skills[i] == init[i]);
            } else {
                let last = skills[skills.len() - 1];
                assert(last.command matches Some(c) && chars::words(c)[0] == p);
            }
        }
        if exists|i: int|
            0 <= i < skills.len() && ((#[trigger] skills[i]).command matches Some(c)
                && chars::words(c).len() > 0 && chars::words(c)[0] == p) {
            let i = choose|i: int|
                0 <= i < skills.len() && ((#[trigger] skills[i]).command matches Some(c)
                    && chars::words(c).len() > 0 && chars::words(c)[0] == p);
            if i < init.len() {
                assert(init[i] == skills[i]);
                let k = before.index_of(p);
                assert(all[k] == p);
            } else {
                assert(all[before.len() as int] == p);
            }
        }
    }
}

// ---------------------------------------------------------------------------
// Tools
// ---------------------------------------------------------------------------

/// Absolute paths are taken as they are; every other path is one under the
/// workspace, and ends as it was asked for.
pub proof fn law_paths_are_under_the_workspace(workspace: Seq<char>, path: Seq<char>)
    ensures
        stands_at(path, "/"@, 0) ==> path_in(workspace, path) == path,
        !stands_at(path, "/"@, 0) ==> stands_at(path_in(workspace, path), workspace, 0)
            && path_in(workspace, path).len() >= path.len() && path_in(workspace, path).skip(
            path_in(workspace, path).len() - path.len(),
        ) == path,
{
    law_prefix_stands_first(path, "/"@);
    let r = path_in(workspace, path);
    if !stands_at(path, "/"@, 0) {
        assert(r.subrange(0, workspace.len() as int) =~= workspace);
        assert(r.skip(r.len() - path.len()) =~= path);
    }
}

/// A program that the policy allows is run as the step says, in the workspace and
/// with the policy's deadline; one that it does not is refused by name.
pub proof fn law_steps_are_asked_for_as_they_are(policy: ToolPolicy, step: StepModel)
    ensures
        step matches StepModel::Exec { program, args } ==> (policy.permits(program) ==> requested(
            policy,
            step,
        ) == (RequestModel::Spawn {
            program,
            args,
            dir: policy.workspace@,
            timeout: policy.timeout as nat,
        })),
        step matches StepModel::Exec { program, .. } ==> (!policy.permits(program) ==> (requested(
            policy,
            step,
        ) matches RequestModel::Ready(r) && !r.ok && occurs(r.output, program))),
        step matches StepModel::ReadFile(p) ==> requested(policy, step) == (RequestModel::ReadFile {
            path: path_in(policy.workspace@, p),
        }),
        step matches StepModel::ListDir(p) ==> requested(policy, step) == (RequestModel::ListDir {
            path: path_in(policy.workspace@, p),
        }),
        step matches StepModel::Answer(t) ==> (requested(policy, step) matches RequestModel::Ready(
            r,
        ) && r.ok && r.output == t),
{
    if let StepModel::Exec { program, .. } = step {
        lemma_part("exec denied: "@, program, " is not allowlisted"@);
    }
}

/// Every program is refused where programs are not allowed; where they are, those
/// of skills are allowed, and the others where the operator's list has them or is
/// empty.
pub proof fn law_permissions(policy: ToolPolicy, program: Seq<char>)
    ensures
        !policy.allow_exec ==> !policy.permits(program),
        policy.allow_exec && policy.allowed_exec@.len() == 0 ==> policy.permits(program),
        policy.allow_exec && chars::owned_texts(policy.skill_exec@).contains(program)
            ==> policy.permits(program),
        policy.allow_exec && chars::owned_texts(policy.allowed_exec@).contains(program)
            ==> policy.permits(program),
        policy.allowed_exec@.len() > 0 && !chars::owned_texts(policy.allowed_exec@).contains(
            program,
        ) && !chars::owned_texts(policy.skill_exec@).contains(program) ==> !policy.permits(program),
{
}

/// A file within the limit is given whole; of one over it only the sizes are told.
pub proof fn law_files_are_given_whole(data: Vec<u8>, max: nat)
    ensures
        data@.len() <= max ==> file_output(Ok(data), max) == lossy(data@),
        data@.len() > max ==> occurs(file_output(Ok(data), max), numbers::decimal(data@.len()))
            && occurs(file_output(Ok(data), max), numbers::decimal(max)),
{
    let a = "file is "@;
    let b = numbers::decimal(data@.len());
    let c = " bytes; limit is "@;
    let d = numbers::decimal(max);
    let e = " bytes"@;
    lemma_part(a, b, c + d + e);
    assert(a + b + (c + d + e) =~= a + b + c + d + e);
    lemma_part(a + b + c, d, e);
}

/// A listing within the limit names every entry, and in order: a directory with a
/// slash behind its name.
pub proof fn law_listings_name_every_entry(entries: Vec<DirEntry>, max: nat, i: int)
    requires
        0 <= i < entries@.len(),
        chars::byte_len(chars::join(chars::sorted(entry_names(entries@)), "\n"@)) <= max,
    ensures
        occurs(listing_output(Ok(entries), max), entries@[i].name@),
        entries@[i].is_dir ==> occurs(listing_output(Ok(entries), max), entries@[i].name@ + "/"@),
{
    let names = entry_names(entries@);
    let order = chars::sorted(names);
    chars::law_capped_keeps_limit(
        chars::join(order, "\n"@),
        max,
        "\n[truncated to "@ + numbers::decimal(max) + " bytes]"@,
    );
    chars::law_sorted_sorts(names);
    let n = names[i];
    assert(names.to_multiset().contains(n)) by {
        names.to_multiset_ensures();
        assert(names.contains(n));
    }
    assert(order.contains(n)) by {
        order.to_multiset_ensures();
    }
    let k = order.index_of(n);
    law_joined_parts_stand_in_whole(order, "\n"@, k);
    let name = entries@[i].name@;
    if entries@[i].is_dir {
        lemma_part(seq![], name, "/"@);
        assert(Seq::<char>::empty() + name + "/"@ =~= n);
        lemma_within(chars::join(order, "\n"@), n, name);
    }
}

/// What a program printed is given, both outputs, where it fits; whether the run
/// counts as good is whether the program said so.
pub proof fn law_output_of_programs_is_given(
    success: bool,
    stdout: Vec<u8>,
    stderr: Vec<u8>,
    max: nat,
)
    ensures
        ({
            let r = process_result(ProcessReply::Finished { success, stdout, stderr }, max);
            let both = lossy(stdout@) + "\nstderr:\n"@ + lossy(stderr@);
            &&& r.ok == success
            &&& r.name == "exec.run"@
            &&& stderr@.len() == 0 && chars::byte_len(lossy(stdout@)) <= max ==> r.output == lossy(
                stdout@,
            )
            &&& stderr@.len() > 0 && chars::byte_len(both) <= max ==> occurs(
                r.output,
                lossy(stdout@),
            ) && occurs(r.output, lossy(stderr@))
        }),
{
    let out = lossy(stdout@);
    let err = lossy(stderr@);
    let both = out + "\nstderr:\n"@ + err;
    let mark = "\n[truncated to "@ + numbers::decimal(max) + " bytes]"@;
    chars::law_capped_keeps_limit(out, max, mark);
    chars::law_capped_keeps_limit(both, max, mark);
    lemma_part(seq![], out, "\nstderr:\n"@ + err);
    assert(Seq::<char>::empty() + out + ("\nstderr:\n"@ + err) =~= both);
    lemma_part(out + "\nstderr:\n"@, err, seq![]);
    assert(out + "\nstderr:\n"@ + err + Seq::<char>::empty() =~= both);
}

/// A program that did not finish counts as failed, and the reason is told.
pub proof fn law_unfinished_programs_failed(reply: ProcessReply, max: nat)
    requires
        !(reply is Finished),
    ensures
        !process_result(reply, max).ok,
        reply matches ProcessReply::SpawnFailed(e) ==> occurs(
            process_result(reply, max).output,
            e@,
        ),
        reply matches ProcessReply::WaitFailed(e) ==> occurs(process_result(reply, max).output, e@),
        reply matches ProcessReply::OutputFailed(e) ==> occurs(
            process_result(reply, max).output,
            e@,
        ),
{
    match reply {
        ProcessReply::SpawnFailed(e) => {
            lemma_part("exec failed: "@, e@, seq![]);
            assert("exec failed: "@ + e@ + Seq::<char>::empty() =~= "exec failed: "@ + e@);
        },
        ProcessReply::WaitFailed(e) => {
            lemma_part("exec wait failed: "@, e@, seq![]);
            assert("exec wait failed: "@ + e@ + Seq::<char>::empty() =~= "exec wait failed: "@
                + e@);
        },
        ProcessReply::OutputFailed(e) => {
            lemma_part("exec output failed: "@, e@, seq![]);
            assert("exec output failed: "@ + e@ + Seq::<char>::empty() =~= "exec output failed: "@
                + e@);
        },
        _ => {},
    }
}

/// A file or a directory that could not be read is a failed step that tells the
/// error.
pub proof fn law_unread_files_failed(policy: ToolPolicy, path: Seq<char>, e: String)
    ensures
        !step_result(policy, StepModel::ReadFile(path), ToolReply::File(Err(e))).ok,
        occurs(
            step_result(policy, StepModel::ReadFile(path), ToolReply::File(Err(e))).output,
            e@,
        ),
        !step_result(policy, StepModel::ListDir(path), ToolReply::Listing(Err(e))).ok,
        occurs(
            step_result(policy, StepModel::ListDir(path), ToolReply::Listing(Err(e))).output,
            e@,
        ),
{
    reveal_strlit("read failed: ");
    reveal_strlit("read failed:");
    reveal_strlit("list failed: ");
    reveal_strlit("list failed:");
    let a = "read failed: "@ + e@;
    let b = "list failed: "@ + e@;
    assert(a.take(12) =~= "read failed:"@);
    assert(b.take(12) =~= "list failed:"@);
    lemma_part("read failed: "@, e@, seq![]);
    assert("read failed: "@ + e@ + Seq::<char>::empty() =~= a);
    lemma_part("list failed: "@, e@, seq![]);
    assert("list failed: "@ + e@ + Seq::<char>::empty() =~= b);
}

/// A plain name that is no stop word can name a path, and so can a word that names
/// a file; a stop word without a separator or a dot cannot.
pub proof fn law_words_that_name_paths(w: Seq<char>)
    ensures
        path_names()(w) ==> w.len() > 0,
        w.len() > 0 && names_file(w) ==> path_names()(w),
        is_stop(chars::lower(w)) && !names_file(w) ==> !path_names()(w),
        w.len() > 0 && !is_stop(chars::lower(w)) && (forall|i: int|
            0 <= i < w.len() ==> #[trigger] w[i] == '-' || w[i] == '_') ==> path_names()(w),
{
}

/// A line that names a pattern may have punctuation and white space around the
/// name, and capitals in it.
pub proof fn law_bare_lines_are_lower_case(line: Seq<char>)
    ensures
        chars::lower(bare(line)) == bare(line),
        bare(line).len() <= line.len(),
{
    let t = chars::trim(line);
    let u = chars::trim_set(t, CharSet::Punctuation);
    let v = chars::trim(u);
    assert(chars::lower(chars::lower(v)) =~= chars::lower(v));
    let a = crate::laws::texts::law_trim_takes_white_space_off(line);
    let b = crate::laws::texts::law_trim_takes_the_set_off(t, CharSet::Punctuation);
    let c = crate::laws::texts::law_trim_takes_white_space_off(u);
}

/// What makes a task risky: a word for running, installing, deleting or overwriting
/// something, or for doing so with higher rights.
pub open spec fn names_risk(l: Seq<char>) -> bool {
    exists|k: int| 0 <= k < risk_words().len() && occurs(l, #[trigger] risk_words()[k])
}

pub open spec fn risk_words() -> Seq<Seq<char>> {
    seq![
        "run a local command"@,
        "run command"@,
        "execute"@,
        "install"@,
        "delete"@,
        "overwrite"@,
        "sudo"@,
    ]
}

/// A task that names a risk, in capitals or not, is never run directly, whatever the
/// model says; any other pattern, and any pattern of another task, is taken as it was
/// chosen.
pub proof fn law_risky_tasks_are_not_run_directly(input: Seq<char>, reply: Seq<char>)
    ensures
        names_risk(chars::lower(input)) ==> pattern_after(input, reply) != AgentPattern::Direct,
        !names_risk(chars::lower(input)) ==> (pattern_in(reply) matches Some(p)
            ==> pattern_after(input, reply) == p),
        pattern_in(reply) matches Some(p) ==> (p != AgentPattern::Direct ==> pattern_after(
            input,
            reply,
        ) == p),
        pattern_in(reply) == Some(AgentPattern::Direct) && names_risk(chars::lower(input))
            ==> pattern_after(input, reply) == AgentPattern::HubAndSpoke,
{
    let l = chars::lower(input);
    let w = risk_words();
    assert forall|k: int| 0 <= k < w.len() implies chars::contains(l, w[k]) == occurs(
        l,
        #[trigger] w[k],
    ) by {
        crate::laws::texts::law_find_is_first_occurrence(l, w[k]);
    }
    assert(w[0] == "run a local command"@ && w[1] == "run command"@ && w[2] == "execute"@);
    assert(w[3] == "install"@ && w[4] == "delete"@ && w[5] == "overwrite"@ && w[6] == "sudo"@);
    if names_risk(l) {
        let k = choose|k: int| 0 <= k < w.len() && occurs(l, #[trigger] w[k]);
        assert(chars::contains(l, w[k]));
        assert(is_risky(input));
    } else {
        assert(!occurs(l, w[0]) && !occurs(l, w[1]) && !occurs(l, w[2]) && !occurs(l, w[3]));
        assert(!occurs(l, w[4]) && !occurs(l, w[5]) && !occurs(l, w[6]));
        assert(!is_risky(input));
    }
}

}
