//! Promises of the prompts, of the suggestions that change them, and of the
//! comparison of answers.
use vstd::prelude::*;

use crate::adjustments::{
    applied, directive_in, directive_of, dropped, first_content, is_skill_name, one_line, path_of,
    proposal_in, proposals_in, skill_file, DirectiveModel, ProposalModel,
};
use crate::advisor::{
    comparison_text, shared_words, total_words, verdict_on, word_list, word_set, DivergenceRecord,
    DivergenceVerdict,
};
use crate::chars;
use crate::chars::CharSet;
use crate::laws::texts::{
    law_prefix_stands_first, law_replace_keeps_the_parts, lemma_filter_has, lemma_part,
    lemma_pieces_break, lemma_within, occurs, stands_at,
};
use crate::numbers;
use crate::prompt_texts::{ADJUST_META_DEFAULT, MINIHOW_DEFAULT, MINIWHAT_DEFAULT, MINIWHY_DEFAULT};
use crate::prompts::{
    class_file, default_of, highest_rule, installed, next_rule, put_if_absent, rule_line,
    rule_number, subclass_file, substituted, variable, with_overlay_rule, with_rule, StoreModel,
};
use crate::skills::is_markdown;
use crate::table;
use crate::table::Row;
use crate::types::{AgentChoice, MessageClass, TaskId};

verus! {

// ---------------------------------------------------------------------------
// Templates
// ---------------------------------------------------------------------------

/// A variable is replaced by its value wherever it stands in a template, and the
/// rest of the template is kept.
pub proof fn law_variable_is_replaced(template: Seq<char>, name: Seq<char>, value: Seq<char>)
    ensures
        substituted(template, seq![(name, value)]) == chars::join(
            chars::split(template, variable(name)),
            value,
        ),
        occurs(template, variable(name)) ==> occurs(
            substituted(template, seq![(name, value)]),
            value,
        ),
{
    let vars = seq![(name, value)];
    reveal_strlit("{{");
    reveal_strlit("}}");
    assert(vars.drop_last() =~= Seq::<Row>::empty());
    assert(substituted(template, vars.drop_last()) == template);
    assert(vars.last() == (name, value));
    law_replace_keeps_the_parts(template, variable(name), value);
}

/// A template with none of the variables in it stays as it is.
pub proof fn law_template_without_variables_stays(template: Seq<char>, vars: Seq<Row>)
    requires
        forall|i: int|
            0 <= i < vars.len() ==> !occurs(template, variable((#[trigger] vars[i]).0)),
    ensures
        substituted(template, vars) == template,
    decreases vars.len(),
{
    reveal_strlit("{{");
    reveal_strlit("}}");
    if vars.len() > 0 {
        let init = vars.drop_last();
        assert forall|i: int| 0 <= i < init.len() implies !occurs(
            template,
            variable((#[trigger] init[i]).0),
        ) by {
            assert(init[i] == vars[i]);
        }
        law_template_without_variables_stays(template, init);
        assert(!occurs(template, variable(vars[vars.len() - 1].0)));
        law_replace_keeps_the_parts(template, variable(vars.last().0), vars.last().1);
    }
}

/// The last variable to be replaced has its value in the result wherever the
/// variable stood once the others were replaced.
pub proof fn law_last_variable_is_replaced(template: Seq<char>, vars: Seq<Row>)
    requires
        vars.len() > 0,
    ensures
        occurs(substituted(template, vars.drop_last()), variable(vars.last().0)) ==> occurs(
            substituted(template, vars),
            vars.last().1,
        ),
        !occurs(substituted(template, vars.drop_last()), variable(vars.last().0)) ==> substituted(
            template,
            vars,
        ) == substituted(template, vars.drop_last()),
{
    reveal_strlit("{{");
    reveal_strlit("}}");
    law_replace_keeps_the_parts(
        substituted(template, vars.drop_last()),
        variable(vars.last().0),
        vars.last().1,
    );
}

/// A class is rendered from its file where there is one, else from its default,
/// and the rules of a subclass stand behind it.
pub proof fn law_prompt_is_read_from_its_file(
    store: StoreModel,
    class: MessageClass,
    subclass: Option<Seq<char>>,
    vars: Seq<Row>,
)
    ensures
        table::lookup(store.prompts, class_file(class)) matches Some(t) ==> store.rendered(
            class,
            vars,
        ) == substituted(t, vars),
        table::lookup(store.prompts, class_file(class)) is None ==> store.rendered(class, vars)
            == substituted(default_of(class), vars),
        stands_at(store.rendered_with(class, subclass, vars), store.rendered(class, vars), 0),
        subclass is None ==> store.rendered_with(class, subclass, vars) == store.rendered(
            class,
            vars,
        ),
        subclass matches Some(sub) ==> (table::lookup(
            store.prompts,
            subclass_file(class, sub),
        ) matches Some(o) ==> (chars::trim(o).len() > 0 ==> occurs(
            store.rendered_with(class, subclass, vars),
            chars::trim_end(substituted(o, vars)),
        ) && occurs(store.rendered_with(class, subclass, vars), sub))),
        subclass matches Some(sub) ==> (table::lookup(store.prompts, subclass_file(class, sub)) is None
            ==> store.rendered_with(class, subclass, vars) == store.rendered(class, vars)),
{
    let main = store.rendered(class, vars);
    let all = store.rendered_with(class, subclass, vars);
    assert(all.subrange(0, main.len() as int) =~= main);
    if let Some(sub) = subclass {
        if let Some(o) = store.overlay(class, sub) {
            let t = chars::trim_end(substituted(o, vars));
            lemma_overlay_parts(main, "\n\nSubclass rules ("@, sub, "):\n"@, t, "\n"@);
        }
    }
}

proof fn lemma_overlay_parts(
    a: Seq<char>,
    p: Seq<char>,
    sub: Seq<char>,
    q: Seq<char>,
    t: Seq<char>,
    e: Seq<char>,
)
    ensures
        occurs(a + p + sub + q + t + e, sub),
        occurs(a + p + sub + q + t + e, t),
{
    lemma_part(a + p, sub, q + t + e);
    assert(a + p + sub + (q + t + e) =~= a + p + sub + q + t + e);
    lemma_part(a + p + sub + q, t, e);
}

// ---------------------------------------------------------------------------
// Rules
// ---------------------------------------------------------------------------

/// A rule's line tells its number, and white space in front of it does not matter.
pub proof fn law_rule_line_tells_its_number(n: nat, rest: Seq<char>)
    requires
        n <= usize::MAX,
    ensures
        rule_number(numbers::decimal(n) + ". "@ + rest) == Some(n),
{
    let d = numbers::decimal(n);
    let line = d + ". "@ + rest;
    reveal_strlit(". ");
    numbers::lemma_decimal_digits(n);
    let k = d.len() as int;
    assert(line[0] == d[0]);
    chars::lemma_drop_leading_is(line, CharSet::White, 0);
    assert(line.skip(0) =~= line);
    assert forall|j: int| 0 <= j < k implies !CharSet::NotDigit.has(#[trigger] line[j]) by {
        assert(line[j] == d[j]);
    }
    assert(line[k] == '.');
    chars::lemma_until_is(line, CharSet::NotDigit, k);
    assert(line.skip(k).take(2) =~= ". "@);
    assert(line.take(k) =~= d);
    numbers::law_decimal_round_trip(n, usize::MAX as nat);
}

/// The highest rule is the number of a line, none is higher, and without rules it
/// is 0.
pub proof fn law_highest_rule_is_the_greatest(lines: Seq<Seq<char>>)
    ensures
        forall|i: int|
            0 <= i < lines.len() ==> (rule_number(#[trigger] lines[i]) matches Some(n) ==> n
                <= highest_rule(lines)),
        highest_rule(lines) == 0 || exists|i: int|
            0 <= i < lines.len() && rule_number(#[trigger] lines[i]) == Some(highest_rule(lines)),
    decreases lines.len(),
{
    if lines.len() > 0 {
        let init = lines.drop_last();
        law_highest_rule_is_the_greatest(init);
        assert forall|i: int| 0 <= i < lines.len() implies (rule_number(
            #[trigger] lines[i],
        ) matches Some(n) ==> n <= highest_rule(lines)) by {
            if i < init.len() {
                assert(init[i] == lines[i]);
            }
        }
        if highest_rule(lines) != 0 {
            if highest_rule(lines) == highest_rule(init) {
                let i = choose|i: int|
                    0 <= i < init.len() && rule_number(#[trigger] init[i]) == Some(
                        highest_rule(init),
                    );
                assert(lines[i] == init[i]);
            } else {
                assert(rule_number(lines[lines.len() - 1]) == Some(highest_rule(lines)));
            }
        }
    }
}

/// A rule that is appended has a number above all others, as long as numbers last.
pub proof fn law_new_rule_is_numbered_above(s: Seq<char>, i: int)
    requires
        0 <= i < chars::lines(s).len(),
        next_rule(s) < usize::MAX,
    ensures
        rule_number(chars::lines(s)[i]) matches Some(n) ==> n < next_rule(s),
{
    law_highest_rule_is_the_greatest(chars::lines(s));
}

/// An appended rule stands at the end, under its number, behind everything that
/// was there.
pub proof fn law_appended_rule_stands_last(s: Seq<char>, rule: Seq<char>)
    ensures
        stands_at(with_rule(s, rule), chars::trim_end(s), 0),
        occurs(with_rule(s, rule), chars::trim(rule)),
        occurs(with_overlay_rule(s, rule), chars::trim(rule)),
        with_rule(s, rule).skip(with_rule(s, rule).len() - rule_line(next_rule(s), rule).len())
            == rule_line(next_rule(s), rule),
        with_overlay_rule(s, rule).skip(
            with_overlay_rule(s, rule).len() - rule_line(next_rule(s), rule).len(),
        ) == rule_line(next_rule(s), rule),
        chars::trim(s).len() > 0 ==> stands_at(with_overlay_rule(s, rule), chars::trim_end(s), 0),
{
    let line = rule_line(next_rule(s), rule);
    let r = with_rule(s, rule);
    let o = with_overlay_rule(s, rule);
    let t = chars::trim_end(s);
    lemma_part(numbers::decimal(next_rule(s)) + ". "@, chars::trim(rule), "\n"@);
    assert(r.subrange(0, t.len() as int) =~= t);
    assert(r.skip(r.len() - line.len()) =~= line);
    assert(o.skip(o.len() - line.len()) =~= line);
    lemma_part(t + "\n"@, line, seq![]);
    assert(t + "\n"@ + line + Seq::<char>::empty() =~= r);
    lemma_within(r, line, chars::trim(rule));
    if chars::trim(s).len() > 0 {
        assert(o.subrange(0, t.len() as int) =~= t);
        assert(o =~= r);
    } else {
        lemma_part(seq![], line, seq![]);
        assert(Seq::<char>::empty() + line + Seq::<char>::empty() =~= o);
        lemma_within(o, line, chars::trim(rule));
    }
}

// ---------------------------------------------------------------------------
// Suggestions
// ---------------------------------------------------------------------------

proof fn lemma_content(lines: Seq<Seq<char>>, i: int)
    requires
        0 <= i < lines.len(),
        chars::drop_leading(lines[i], CharSet::QuoteOrWhite).len() > 0,
        forall|j: int|
            0 <= j < i ==> chars::drop_leading(#[trigger] lines[j], CharSet::QuoteOrWhite).len()
                == 0,
    ensures
        first_content(lines) == Some(chars::drop_leading(lines[i], CharSet::QuoteOrWhite)),
    decreases lines.len(),
{
    if i > 0 {
        assert(chars::drop_leading(lines[0], CharSet::QuoteOrWhite).len() == 0);
        let rest = lines.skip(1);
        assert(rest[i - 1] == lines[i]);
        assert forall|j: int| 0 <= j < i - 1 implies chars::drop_leading(
            #[trigger] rest[j],
            CharSet::QuoteOrWhite,
        ).len() == 0 by {
            assert(rest[j] == lines[j + 1]);
        }
        lemma_content(rest, i - 1);
    }
}

/// A response is read from its first line that holds anything but white space and
/// quote marks.
pub proof fn law_first_line_with_contents_counts(
    class: MessageClass,
    response: Seq<char>,
    i: int,
)
    requires
        0 <= i < chars::lines(response).len(),
        chars::drop_leading(chars::lines(response)[i], CharSet::QuoteOrWhite).len() > 0,
        forall|j: int|
            0 <= j < i ==> chars::drop_leading(
                #[trigger] chars::lines(response)[j],
                CharSet::QuoteOrWhite,
            ).len() == 0,
    ensures
        directive_of(class, response) == directive_in(
            class,
            chars::drop_leading(chars::lines(response)[i], CharSet::QuoteOrWhite),
        ),
{
    lemma_content(chars::lines(response), i);
}

/// A rule is suggested for the class that was asked about, word for word without
/// white space around it; an empty one and one of more than 400 bytes are no
/// suggestion.
pub proof fn law_rule_is_suggested_for_its_class(class: MessageClass, rest: Seq<char>)
    ensures
        chars::trim(rest).len() > 0 && chars::byte_len(chars::trim(rest)) <= 400 ==> directive_in(
            class,
            "PROMPT_RULE_APPEND:"@ + rest,
        ) == Some(DirectiveModel::RuleAppend { class, rule: chars::trim(rest) }),
        chars::trim(rest).len() == 0 || chars::byte_len(chars::trim(rest)) > 400 ==> directive_in(
            class,
            "PROMPT_RULE_APPEND:"@ + rest,
        ) is None,
{
    let p = "PROMPT_RULE_APPEND:"@;
    let line = p + rest;
    reveal_strlit("PROMPT_RULE_APPEND:");
    reveal_strlit("NO_CHANGE");
    assert(line[0] == 'P');
    if chars::starts_with(line, "NO_CHANGE"@) {
        assert(line.take(9)[0] == 'N');
    }
    assert(line.take(p.len() as int) =~= p);
    assert(line.skip(p.len() as int) =~= rest);
}

/// No change is suggested by its word, whatever follows it; other words suggest
/// nothing.
pub proof fn law_no_change_is_suggested(class: MessageClass, line: Seq<char>)
    ensures
        stands_at(line, "NO_CHANGE"@, 0) <==> directive_in(class, line) == Some(
            DirectiveModel::NoChange,
        ),
        !stands_at(line, "NO_CHANGE"@, 0) && !stands_at(line, "PROMPT_RULE_APPEND:"@, 0)
            && !stands_at(line, "SKILL_NEW:"@, 0) ==> directive_in(class, line) is None,
{
    law_prefix_stands_first(line, "NO_CHANGE"@);
    law_prefix_stands_first(line, "PROMPT_RULE_APPEND:"@);
    law_prefix_stands_first(line, "SKILL_NEW:"@);
}

/// A skill is suggested by its name, description and command, in this order,
/// between bars.
pub proof fn law_skill_is_suggested_by_its_parts(
    class: MessageClass,
    name: Seq<char>,
    description: Seq<char>,
    command: Seq<char>,
)
    requires
        !name.contains('|'),
        !description.contains('|'),
        !command.contains('|'),
    ensures
        ({
            let line = "SKILL_NEW:"@ + (name + seq!['|'] + (description + seq!['|'] + command));
            let good = is_skill_name(chars::trim(name)) && chars::trim(description).len() > 0
                && chars::trim(command).len() > 0;
            &&& good ==> directive_in(class, line) == Some(
                DirectiveModel::SkillNew {
                    name: chars::trim(name),
                    description: chars::trim(description),
                    command: chars::trim(command),
                },
            )
            &&& !good ==> directive_in(class, line) is None
        }),
{
    let set = CharSet::Only('|');
    let p = "SKILL_NEW:"@;
    let rest = name + seq!['|'] + (description + seq!['|'] + command);
    let line = p + rest;
    reveal_strlit("SKILL_NEW:");
    reveal_strlit("PROMPT_RULE_APPEND:");
    reveal_strlit("NO_CHANGE");
    assert(line[0] == 'S');
    if chars::starts_with(line, "NO_CHANGE"@) {
        assert(line.take(9)[0] == 'N');
    }
    if chars::starts_with(line, "PROMPT_RULE_APPEND:"@) {
        assert(line.take(19)[0] == 'P');
    }
    assert(line.take(p.len() as int) =~= p);
    assert(line.skip(p.len() as int) =~= rest);
    lemma_pieces_break(name, '|', description + seq!['|'] + command, set);
    lemma_pieces_break(description, '|', command, set);
    lemma_one_piece(name, '|');
    lemma_one_piece(description, '|');
    lemma_one_piece(command, '|');
    let parts = chars::pieces(rest, set);
    assert(parts =~= seq![name, description, command]);
}

proof fn lemma_one_piece(s: Seq<char>, c: char)
    requires
        !s.contains(c),
    ensures
        chars::pieces(s, CharSet::Only(c)) == seq![s],
{
    let set = CharSet::Only(c);
    assert forall|j: int| 0 <= j < s.len() implies !set.has(#[trigger] s[j]) by {
        assert(s.contains(s[j]));
    }
    chars::lemma_until_is(s, set, s.len() as int);
    assert(chars::pieces(s, set) =~= seq![s]);
}

/// A suggestion changes one thing: a rule the overlay of the subclass, or the
/// template of its class where no subclass is given; a skill its own file. Every
/// other file stays as it was.
pub proof fn law_suggestion_changes_one_file(
    store: StoreModel,
    d: DirectiveModel,
    subclass: Option<Seq<char>>,
    other: Seq<char>,
)
    requires
        store.wf(),
    ensures
        ({
            let r = applied(store, d, subclass);
            &&& r.workspace == store.workspace && r.proposals == store.proposals
            &&& d is NoChange ==> r == store
            &&& d matches DirectiveModel::RuleAppend { class, rule } ==> r.skills == store.skills
                && (subclass matches Some(sub) ==> (other != subclass_file(class, sub)
                ==> table::lookup(r.prompts, other) == table::lookup(store.prompts, other)) && (
            table::lookup(r.prompts, subclass_file(class, sub)) matches Some(t) && occurs(
                t,
                chars::trim(rule),
            )))
            &&& d matches DirectiveModel::RuleAppend { class, rule } ==> (subclass is None ==> (other
                != class_file(class) ==> table::lookup(r.prompts, other) == table::lookup(
                store.prompts,
                other,
            )) && (table::lookup(r.prompts, class_file(class)) matches Some(t) && occurs(
                t,
                chars::trim(rule),
            )))
            &&& d matches DirectiveModel::SkillNew { name, description, command } ==> r.prompts
                == store.prompts && (other != name + ".md"@ ==> table::lookup(r.skills, other)
                == table::lookup(store.skills, other)) && (table::lookup(
                r.skills,
                name + ".md"@,
            ) matches Some(t) && occurs(t, name) && occurs(t, description) && occurs(t, command))
        }),
{
    match d {
        DirectiveModel::NoChange => {},
        DirectiveModel::RuleAppend { class, rule } => {
            match subclass {
                Some(sub) => {
                    let key = subclass_file(class, sub);
                    let old = store.overlay_file(class, sub);
                    let text = with_overlay_rule(old, rule);
                    law_appended_rule_stands_last(old, rule);
                    table::law_put_then_lookup(store.prompts, key, text, other);
                    table::law_put_then_lookup(store.prompts, key, text, key);
                },
                None => {
                    let key = class_file(class);
                    let text = with_rule(store.class_text(class), rule);
                    law_appended_rule_stands_last(store.class_text(class), rule);
                    table::law_put_then_lookup(store.prompts, key, text, other);
                    table::law_put_then_lookup(store.prompts, key, text, key);
                },
            }
        },
        DirectiveModel::SkillNew { name, description, command } => {
            let key = name + ".md"@;
            let text = skill_file(name, description, command);
            table::law_put_then_lookup(store.skills, key, text, other);
            table::law_put_then_lookup(store.skills, key, text, key);
            crate::laws::running::lemma_four(
                "---\nname: "@,
                name,
                "\ndescription: "@,
                description,
                "\nexec: "@,
                command,
                "\n---\n\nAuto-generated by advisor adjustment.\n"@,
                seq![],
                seq![],
            );
            let none = Seq::<char>::empty();
            assert(text + none + none =~= text);
        },
    }
}

/// A summary tells the class and the rule, or the name and the description of a
/// skill, each on one line and whole where it is short.
pub proof fn law_summary_tells_the_suggestion(d: DirectiveModel)
    ensures
        d matches DirectiveModel::RuleAppend { class, rule } ==> occurs(
            d.summary_text(),
            class.name(),
        ) && occurs(d.summary_text(), one_line(rule, 120)),
        d matches DirectiveModel::SkillNew { name, description, .. } ==> occurs(
            d.summary_text(),
            name,
        ) && occurs(d.summary_text(), one_line(description, 120)),
{
    match d {
        DirectiveModel::NoChange => {},
        DirectiveModel::RuleAppend { class, rule } => {
            lemma_two("rule-append ["@, class.name(), "]: "@, one_line(rule, 120));
        },
        DirectiveModel::SkillNew { name, description, .. } => {
            lemma_two("skill-new ["@, name, "]: "@, one_line(description, 120));
        },
    }
}

proof fn lemma_two(a: Seq<char>, s: Seq<char>, b: Seq<char>, t: Seq<char>)
    ensures
        occurs(a + s + b + t, s),
        occurs(a + s + b + t, t),
{
    lemma_part(a, s, b + t);
    assert(a + s + (b + t) =~= a + s + b + t);
    lemma_part(a + s + b, t, seq![]);
    assert(a + s + b + t + Seq::<char>::empty() =~= a + s + b + t);
}

/// A text is told on one line, and whole where it takes no more than the limit.
pub proof fn law_one_line_is_one_line(s: Seq<char>, max: nat)
    ensures
        !s.contains('\n') && chars::byte_len(s) <= max ==> one_line(s, max) == s,
        chars::byte_len(chars::replace_char(s, '\n', " "@)) <= max ==> !one_line(s, max).contains(
            '\n',
        ),
{
    reveal_strlit(" ");
    crate::laws::texts::law_replaced_character_is_gone(s, '\n', " "@);
    let r = chars::replace_char(s, '\n', " "@);
    chars::law_capped_keeps_limit(r, max, "…"@);
    crate::laws::texts::law_capped_marks_what_is_cut(r, max, "…"@);
}

// ---------------------------------------------------------------------------
// Proposals
// ---------------------------------------------------------------------------

/// The row is the file of a proposal.
pub open spec fn is_proposal_file(workspace: Seq<char>) -> spec_fn(Row) -> bool {
    |r: Row| is_markdown(r.0) && proposal_in(workspace, r.0, r.1) is Some
}

/// The list has the proposal of every file of one, in the order of the files, and
/// no others.
pub proof fn law_list_has_every_proposal(workspace: Seq<char>, rows: Seq<Row>)
    ensures
        proposals_in(workspace, rows).map_values(|p: ProposalModel| Some(p)) == rows.filter(
            is_proposal_file(workspace),
        ).map_values(|r: Row| proposal_in(workspace, r.0, r.1)),
        proposals_in(workspace, rows).len() == rows.filter(is_proposal_file(workspace)).len(),
    decreases rows.len(),
{
    reveal(Seq::filter);
    let wrap = |p: ProposalModel| Some(p);
    let read = |r: Row| proposal_in(workspace, r.0, r.1);
    let f = is_proposal_file(workspace);
    if rows.len() == 0 {
        assert(proposals_in(workspace, rows).map_values(wrap) =~= rows.filter(f).map_values(read));
    } else {
        law_list_has_every_proposal(workspace, rows.drop_last());
        let before = proposals_in(workspace, rows.drop_last());
        let kept = rows.drop_last().filter(f);
        let last = rows.last();
        if f(last) {
            assert(rows.filter(f) == kept.push(last));
            assert(kept.push(last).map_values(read) =~= kept.map_values(read).push(
                proposal_in(workspace, last.0, last.1),
            ));
            assert(proposals_in(workspace, rows).map_values(wrap) =~= before.map_values(wrap).push(
                proposal_in(workspace, last.0, last.1),
            ));
        }
    }
}

/// Dropping a proposal takes its file away and leaves every other file.
pub proof fn law_dropping_takes_one_file(
    store: StoreModel,
    p: ProposalModel,
    name: Seq<char>,
    other: Seq<char>,
)
    requires
        store.wf(),
        p.path == path_of(store.workspace, name),
    ensures
        table::lookup(dropped(store, p).proposals, name) is None,
        other != name ==> table::lookup(dropped(store, p).proposals, other) == table::lookup(
            store.proposals,
            other,
        ),
        dropped(store, p).prompts == store.prompts,
        dropped(store, p).skills == store.skills,
{
    let dir = path_of(store.workspace, ""@);
    let path = path_of(store.workspace, name);
    reveal_strlit("");
    reveal_strlit("proposals");
    assert(dir + name =~= path);
    assert(path.take(dir.len() as int) =~= dir);
    assert(path.skip(dir.len() as int) =~= name);
    table::law_without_then_lookup(store.proposals, name, name);
    table::law_without_then_lookup(store.proposals, name, other);
}

// ---------------------------------------------------------------------------
// Comparing answers
// ---------------------------------------------------------------------------

/// A word of a text is one of its runs of letters and digits, in lower case, of
/// three characters or more; all of those are.
pub proof fn law_words_of_an_answer(s: Seq<char>, w: Seq<char>)
    ensures
        word_set(s).contains(w) == (chars::pieces(
            chars::lower(s),
            CharSet::NotAlphanumeric,
        ).contains(w) && w.len() >= 3),
{
    lemma_filter_has(
        chars::pieces(chars::lower(s), CharSet::NotAlphanumeric),
        chars::at_least(3),
        w,
    );
    let list = word_list(s);
    assert(list.to_set().contains(w) == list.contains(w));
}

/// Answers share no more words than either has, and have no fewer together.
pub proof fn law_shared_words_are_some_of_all(a: Seq<char>, b: Seq<char>)
    ensures
        shared_words(a, b) <= word_set(a).len() <= total_words(a, b),
        shared_words(a, b) <= word_set(b).len() <= total_words(a, b),
        shared_words(a, b) + total_words(a, b) == word_set(a).len() + word_set(b).len(),
{
    let x = word_set(a);
    let y = word_set(b);
    word_list(a).lemma_cardinality_of_set();
    word_list(b).lemma_cardinality_of_set();
    vstd::set_lib::lemma_len_intersect(x, y);
    vstd::set_lib::lemma_len_intersect(y, x);
    assert(x.intersect(y) =~= y.intersect(x));
    vstd::set_lib::lemma_set_intersect_union_lens(x, y);
    assert(x + y =~= x.union(y));
}

/// Answers match from three quarters of shared words up, and diverge below seven
/// twentieths; more shared words never make the verdict worse.
pub proof fn law_verdict_follows_the_shared_words(shared: nat, total: nat, more: nat)
    requires
        shared <= more,
    ensures
        total == 0 ==> verdict_on(shared, total) == DivergenceVerdict::Match,
        total > 0 ==> (verdict_on(shared, total) == DivergenceVerdict::Match <==> shared * 100
            >= total * 75),
        total > 0 ==> (verdict_on(shared, total) == DivergenceVerdict::Divergent <==> shared * 100
            < total * 35),
        verdict_on(shared, total) == DivergenceVerdict::Match ==> verdict_on(more, total)
            == DivergenceVerdict::Match,
        verdict_on(more, total) == DivergenceVerdict::Divergent ==> verdict_on(shared, total)
            == DivergenceVerdict::Divergent,
{
}

/// A comparison tells the class, who served, the similarity, the verdict and both
/// answers, each whole where it is short.
pub proof fn law_comparison_tells_both_answers(r: DivergenceRecord, similarity: Seq<char>)
    ensures
        occurs(comparison_text(r, similarity), r.class.name()),
        occurs(comparison_text(r, similarity), r.served_by.name()),
        occurs(comparison_text(r, similarity), similarity),
        occurs(comparison_text(r, similarity), r.verdict.name()),
        chars::byte_len(r.primary@) <= 600 ==> occurs(comparison_text(r, similarity), r.primary@),
        chars::byte_len(r.advisor@) <= 600 ==> occurs(comparison_text(r, similarity), r.advisor@),
{
    let p = chars::capped(r.primary@, 600, "…"@);
    let a = chars::capped(r.advisor@, 600, "…"@);
    chars::law_capped_keeps_limit(r.primary@, 600, "…"@);
    chars::law_capped_keeps_limit(r.advisor@, 600, "…"@);
    let h1 = "[advisor] class="@;
    let h2 = " served_by="@;
    let h3 = " similarity="@;
    let h4 = " verdict="@;
    let h5 = "\n--- primary ---\n"@;
    let h6 = "\n--- advisor ---\n"@;
    lemma_six(
        h1,
        r.class.name(),
        h2,
        r.served_by.name(),
        h3,
        similarity,
        h4,
        r.verdict.name(),
        h5,
        p,
        h6,
        a,
    );
}

proof fn lemma_six(
    p1: Seq<char>,
    s1: Seq<char>,
    p2: Seq<char>,
    s2: Seq<char>,
    p3: Seq<char>,
    s3: Seq<char>,
    p4: Seq<char>,
    s4: Seq<char>,
    p5: Seq<char>,
    s5: Seq<char>,
    p6: Seq<char>,
    s6: Seq<char>,
)
    ensures
        occurs(p1 + s1 + p2 + s2 + p3 + s3 + p4 + s4 + p5 + s5 + p6 + s6, s1),
        occurs(p1 + s1 + p2 + s2 + p3 + s3 + p4 + s4 + p5 + s5 + p6 + s6, s2),
        occurs(p1 + s1 + p2 + s2 + p3 + s3 + p4 + s4 + p5 + s5 + p6 + s6, s3),
        occurs(p1 + s1 + p2 + s2 + p3 + s3 + p4 + s4 + p5 + s5 + p6 + s6, s4),
        occurs(p1 + s1 + p2 + s2 + p3 + s3 + p4 + s4 + p5 + s5 + p6 + s6, s5),
        occurs(p1 + s1 + p2 + s2 + p3 + s3 + p4 + s4 + p5 + s5 + p6 + s6, s6),
{
    let all = p1 + s1 + p2 + s2 + p3 + s3 + p4 + s4 + p5 + s5 + p6 + s6;
    let end = p5 + s5 + p6 + s6;
    crate::laws::running::lemma_four(p1, s1, p2, s2, p3, s3, p4, s4, end);
    assert(p1 + s1 + p2 + s2 + p3 + s3 + p4 + s4 + end =~= all);
    let head = p1 + s1 + p2 + s2 + p3 + s3 + p4 + s4;
    lemma_part(head + p5, s5, p6 + s6);
    assert(head + p5 + s5 + (p6 + s6) =~= all);
    lemma_part(head + p5 + s5 + p6, s6, seq![]);
    assert(head + p5 + s5 + p6 + s6 + Seq::<char>::empty() =~= all);
}

/// Installing the prompts never overwrites a file, and leaves none of the prompts
/// without one.
pub proof fn law_install_keeps_what_is_there(rows: Seq<Row>, name: Seq<char>)
    requires
        table::ordered(rows),
    ensures
        table::lookup(rows, name) matches Some(t) ==> table::lookup(installed(rows), name) == Some(
            t,
        ),
        table::lookup(installed(rows), "minihow.md"@) is Some,
        table::lookup(installed(rows), "miniwhy.md"@) is Some,
        table::lookup(installed(rows), "miniwhat.md"@) is Some,
        table::lookup(installed(rows), "adjust-meta.md"@) is Some,
{
    let a = put_if_absent(rows, "minihow.md"@, MINIHOW_DEFAULT@);
    let b = put_if_absent(a, "miniwhy.md"@, MINIWHY_DEFAULT@);
    let c = put_if_absent(b, "miniwhat.md"@, MINIWHAT_DEFAULT@);
    let hown = "minihow.md"@;
    let whyn = "miniwhy.md"@;
    let whatn = "miniwhat.md"@;
    lemma_put_absent(rows, hown, MINIHOW_DEFAULT@, name);
    lemma_put_absent(rows, hown, MINIHOW_DEFAULT@, hown);
    lemma_put_absent(a, whyn, MINIWHY_DEFAULT@, name);
    lemma_put_absent(a, whyn, MINIWHY_DEFAULT@, hown);
    lemma_put_absent(b, whatn, MINIWHAT_DEFAULT@, name);
    lemma_put_absent(b, whatn, MINIWHAT_DEFAULT@, hown);
    lemma_put_absent(b, whatn, MINIWHAT_DEFAULT@, whyn);
    let meta = ADJUST_META_DEFAULT@;
    lemma_put_absent(c, "adjust-meta.md"@, meta, name);
    lemma_put_absent(c, "adjust-meta.md"@, meta, hown);
    lemma_put_absent(c, "adjust-meta.md"@, meta, whyn);
    lemma_put_absent(c, "adjust-meta.md"@, meta, whatn);
}

proof fn lemma_put_absent(rows: Seq<Row>, key: Seq<char>, value: Seq<char>, name: Seq<char>)
    requires
        table::ordered(rows),
    ensures
        table::ordered(put_if_absent(rows, key, value)),
        table::lookup(put_if_absent(rows, key, value), key) is Some,
        table::lookup(rows, name) matches Some(t) ==> table::lookup(
            put_if_absent(rows, key, value),
            name,
        ) == Some(t),
{
    if table::lookup(rows, key) is None {
        table::lemma_put_ordered(rows, key, value);
        table::law_put_then_lookup(rows, key, value, key);
        table::law_put_then_lookup(rows, key, value, name);
    }
}

/// The rules of a subclass follow the whole prompt of their class; where there are
/// none, or they are blank, the prompt is all there is.
pub proof fn law_subclass_rules_follow_the_prompt(
    store: StoreModel,
    class: MessageClass,
    subclass: Seq<char>,
    vars: Seq<Row>,
)
    ensures
        stands_at(
            store.rendered_with(class, Some(subclass), vars),
            store.rendered(class, vars),
            0,
        ),
        store.rendered_with(class, None, vars) == store.rendered(class, vars),
        chars::trim(store.overlay_file(class, subclass)).len() == 0 ==> store.rendered_with(
            class,
            Some(subclass),
            vars,
        ) == store.rendered(class, vars),
        chars::trim(store.overlay_file(class, subclass)).len() > 0 ==> occurs(
            store.rendered_with(class, Some(subclass), vars),
            chars::trim_end(substituted(store.overlay_file(class, subclass), vars)),
        ),
{
    let main = store.rendered(class, vars);
    let whole = store.rendered_with(class, Some(subclass), vars);
    assert(whole.subrange(0, main.len() as int) =~= main);
    let none = Seq::<char>::empty();
    assert(chars::trim(none).len() == 0) by {
        crate::laws::texts::law_trim_takes_white_space_off(none);
    }
    if let Some(o) = store.overlay(class, subclass) {
        let inner = chars::trim_end(substituted(o, vars));
        lemma_part(main + "\n\nSubclass rules ("@ + subclass + "):\n"@, inner, "\n"@);
    }
}

/// Restoring the rules of a subclass gives back exactly what they were, and no
/// other file is touched.
pub proof fn law_restored_rules_are_what_they_were(
    store: StoreModel,
    class: MessageClass,
    subclass: Seq<char>,
    content: Seq<char>,
    other: Seq<char>,
)
    requires
        table::ordered(store.prompts),
    ensures
        store.overlay_restored(class, subclass, content).overlay_file(class, subclass) == content,
        content.len() == 0 ==> table::lookup(
            store.overlay_restored(class, subclass, content).prompts,
            subclass_file(class, subclass),
        ) is None,
        other != subclass_file(class, subclass) ==> table::lookup(
            store.overlay_restored(class, subclass, content).prompts,
            other,
        ) == table::lookup(store.prompts, other),
        store.overlay_restored(class, subclass, content).skills == store.skills,
        store.overlay_restored(class, subclass, content).proposals == store.proposals,
{
    let name = subclass_file(class, subclass);
    table::law_put_then_lookup(store.prompts, name, content, name);
    table::law_put_then_lookup(store.prompts, name, content, other);
    table::law_without_then_lookup(store.prompts, name, name);
    table::law_without_then_lookup(store.prompts, name, other);
    assert(content.len() == 0 ==> content =~= Seq::<char>::empty());
}

}
