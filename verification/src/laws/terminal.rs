//! Promises of the prompt and of what is printed: how a line is read, and what
//! reports, replies and lists tell.
use vstd::prelude::*;

use crate::chars;
use crate::chars::CharSet;
use crate::cli::{
    chat_in, chat_reply, chats_text, compact, compact_chars, ending, is_not_found, masked,
    report_label, report_text, token_fault, LineModel, ReplyModel,
};
use crate::cli::commands::{
    bar_parts, behind_word, command_named, is_barred, loop_meaning, memory_replied, parts_behind,
    repl_meaning, shown_task, stages_of, task_line, Command, ReplModel,
};
use crate::config::number_texts;
use crate::laws::running::lemma_four;
use crate::laws::texts::{
    law_find_is_first_occurrence, law_joined_parts_stand_in_whole, law_prefix_stands_first,
    lemma_around_first, lemma_part, lemma_pieces_break, occurs, stands_at,
};
use crate::memory::{InMemoryStore, MemoryStore};
use crate::numbers;
use crate::order;
use crate::table;
use crate::types::{MessageClass, TaskId, TaskModel};

verus! {

/// The text of a line.
pub open spec fn said(l: LineModel) -> Seq<char> {
    match l {
        LineModel::Printed(t) => t,
        LineModel::Complaint(t) => t,
    }
}

// ---------------------------------------------------------------------------
// Reports and replies
// ---------------------------------------------------------------------------

/// A reply to a chat has the output, whole where it fits, under a heading that
/// tells a failure from a success.
pub proof fn law_chat_reply_has_the_output(class: MessageClass, output: Seq<char>)
    ensures
        chars::trim(output).len() > 0 && chars::byte_len(
            report_label(class, output) + ":\n"@ + chars::trim(output),
        ) <= 3500 ==> chat_reply(class, output) == report_label(class, output) + ":\n"@
            + chars::trim(output) && occurs(chat_reply(class, output), chars::trim(output)),
        class == MessageClass::MiniHow && stands_at(output, "error:"@, 0) ==> report_label(
            class,
            output,
        ) == "Failed"@,
        class == MessageClass::MiniHow && !stands_at(output, "error:"@, 0) ==> report_label(
            class,
            output,
        ) == "Done"@,
        class != MessageClass::MiniHow ==> report_label(class, output) == report_label(class, ""@),
        chars::byte_len(chat_reply(class, output)) <= 3500 + chars::byte_len("\n[truncated]"@),
{
    let body = chars::trim(output);
    let label = report_label(class, output);
    let whole = label + ":\n"@ + body;
    law_prefix_stands_first(output, "error:"@);
    chars::law_capped_keeps_limit(whole, 3500, "\n[truncated]"@);
    chars::law_capped_keeps_limit(label + ": (no output)"@, 3500, "\n[truncated]"@);
    lemma_part(label + ":\n"@, body, seq![]);
    assert(label + ":\n"@ + body + Seq::<char>::empty() =~= whole);
}

/// A report tells the task, the class and the steps, and ends with the output.
pub proof fn law_report_tells_the_session(
    id: TaskId,
    class: MessageClass,
    steps: nat,
    output: Seq<char>,
)
    ensures
        occurs(report_text(id, class, steps, output), id.name()),
        occurs(report_text(id, class, steps, output), class.name()),
        occurs(report_text(id, class, steps, output), numbers::decimal(steps)),
        report_text(id, class, steps, output).skip(
            report_text(id, class, steps, output).len() - output.len(),
        ) == output,
{
    let all = report_text(id, class, steps, output);
    lemma_four(
        seq![],
        id.name(),
        " ["@,
        class.name(),
        "] steps="@,
        numbers::decimal(steps),
        "\n"@,
        output,
        seq![],
    );
    let none = Seq::<char>::empty();
    assert(none + id.name() + " ["@ + class.name() + "] steps="@ + numbers::decimal(steps) + "\n"@
        + output + none =~= all);
    assert(all.skip(all.len() - output.len()) =~= output);
}

/// The number of a chat is the one on the first line that gives one.
pub proof fn law_chat_of_the_first_line(lines: Seq<Seq<char>>, i: int, n: int)
    requires
        0 <= i < lines.len(),
        i64::MIN <= n <= i64::MAX,
        lines[i] == "chat_id="@ + numbers::signed(n),
        forall|j: int| 0 <= j < i ==> !stands_at(#[trigger] lines[j], "chat_id="@, 0),
    ensures
        chat_in(lines) == Some(n),
    decreases lines.len(),
{
    let p = "chat_id="@;
    law_prefix_stands_first(lines[0], p);
    if i > 0 {
        assert(!stands_at(lines[0], p, 0));
        let rest = lines.skip(1);
        assert(rest[i - 1] == lines[i]);
        assert forall|j: int| 0 <= j < i - 1 implies !stands_at(#[trigger] rest[j], p, 0) by {
            assert(rest[j] == lines[j + 1]);
        }
        law_chat_of_the_first_line(rest, i - 1, n);
    } else {
        assert(lines[0].take(p.len() as int) =~= p);
        assert(lines[0].skip(p.len() as int) =~= numbers::signed(n));
        numbers::law_signed_round_trip(n);
    }
}

/// A token shows what stands before its colon and how it ends, and of a longer
/// secret nothing else.
pub proof fn law_mask_shows_the_bot(head: Seq<char>, secret: Seq<char>)
    requires
        !head.contains(':'),
    ensures
        masked(head + ":"@ + secret) == head + ":***"@ + ending(secret, 4),
        secret.len() >= 4 ==> ending(secret, 4).len() == 4 && ending(secret, 4)[3] == secret.last(),
{
    reveal_strlit(":");
    lemma_around_first(head, ":"@, secret);
}

/// The shape of a token: a number, a colon, and at least twenty letters, digits,
/// underscores and hyphens. Every other text has a fault.
pub proof fn law_token_shape(id: Seq<char>, secret: Seq<char>)
    requires
        !id.contains(':'),
    ensures
        token_fault(id + ":"@ + secret) is None <==> id.len() > 0 && chars::all_in(
            id,
            CharSet::Digit,
        ) && chars::byte_len(secret) >= 20 && chars::all_in(secret, CharSet::NameChar),
{
    reveal_strlit(":");
    lemma_around_first(id, ":"@, secret);
}

/// A token without a colon has a fault.
pub proof fn law_token_needs_a_colon(token: Seq<char>)
    ensures
        !occurs(token, ":"@) ==> token_fault(token) is Some,
{
    law_find_is_first_occurrence(token, ":"@);
}

/// An error tells of an unknown token where the code 404 stands in it.
pub proof fn law_unknown_token_is_told_by_its_code(e: Seq<char>)
    ensures
        occurs(e, " 404"@) ==> is_not_found(e),
        occurs(e, "\"error_code\":404"@) ==> is_not_found(e),
        !occurs(e, "404"@) ==> !is_not_found(e),
{
    law_find_is_first_occurrence(e, " 404"@);
    law_find_is_first_occurrence(e, "error: 404"@);
    law_find_is_first_occurrence(e, "returned error: 404"@);
    law_find_is_first_occurrence(e, "\"error_code\":404"@);
    reveal_strlit("404");
    reveal_strlit(" 404");
    reveal_strlit("error: 404");
    reveal_strlit("returned error: 404");
    reveal_strlit("\"error_code\":404");
    lemma_tail(e, " 404"@, "404"@);
    lemma_tail(e, "error: 404"@, "404"@);
    lemma_tail(e, "returned error: 404"@, "404"@);
    lemma_tail(e, "\"error_code\":404"@, "404"@);
}

proof fn lemma_tail(s: Seq<char>, whole: Seq<char>, end: Seq<char>)
    requires
        end.len() <= whole.len(),
        whole.skip(whole.len() - end.len()) =~= end,
    ensures
        occurs(s, whole) ==> occurs(s, end),
{
    if occurs(s, whole) {
        let n = whole.len() - end.len();
        let i = choose|i: int| stands_at(s, whole, i);
        let found = s.subrange(i, i + whole.len());
        let last = s.subrange(i + n, i + n + end.len());
        assert forall|k: int| 0 <= k < end.len() implies last[k] == end[k] by {
            assert(found[n + k] == whole[n + k]);
            assert(whole.skip(n)[k] == whole[n + k]);
        }
        assert(last =~= end);
        assert(stands_at(s, end, i + n));
    }
}

/// The chats are listed by their numbers, all of them.
pub proof fn law_every_chat_is_listed(chats: Set<i64>, id: i64)
    requires
        chats.finite(),
        chats.contains(id),
    ensures
        occurs(chats_text(chats), numbers::signed(id as int)),
{
    order::lemma_listed_lists(chats);
    let all = order::listed(chats);
    assert(all.to_set().contains(id));
    assert(all.contains(id));
    let k = all.index_of(id);
    let texts = number_texts(all);
    assert(texts[k] == numbers::signed(id as int));
    law_joined_parts_stand_in_whole(texts, ","@, k);
}

/// A text in quotes stands on one line, and a plain one is kept as it is.
pub proof fn law_quoted_form_stands_on_one_line(s: Seq<char>)
    ensures
        !compact(s).contains('\n'),
        (forall|i: int|
            0 <= i < s.len() ==> #[trigger] s[i] != '"' && s[i] != '\\' && !chars::is_control(s[i]))
            ==> compact(s) == "\""@ + s + "\""@,
{
    reveal_strlit("\"");
    lemma_compact(s);
    if compact(s).contains('\n') {
        let i = compact(s).index_of('\n');
        let c = compact_chars(s);
        if 0 < i && i <= c.len() {
            assert(c[i - 1] == '\n');
        }
    }
}

proof fn lemma_compact(s: Seq<char>)
    ensures
        !compact_chars(s).contains('\n'),
        (forall|i: int|
            0 <= i < s.len() ==> #[trigger] s[i] != '"' && s[i] != '\\' && !chars::is_control(s[i]))
            ==> compact_chars(s) == s,
    decreases s.len(),
{
    if s.len() > 0 {
        let init = s.drop_last();
        lemma_compact(init);
        let before = compact_chars(init);
        let all = compact_chars(s);
        if all.contains('\n') {
            let i = all.index_of('\n');
            if i < before.len() {
                assert(before[i] == '\n');
            }
        }
        if forall|i: int|
            0 <= i < s.len() ==> #[trigger] s[i] != '"' && s[i] != '\\' && !chars::is_control(
                s[i],
            ) {
            assert forall|i: int| 0 <= i < init.len() implies #[trigger] init[i] != '"' && init[i]
                != '\\' && !chars::is_control(init[i]) by {
                assert(init[i] == s[i]);
            }
            assert(s[s.len() - 1] != '"');
            assert(all =~= s);
        }
    }
}

/// A task is listed with its number, its status and its title, and shown with its
/// times too.
pub proof fn law_tasks_are_told(t: TaskModel, id: TaskId)
    ensures
        occurs(said(task_line(t)), t.id.name()),
        occurs(said(task_line(t)), t.status.name()),
        occurs(said(task_line(t)), t.title),
        occurs(shown_task(id, Some(t)), t.id.name()),
        occurs(shown_task(id, Some(t)), t.status.name()),
        occurs(shown_task(id, Some(t)), t.title),
        occurs(shown_task(id, Some(t)), numbers::decimal(t.created_at as nat)),
        occurs(shown_task(id, Some(t)), numbers::decimal(t.updated_at as nat)),
        occurs(shown_task(id, None), id.name()),
{
    let none = Seq::<char>::empty();
    let a = t.id.name();
    let b = t.status.name();
    lemma_four(none, a, " ["@, b, "] "@, t.title, none, none, none);
    assert(none + a + " ["@ + b + "] "@ + t.title + none + none + none =~= said(task_line(t)));
    let c = numbers::decimal(t.created_at as nat);
    let d = numbers::decimal(t.updated_at as nat);
    let all = shown_task(id, Some(t));
    let end = "\n"@ + t.title;
    lemma_four(none, a, " ["@, b, "] created="@, c, " updated="@, d, end);
    assert(none + a + " ["@ + b + "] created="@ + c + " updated="@ + d + end =~= all);
    let head = a + " ["@ + b + "] created="@ + c + " updated="@ + d + "\n"@;
    lemma_part(head, t.title, none);
    assert(head + t.title + none =~= all);
    lemma_part("task not found: "@, id.name(), none);
    assert("task not found: "@ + id.name() + none =~= "task not found: "@ + id.name());
}

// ---------------------------------------------------------------------------
// Lines at the prompt
// ---------------------------------------------------------------------------

/// A text that is no command is a message, whole but for white space around it.
pub proof fn law_plain_lines_are_messages(line: Seq<char>)
    requires
        chars::trim(line).len() > 0,
        chars::trim(line)[0] != '/',
        chars::trim(line) != "help"@,
    ensures
        repl_meaning(line) == ReplModel::Message(chars::trim(line)),
{
    let t = chars::trim(line);
    reveal_strlit("/quit");
    reveal_strlit("/exit");
    reveal_strlit("/help");
    reveal_strlit("/ls");
    reveal_strlit("/read ");
    reveal_strlit("/exec ");
    reveal_strlit("/tick");
    reveal_strlit("/heartbeat");
    reveal_strlit("/enqueue");
    reveal_strlit("/pipeline");
    reveal_strlit("/mapreduce");
    lemma_no_slash(t, "/quit"@);
    lemma_no_slash(t, "/exit"@);
    lemma_no_slash(t, "/help"@);
    lemma_no_slash(t, "/ls"@);
    lemma_no_slash(t, "/read "@);
    lemma_no_slash(t, "/exec "@);
    lemma_no_slash(t, "/tick"@);
    lemma_no_slash(t, "/heartbeat"@);
    lemma_no_slash(t, "/enqueue"@);
    lemma_no_slash(t, "/pipeline"@);
    lemma_no_slash(t, "/mapreduce"@);
}

proof fn lemma_no_slash(t: Seq<char>, p: Seq<char>)
    requires
        p.len() > 0,
        p[0] == '/',
        t.len() > 0,
        t[0] != '/',
    ensures
        t != p,
        chars::after_prefix(t, p) is None,
{
    if chars::starts_with(t, p) {
        assert(t.take(p.len() as int)[0] == p[0]);
    }
}

/// Commands for the machine are handed on as they are typed: a program with its
/// arguments, a file to read, a directory to list.
pub proof fn law_machine_commands_are_handed_on(line: Seq<char>, rest: Seq<char>)
    ensures
        chars::trim(line) == "/exec "@ + rest ==> repl_meaning(line) == ReplModel::Exec(rest),
        chars::trim(line) == "/read "@ + rest ==> repl_meaning(line) == ReplModel::Exec(
            "read "@ + rest,
        ),
        chars::trim(line) == "/ls"@ + rest ==> repl_meaning(line) == ReplModel::Exec("ls"@ + rest),
{
    let t = chars::trim(line);
    reveal_strlit("/quit");
    reveal_strlit("/exit");
    reveal_strlit("/help");
    reveal_strlit("help");
    reveal_strlit("/ls");
    reveal_strlit("/read ");
    reveal_strlit("/exec ");
    if t == "/exec "@ + rest {
        assert(t[0] == '/' && t[1] == 'e' && t[2] == 'x' && t[3] == 'e');
        assert("/exit"@[3] == 'i');
        lemma_other_second(t, "/ls"@);
        lemma_other_second(t, "/read "@);
        assert(t.take(6) =~= "/exec "@);
        assert(t.skip(6) =~= rest);
    }
    if t == "/read "@ + rest {
        assert(t[0] == '/' && t[1] == 'r');
        lemma_other_second(t, "/ls"@);
        assert(t.take(6) =~= "/read "@);
        assert(t.skip(6) =~= rest);
    }
    if t == "/ls"@ + rest {
        assert(t[0] == '/' && t[1] == 'l');
        assert(t.take(3) =~= "/ls"@);
        assert(t.skip(3) =~= rest);
    }
}

proof fn lemma_other_second(t: Seq<char>, p: Seq<char>)
    requires
        p.len() > 1,
        t.len() > 1,
        t[1] != p[1],
    ensures
        chars::after_prefix(t, p) is None,
{
    if chars::starts_with(t, p) {
        assert(t.take(p.len() as int)[1] == p[1]);
    }
}

/// A task is queued by its words, without white space around them.
pub proof fn law_tasks_are_queued_by_their_words(t: Seq<char>, rest: Seq<char>)
    requires
        t == "/enqueue "@ + rest,
        chars::trim(rest).len() > 0,
    ensures
        loop_meaning(t) == Some(ReplModel::Enqueue(chars::trim(rest))),
{
    reveal_strlit("/enqueue");
    reveal_strlit("/enqueue ");
    reveal_strlit("/tick");
    reveal_strlit("/heartbeat");
    assert(t[1] == 'e');
    assert("/tick"@[1] == 't' && "/heartbeat"@[1] == 'h');
    lemma_behind(t, "/enqueue"@, rest);
}

proof fn lemma_behind(t: Seq<char>, word: Seq<char>, rest: Seq<char>)
    requires
        t =~= word + seq![' '] + rest,
    ensures
        behind_word(t, word) == Some(chars::trim(rest)),
{
    assert(t.take(word.len() as int) =~= word);
    let tail = t.skip(word.len() as int);
    assert(tail =~= seq![' '] + rest);
    assert(tail[0] == ' ');
    assert(chars::is_white(' '));
    assert(tail.skip(1) =~= rest);
    assert(chars::trim_start(tail) == chars::trim_start(rest));
}

/// The parts of a text are what stands between its bars, each without white space
/// around it.
pub proof fn law_bars_part_a_text(first: Seq<char>, rest: Seq<char>)
    requires
        !first.contains('|'),
    ensures
        bar_parts(first) == seq![chars::trim(first)],
        bar_parts(first + seq!['|'] + rest) == seq![chars::trim(first)] + bar_parts(rest),
        parts_behind(first + seq!['|'] + rest) == bar_parts(rest).filter(chars::at_least(1)),
{
    let set = CharSet::Only('|');
    let f = |p: Seq<char>| chars::trim(p);
    assert forall|j: int| 0 <= j < first.len() implies !set.has(#[trigger] first[j]) by {
        assert(first.contains(first[j]));
    }
    chars::lemma_until_is(first, set, first.len() as int);
    assert(chars::pieces(first, set) =~= seq![first]);
    lemma_pieces_break(first, '|', rest, set);
    let s = first + seq!['|'] + rest;
    assert(bar_parts(first) =~= seq![chars::trim(first)]);
    assert(bar_parts(s) =~= seq![chars::trim(first)] + bar_parts(rest));
    assert(bar_parts(s).skip(1) =~= bar_parts(rest));
}

/// A pipeline starts with what stands before the first bar and has every part
/// behind it that is not empty as a step, in order; so has a map-reduce its items.
pub proof fn law_bars_give_steps_and_items(t: Seq<char>, first: Seq<char>, rest: Seq<char>)
    requires
        !first.contains('|'),
        chars::trim(first + seq!['|'] + rest) == first + seq!['|'] + rest,
        chars::trim(first).len() > 0,
        bar_parts(rest).filter(chars::at_least(1)).len() > 0,
    ensures
        t == "/pipeline "@ + (first + seq!['|'] + rest) ==> loop_meaning(t) == Some(
            ReplModel::Pipeline {
                input: chars::trim(first),
                steps: bar_parts(rest).filter(chars::at_least(1)),
            },
        ),
        t == "/mapreduce "@ + (first + seq!['|'] + rest) ==> loop_meaning(t) == Some(
            ReplModel::MapReduce {
                goal: chars::trim(first),
                items: bar_parts(rest).filter(chars::at_least(1)),
            },
        ),
{
    let s = first + seq!['|'] + rest;
    law_bars_part_a_text(first, rest);
    assert(bar_parts(s)[0] == chars::trim(first));
    reveal_strlit("/pipeline ");
    reveal_strlit("/mapreduce ");
    reveal_strlit("/pipeline");
    reveal_strlit("/mapreduce");
    reveal_strlit("/enqueue");
    reveal_strlit("/tick");
    reveal_strlit("/heartbeat");
    if t == "/pipeline "@ + s {
        assert(t[1] == 'p');
        assert("/tick"@[1] == 't' && "/heartbeat"@[1] == 'h');
        lemma_other_second(t, "/enqueue"@);
        lemma_behind(t, "/pipeline"@, s);
    }
    if t == "/mapreduce "@ + s {
        assert(t[1] == 'm');
        assert("/tick"@[1] == 't' && "/heartbeat"@[1] == 'h');
        lemma_other_second(t, "/enqueue"@);
        lemma_other_second(t, "/pipeline"@);
        lemma_behind(t, "/mapreduce"@, s);
    }
}

/// Every step is a stage under its number, counted from one, with the step as its
/// instruction.
pub proof fn law_steps_are_numbered_stages(steps: Seq<Seq<char>>, i: int)
    requires
        0 <= i < steps.len(),
    ensures
        stages_of(steps).len() == steps.len(),
        stages_of(steps)[i].1 == steps[i],
        stages_of(steps)[i].0 == "stage-"@ + numbers::decimal((i + 1) as nat),
{
}

/// A fact that was set by command is what the command that reads it prints; every
/// other fact is as before.
pub proof fn law_memory_command_reads_back(
    pre: InMemoryStore,
    mid: InMemoryStore,
    post: InMemoryStore,
    key: Seq<char>,
    words: Seq<Seq<char>>,
    set_reply: ReplyModel,
    get_reply: ReplyModel,
    other: Seq<char>,
    other_reply: ReplyModel,
)
    requires
        pre.wf(),
        memory_replied(pre, mid, seq!["set"@, key] + words, set_reply),
        memory_replied(mid, post, seq!["get"@, key], get_reply),
        memory_replied(mid, mid, seq!["get"@, other], other_reply),
    ensures
        set_reply.code == 0,
        get_reply.code == 0,
        get_reply.lines == seq![LineModel::Printed(chars::join(words, " "@))],
        post == mid,
        other != key ==> table::lookup(mid@.facts, other) == table::lookup(pre@.facts, other),
        other != key ==> (table::lookup(pre@.facts, other) matches Some(v) ==> other_reply.lines
            == seq![LineModel::Printed(v)]),
{
    reveal_strlit("get");
    reveal_strlit("set");
    assert("get"@[0] == 'g' && "set"@[0] == 's');
    let args = seq!["set"@, key] + words;
    assert(args[0] == "set"@ && args[1] == key);
    assert(args.skip(2) =~= words);
    let value = chars::join(words, " "@);
    let asked = seq!["get"@, key];
    assert(asked[0] == "get"@ && asked[1] == key);
    let next = seq!["get"@, other];
    assert(next[0] == "get"@ && next[1] == other);
    table::law_put_then_lookup(pre@.facts, key, value, key);
    table::law_put_then_lookup(pre@.facts, key, value, other);
}

/// A word that goes on is another word.
pub proof fn law_command_words_stand_alone(word: Seq<char>, s: Seq<char>)
    ensures
        s.len() > 0 && !chars::is_white(s[0]) ==> behind_word(word + s, word) is None,
        s.len() > 0 && chars::is_white(s[0]) ==> behind_word(word + s, word) == Some(
            chars::trim(s),
        ),
        behind_word(word, word) == Some(Seq::<char>::empty()),
{
    assert((word + s).take(word.len() as int) =~= word);
    assert((word + s).skip(word.len() as int) =~= s);
    assert(word.take(word.len() as int) =~= word);
    assert(word.skip(word.len() as int) =~= Seq::<char>::empty());
}

/// A text without a bar, without anything before its first bar, or with nothing
/// behind it, is not parted by bars.
pub proof fn law_bars_need_both_sides(first: Seq<char>, rest: Seq<char>)
    requires
        !first.contains('|'),
    ensures
        !is_barred(first),
        chars::trim(first).len() == 0 ==> !is_barred(first + seq!['|'] + rest),
        bar_parts(rest).filter(chars::at_least(1)).len() == 0 ==> !is_barred(
            first + seq!['|'] + rest,
        ),
        chars::trim(first).len() > 0 && bar_parts(rest).filter(chars::at_least(1)).len() > 0
            ==> is_barred(first + seq!['|'] + rest),
{
    law_bars_part_a_text(first, rest);
    let alone = bar_parts(first).skip(1);
    assert(alone =~= seq![]);
    reveal(Seq::filter);
    assert(alone.filter(chars::at_least(1)).len() == 0);
    assert(bar_parts(first + seq!['|'] + rest)[0] == chars::trim(first));
}

/// A command has one meaning under each of its names, and the commands differ.
pub proof fn law_commands_have_their_names(w: Seq<char>)
    ensures
        command_named(None) == command_named(Some("run"@)),
        command_named(Some("onboard"@)) == command_named(Some("onboarding"@)),
        command_named(Some("help"@)) == command_named(Some("-h"@)),
        command_named(Some("help"@)) == command_named(Some("--help"@)),
        command_named(Some("version"@)) == command_named(Some("-V"@)),
        command_named(Some("version"@)) == command_named(Some("--version"@)),
        command_named(Some("version"@)) == Command::Version,
        command_named(Some("help"@)) == Command::Help,
        command_named(Some(w)) == Command::Task ==> w == "task"@,
        command_named(Some(w)) == Command::Memory ==> w == "memory"@,
        command_named(Some(w)) == Command::Config ==> w == "config"@,
        command_named(Some(w)) == Command::Gateway ==> w == "gateway"@,
        command_named(Some(w)) == Command::Uninstall ==> w == "uninstall"@,
        command_named(Some(w)) == Command::Telegram ==> w == "telegram"@,
        command_named(Some(w)) == Command::Repl ==> w == "run"@,
{
    lemma_distinct_names();
}

proof fn lemma_distinct_names()
    ensures
        command_named(Some("onboard"@)) == Command::Onboarding,
        command_named(Some("help"@)) == Command::Help,
        command_named(Some("-h"@)) == Command::Help,
        command_named(Some("--help"@)) == Command::Help,
        command_named(Some("version"@)) == Command::Version,
        command_named(Some("-V"@)) == Command::Version,
        command_named(Some("--version"@)) == Command::Version,
        command_named(Some("onboarding"@)) == Command::Onboarding,
{
    reveal_strlit("run");
    reveal_strlit("task");
    reveal_strlit("memory");
    reveal_strlit("config");
    reveal_strlit("gateway");
    reveal_strlit("onboarding");
    reveal_strlit("onboard");
    reveal_strlit("uninstall");
    reveal_strlit("telegram");
    reveal_strlit("help");
    reveal_strlit("--help");
    reveal_strlit("-h");
    reveal_strlit("--version");
    reveal_strlit("-V");
    reveal_strlit("version");
    assert("run"@[0] == 'r' && "task"@[0] == 't' && "memory"@[0] == 'm' && "config"@[0] == 'c');
    assert("gateway"@[0] == 'g' && "uninstall"@[0] == 'u' && "telegram"@[0] == 't');
    assert("onboard"@[0] == 'o' && "onboarding"@[0] == 'o');
    assert("help"@[0] == 'h' && "version"@[0] == 'v');
    assert("--help"@[0] == '-' && "-h"@[0] == '-' && "-V"@[0] == '-' && "--version"@[0] == '-');
    assert("-h"@[1] == 'h' && "-V"@[1] == 'V' && "--help"@[2] == 'h' && "--version"@[2] == 'v');
}

}
