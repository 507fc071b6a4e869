//! Promises of the channels: which messages are read from a reply, what they ask
//! for, and what a command line runs.
use vstd::prelude::*;

use crate::channels::exec_agent::{command_step, outcome_of, tokens, tokens_from};
use crate::channels::telegram::{
    code_unit, has_action_phrase, has_path, imperative, is_path_like, kind_of, leading_number,
    message_in, messages_in, number_len, pairing_instructions, polite_len, quoted_text,
    send_request, updates_in, updates_request, MessageKind, MessageModel,
};
use crate::channels::telegram_agent::address_of;
use crate::chars;
use crate::chars::CharSet;
use crate::json;
use crate::laws::texts::{
    law_find_is_first_occurrence, law_occurrence_carries_over, law_prefix_stands_first,
    lemma_filter_has, lemma_part, occurs, stands_at,
};
use crate::numbers;
use crate::types::StepModel;

verus! {

// ---------------------------------------------------------------------------
// Updates
// ---------------------------------------------------------------------------

/// What was found in each part of a reply, in the order of the parts.
pub open spec fn found_in(chunks: Seq<Seq<char>>) -> Seq<Option<MessageModel>> {
    chunks.map_values(|c: Seq<char>| message_in(c))
}

/// Every part of a reply that holds a message gives it, and only those do, in the
/// order of the parts.
pub proof fn law_every_message_is_read(chunks: Seq<Seq<char>>)
    ensures
        messages_in(chunks).map_values(|m: MessageModel| Some(m)) == found_in(chunks).filter(
            |m: Option<MessageModel>| m is Some,
        ),
        messages_in(chunks).len() == chunks.filter(
            |c: Seq<char>| message_in(c) is Some,
        ).len(),
        forall|i: int|
            0 <= i < chunks.len() ==> (message_in(#[trigger] chunks[i]) matches Some(m)
                ==> messages_in(chunks).contains(m)),
        forall|k: int|
            0 <= k < messages_in(chunks).len() ==> exists|i: int|
                0 <= i < chunks.len() && message_in(#[trigger] chunks[i]) == Some(
                    #[trigger] messages_in(chunks)[k],
                ),
    decreases chunks.len(),
{
    reveal(Seq::filter);
    let all = messages_in(chunks);
    let wrap = |m: MessageModel| Some(m);
    let held = |m: Option<MessageModel>| m is Some;
    let has = |c: Seq<char>| message_in(c) is Some;
    if chunks.len() == 0 {
        assert(found_in(chunks) =~= seq![]);
        assert(all.map_values(wrap) =~= seq![]);
    } else {
        let init = chunks.drop_last();
        let before = messages_in(init);
        law_every_message_is_read(init);
        assert(found_in(chunks).drop_last() =~= found_in(init));
        assert(found_in(chunks).last() == message_in(chunks.last()));
        match message_in(chunks.last()) {
            Some(m) => {
                assert(all.map_values(wrap) =~= before.map_values(wrap).push(Some(m)));
                assert(all[before.len() as int] == m);
            },
            None => {},
        }
        assert forall|i: int| 0 <= i < chunks.len() implies (message_in(
            #[trigger] chunks[i],
        ) matches Some(m) ==> all.contains(m)) by {
            if message_in(chunks[i]) is Some {
                let m = message_in(chunks[i])->0;
                if i < init.len() {
                    assert(init[i] == chunks[i]);
                    assert(before.contains(m));
                    let k = before.index_of(m);
                    assert(all[k] == m);
                } else {
                    assert(all[before.len() as int] == m);
                }
            }
        }
        assert forall|k: int| 0 <= k < all.len() implies exists|i: int|
            0 <= i < chunks.len() && message_in(#[trigger] chunks[i]) == Some(
                #[trigger] all[k],
            ) by {
            if k < before.len() {
                assert(all[k] == before[k]);
                let i = choose|i: int|
                    0 <= i < init.len() && message_in(#[trigger] init[i]) == Some(before[k]);
                assert(chunks[i] == init[i]);
            } else {
                assert(message_in(chunks[chunks.len() - 1]) == Some(all[k]));
            }
        }
    }
}

/// The messages of parts one after the other are those of the first and then
/// those of the others.
pub proof fn law_messages_of_parts_in_order(a: Seq<Seq<char>>, b: Seq<Seq<char>>)
    ensures
        messages_in(a + b) == messages_in(a) + messages_in(b),
    decreases b.len(),
{
    let all = a + b;
    if b.len() == 0 {
        assert(all =~= a);
        assert(messages_in(b) =~= seq![]);
        assert(messages_in(a) + messages_in(b) =~= messages_in(a));
    } else {
        law_messages_of_parts_in_order(a, b.drop_last());
        assert(all.drop_last() =~= a + b.drop_last());
        assert(all.last() == b.last());
        assert(messages_in(all) =~= messages_in(a) + messages_in(b));
    }
}

/// A reply is read from its first update on: every part behind an update's mark
/// gives its message.
pub proof fn law_every_update_is_read(body: Seq<char>, i: int)
    requires
        0 < i < chars::split(body, "\"update_id\":"@).len(),
        message_in(chars::split(body, "\"update_id\":"@)[i]) is Some,
    ensures
        updates_in(body).contains(message_in(chars::split(body, "\"update_id\":"@)[i])->0),
{
    let parts = chars::split(body, "\"update_id\":"@);
    law_every_message_is_read(parts.skip(1));
    assert(parts.skip(1)[i - 1] == parts[i]);
}

/// A reply holds no more messages than marks of updates, and none where it has no
/// mark.
pub proof fn law_no_message_without_an_update(body: Seq<char>)
    ensures
        updates_in(body).len() < chars::split(body, "\"update_id\":"@).len(),
        !occurs(body, "\"update_id\":"@) ==> updates_in(body).len() == 0,
{
    let mark = "\"update_id\":"@;
    reveal_strlit("\"update_id\":");
    let parts = chars::split(body, mark);
    chars::lemma_split_not_empty(body, mark);
    law_every_message_is_read(parts.skip(1));
    let has = |c: Seq<char>| message_in(c) is Some;
    lemma_filter_shorter(parts.skip(1), has);
    law_find_is_first_occurrence(body, mark);
}

proof fn lemma_filter_shorter(s: Seq<Seq<char>>, f: spec_fn(Seq<char>) -> bool)
    ensures
        s.filter(f).len() <= s.len(),
    decreases s.len(),
{
    reveal(Seq::filter);
    if s.len() > 0 {
        lemma_filter_shorter(s.drop_last(), f);
    }
}

/// A number is read with its sign and as far as its digits go.
pub proof fn law_number_is_read(n: int, rest: Seq<char>)
    requires
        i64::MIN <= n <= i64::MAX,
        rest.len() > 0 ==> !chars::is_digit(rest[0]),
    ensures
        leading_number(numbers::signed(n) + rest) == Some(n),
{
    let t = numbers::signed(n);
    let s = t + rest;
    let set = CharSet::NotDigit;
    numbers::law_signed_round_trip(n);
    if n < 0 {
        let d = numbers::decimal((-n) as nat);
        numbers::lemma_decimal_digits((-n) as nat);
        assert(s[0] == '-');
        assert(s.skip(1) =~= d + rest);
        assert forall|j: int| 0 <= j < d.len() implies !set.has(#[trigger] s.skip(1)[j]) by {
            assert(s.skip(1)[j] == d[j]);
        }
        chars::lemma_until_is(s.skip(1), set, d.len() as int);
        assert(s.take(number_len(s) as int) =~= t);
    } else {
        numbers::lemma_decimal_digits(n as nat);
        assert(s[0] == t[0]);
        assert forall|j: int| 0 <= j < t.len() implies !set.has(#[trigger] s[j]) by {
            assert(s[j] == t[j]);
        }
        chars::lemma_until_is(s, set, t.len() as int);
        assert(s.take(number_len(s) as int) =~= t);
    }
}

proof fn lemma_plain_char(c: char, tail: Seq<char>)
    requires
        c != '"',
        c != '\\',
    ensures
        quoted_text(seq![c] + tail) == json::prepended(seq![c], quoted_text(tail)),
{
    let all = seq![c] + tail;
    assert(all[0] == c);
    assert(all.skip(1) =~= tail);
}

proof fn lemma_escaped_char(d: char, tail: Seq<char>)
    requires
        d != 'u',
    ensures
        quoted_text(seq!['\\', d] + tail) == json::prepended(
            seq![json::unescape_char(d)],
            quoted_text(tail),
        ),
{
    let all = seq!['\\', d] + tail;
    assert(all[0] == '\\' && all[1] == d);
    assert(all.skip(2) =~= tail);
}

/// What was escaped reads back, whatever follows its closing quote.
pub proof fn law_quoted_text_reads_back(s: Seq<char>, rest: Seq<char>)
    ensures
        quoted_text(json::escaped(s) + seq!['"'] + rest) == Some(json::shown(s)),
    decreases s.len(),
{
    let all = json::escaped(s) + seq!['"'] + rest;
    if s.len() == 0 {
        assert(all[0] == '"');
        assert(json::shown(s) =~= seq![]);
    } else {
        let tail = json::escaped(s.skip(1)) + seq!['"'] + rest;
        json::lemma_escaped_first(s);
        law_quoted_text_reads_back(s.skip(1), rest);
        let e = json::escape_char(s[0]);
        assert(all =~= e + tail);
        assert(json::shown(s) =~= seq![json::shown_char(s[0])] + json::shown(s.skip(1)));
        if e.len() == 2 {
            assert(e =~= seq!['\\', e[1]]);
            lemma_escaped_char(e[1], tail);
        } else {
            assert(e =~= seq![e[0]]);
            lemma_plain_char(e[0], tail);
        }
    }
}

/// A message is read from the part behind its update's mark: the number of the
/// update at its start, the chat behind the first mark of a chat, and the text
/// behind the first mark of a text.
pub proof fn law_message_reads_back(
    update_id: int,
    a: Seq<char>,
    chat_id: int,
    b: Seq<char>,
    c: Seq<char>,
    text: Seq<char>,
    rest: Seq<char>,
    chunk: Seq<char>,
)
    requires
        i64::MIN <= update_id <= i64::MAX,
        i64::MIN <= chat_id <= i64::MAX,
        a.len() > 0 ==> !chars::is_digit(a[0]),
        b.len() > 0 ==> !chars::is_digit(b[0]),
        chunk == numbers::signed(update_id) + a,
        chars::around(chunk, "\"chat\":{\"id\":"@) matches Some((_, x)) && x == numbers::signed(
            chat_id,
        ) + b,
        chars::around(chunk, "\"text\":\""@) matches Some((_, y)) && y == json::escaped(text)
            + seq!['"'] + rest,
    ensures
        message_in(chunk) == Some(
            MessageModel { update_id, chat_id, text: json::shown(text) },
        ),
{
    law_number_is_read(update_id, a);
    law_number_is_read(chat_id, b);
    law_quoted_text_reads_back(text, rest);
}

/// The message of a part has the number that stands at the part's start, the chat
/// that stands behind the mark of a chat and the text behind the mark of a text.
/// Without any of them there is no message.
pub proof fn law_message_has_its_parts(chunk: Seq<char>)
    ensures
        message_in(chunk) matches Some(m) ==> leading_number(chunk) == Some(m.update_id) && occurs(
            chunk,
            "\"chat\":{\"id\":"@,
        ) && occurs(chunk, "\"text\":\""@),
        leading_number(chunk) is None ==> message_in(chunk) is None,
        !occurs(chunk, "\"chat\":{\"id\":"@) ==> message_in(chunk) is None,
        !occurs(chunk, "\"text\":\""@) ==> message_in(chunk) is None,
{
    law_find_is_first_occurrence(chunk, "\"chat\":{\"id\":"@);
    law_find_is_first_occurrence(chunk, "\"text\":\""@);
}

// ---------------------------------------------------------------------------
// Requests
// ---------------------------------------------------------------------------

/// A message goes to its chat, with its text whole, under the bot's token.
pub proof fn law_request_sends_the_text(token: Seq<char>, chat_id: int, body: Seq<char>)
    ensures
        send_request(token, chat_id, body).contains("text="@ + body),
        send_request(token, chat_id, body).contains("chat_id="@ + numbers::signed(chat_id)),
        occurs(send_request(token, chat_id, body).last(), token),
        send_request(token, chat_id, body).contains("--fail"@),
        send_request(token, chat_id, body).len() == 10,
{
    let r = send_request(token, chat_id, body);
    assert(r[0] == "--fail"@);
    assert(r[6] == "chat_id="@ + numbers::signed(chat_id));
    assert(r[8] == "text="@ + body);
    lemma_part("https://api.telegram.org/bot"@, token, "/sendMessage"@);
}

/// Updates are asked for under the bot's token, from an offset on where there is
/// one; the request may take five seconds more than the server waits.
pub proof fn law_request_names_the_offset(token: Seq<char>, offset: Option<i64>, wait: nat)
    ensures
        occurs(updates_request(token, offset, wait).last(), token),
        updates_request(token, offset, wait)[4] == numbers::decimal(wait + 5),
        updates_request(token, offset, wait)[0] == "--fail"@,
        updates_request(token, None, wait).last().len() <= updates_request(
            token,
            offset,
            wait,
        ).last().len(),
        updates_request(token, offset, wait).last().take(
            updates_request(token, None, wait).last().len() as int,
        ) == updates_request(token, None, wait).last(),
        offset matches Some(n) ==> updates_request(token, offset, wait).last()
            == updates_request(token, None, wait).last() + "&offset="@ + numbers::signed(n as int),
{
    let url = "https://api.telegram.org/bot"@ + token + "/getUpdates?timeout="@ + numbers::decimal(
        wait,
    );
    let last = updates_request(token, offset, wait).last();
    assert(updates_request(token, None, wait).last() == url);
    lemma_part(
        "https://api.telegram.org/bot"@,
        token,
        "/getUpdates?timeout="@ + numbers::decimal(wait),
    );
    assert("https://api.telegram.org/bot"@ + token + ("/getUpdates?timeout="@ + numbers::decimal(
        wait,
    )) =~= url);
    match offset {
        Some(n) => {
            let more = "&offset="@ + numbers::signed(n as int);
            law_occurrence_carries_over(seq![], url, more, token);
            assert(Seq::<char>::empty() + url + more =~= last);
            assert(last.take(url.len() as int) =~= url);
        },
        None => {
            assert(last.take(url.len() as int) =~= url);
        },
    }
}

/// A chat that is not paired is told its number and the command that pairs it.
pub proof fn law_pairing_names_the_chat(chat_id: int)
    ensures
        occurs(pairing_instructions(chat_id), "chat_id="@ + numbers::signed(chat_id)),
        occurs(
            pairing_instructions(chat_id),
            "minipaw config telegram pair "@ + numbers::signed(chat_id),
        ),
{
    let id = numbers::signed(chat_id);
    let (a, b) = lemma_pairing_lines();
    lemma_two_labels(a, "chat_id="@, b, "minipaw config telegram pair "@, id);
}

proof fn lemma_pairing_lines() -> (r: (Seq<char>, Seq<char>))
    ensures
        "This Telegram chat is not paired with minipaw.\nchat_id="@ == r.0 + "chat_id="@,
        "\nRun this on the minipaw machine:\nminipaw config telegram pair "@ == r.1
            + "minipaw config telegram pair "@,
{
    let first = "This Telegram chat is not paired with minipaw.\nchat_id="@;
    let second = "\nRun this on the minipaw machine:\nminipaw config telegram pair "@;
    reveal_strlit("This Telegram chat is not paired with minipaw.\nchat_id=");
    reveal_strlit("\nRun this on the minipaw machine:\nminipaw config telegram pair ");
    reveal_strlit("chat_id=");
    reveal_strlit("minipaw config telegram pair ");
    let a = first.take(first.len() - 8);
    let b = second.take(second.len() - 29);
    assert(first =~= a + "chat_id="@);
    assert(second =~= b + "minipaw config telegram pair "@);
    (a, b)
}

proof fn lemma_two_labels(a: Seq<char>, x: Seq<char>, b: Seq<char>, y: Seq<char>, id: Seq<char>)
    ensures
        occurs((a + x) + id + (b + y) + id, x + id),
        occurs((a + x) + id + (b + y) + id, y + id),
{
    let all = (a + x) + id + (b + y) + id;
    let head = (a + x) + id;
    lemma_regroup(a, x, id);
    lemma_regroup(head, b + y, id);
    lemma_part(a, x + id, (b + y) + id);
    lemma_regroup(b, y, id);
    lemma_regroup(head, b, y + id);
    lemma_part(head + b, y + id, Seq::<char>::empty());
    assert(all + Seq::<char>::empty() =~= all);
}

proof fn lemma_regroup(a: Seq<char>, b: Seq<char>, c: Seq<char>)
    ensures
        (a + b) + c == a + (b + c),
{
    assert((a + b) + c =~= a + (b + c));
}

/// A command for the Telegram agent gives the chat before its first colon and the
/// whole text behind it.
pub proof fn law_address_is_read(chat_id: int, message: Seq<char>)
    requires
        i64::MIN <= chat_id <= i64::MAX,
    ensures
        address_of(numbers::signed(chat_id) + seq![':'] + message) == Ok::<
            (int, Seq<char>),
            Seq<char>,
        >((chat_id, chars::trim(message))),
{
    let id = numbers::signed(chat_id);
    let s = id + seq![':'] + message;
    reveal_strlit(":");
    let colon = ":"@;
    assert(colon =~= seq![':']);
    law_find_is_first_occurrence(s, colon);
    numbers::lemma_signed_chars(chat_id);
    assert(s.subrange(id.len() as int, (id.len() + 1) as int) =~= colon);
    assert(stands_at(s, colon, id.len() as int));
    let i = chars::find(s, colon)->0 as int;
    if i < id.len() {
        assert(s.subrange(i, i + 1)[0] == ':');
        assert(s[i] == id[i]);
    }
    assert(i <= id.len());
    assert(s.take(i) =~= id);
    assert(s.skip(i + 1) =~= message);
    assert(!chars::is_white(id[0]) && !chars::is_white(id[id.len() - 1]));
    chars::lemma_drop_leading_is(id, CharSet::White, 0);
    assert(id.skip(0) =~= id);
    chars::lemma_drop_trailing_is(id, CharSet::White, id.len() as int);
    assert(id.take(id.len() as int) =~= id);
    numbers::law_signed_round_trip(chat_id);
}

/// A command without a colon is no address.
pub proof fn law_no_address_without_a_colon(command: Seq<char>)
    ensures
        !occurs(command, ":"@) ==> address_of(command) is Err,
{
    law_find_is_first_occurrence(command, ":"@);
}

// ---------------------------------------------------------------------------
// Kinds of messages
// ---------------------------------------------------------------------------

proof fn lemma_occurs_whole(s: Seq<char>)
    ensures
        occurs(s, s),
{
    assert(s.subrange(0, s.len() as int) =~= s);
    assert(stands_at(s, s, 0));
}

proof fn lemma_starting(s: Seq<char>, a: Seq<char>, b: Seq<char>)
    requires
        chars::starts_with(s, a + b),
    ensures
        occurs(s, a),
{
    law_prefix_stands_first(s, a + b);
    assert(s.subrange(0, a.len() as int) =~= a) by {
        assert(s.subrange(0, (a + b).len() as int) == a + b);
        assert forall|i: int| 0 <= i < a.len() implies s[i] == a[i] by {
            assert(s.subrange(0, (a + b).len() as int)[i] == (a + b)[i]);
        }
    }
    assert(stands_at(s, a, 0));
}

proof fn lemma_ending(s: Seq<char>, a: Seq<char>, b: Seq<char>)
    requires
        occurs(s, a + b),
    ensures
        occurs(s, b),
{
    let i = choose|i: int| stands_at(s, a + b, i);
    let whole = s.subrange(i, i + (a + b).len());
    let j = i + a.len();
    assert(s.subrange(j, j + b.len()) =~= b) by {
        assert forall|k: int| 0 <= k < b.len() implies s[j + k] == b[k] by {
            assert(whole[a.len() + k] == (a + b)[a.len() + k]);
        }
    }
    assert(stands_at(s, b, j));
}

/// A text that is no slash command and has none of the words of an action in it,
/// in whatever case, is a question.
pub proof fn law_plain_texts_are_questions(s: Seq<char>)
    requires
        !chars::starts_with(chars::trim(s), "/"@),
        !occurs(chars::lower(chars::trim(s)), "list"@),
        !occurs(chars::lower(chars::trim(s)), "ls"@),
        !occurs(chars::lower(chars::trim(s)), "run"@),
        !occurs(chars::lower(chars::trim(s)), "exec"@),
        !occurs(chars::lower(chars::trim(s)), "read"@),
        !occurs(chars::lower(chars::trim(s)), "cat"@),
    ensures
        kind_of(s) == MessageKind::Knowledge,
{
    let l = chars::lower(chars::trim(s));
    reveal_strlit("list");
    reveal_strlit("ls");
    reveal_strlit("run");
    reveal_strlit("exec");
    reveal_strlit("read");
    reveal_strlit("cat");
    reveal_strlit("list ");
    reveal_strlit("ls ");
    reveal_strlit("run ");
    reveal_strlit("exec ");
    reveal_strlit("execute ");
    reveal_strlit("read ");
    reveal_strlit("cat ");
    assert("list "@ =~= "list"@ + seq![' ']);
    assert("ls "@ =~= "ls"@ + seq![' ']);
    assert("run "@ =~= "run"@ + seq![' ']);
    assert("exec "@ =~= "exec"@ + seq![' ']);
    assert("execute "@ =~= "exec"@ + seq!['u', 't', 'e', ' ']);
    assert("read "@ =~= "read"@ + seq![' ']);
    assert("cat "@ =~= "cat"@ + seq![' ']);
    if chars::starts_with(l, "list "@) {
        lemma_starting(l, "list"@, seq![' ']);
    }
    if chars::starts_with(l, "ls "@) {
        lemma_starting(l, "ls"@, seq![' ']);
    }
    if chars::starts_with(l, "run "@) {
        lemma_starting(l, "run"@, seq![' ']);
    }
    if chars::starts_with(l, "exec "@) {
        lemma_starting(l, "exec"@, seq![' ']);
    }
    if chars::starts_with(l, "execute "@) {
        lemma_starting(l, "exec"@, seq!['u', 't', 'e', ' ']);
    }
    if chars::starts_with(l, "read "@) {
        lemma_starting(l, "read"@, seq![' ']);
    }
    if chars::starts_with(l, "cat "@) {
        lemma_starting(l, "cat"@, seq![' ']);
    }
    lemma_occurs_whole(l);
    lemma_phrases(l);
}

proof fn lemma_phrases(l: Seq<char>)
    requires
        !occurs(l, "list"@),
        !occurs(l, "run"@),
        !occurs(l, "exec"@),
        !occurs(l, "read"@),
    ensures
        !has_action_phrase(l),
{
    reveal_strlit("list");
    reveal_strlit("run");
    reveal_strlit("exec");
    reveal_strlit("read");
    reveal_strlit("please list");
    reveal_strlit("please run");
    reveal_strlit("please exec");
    reveal_strlit("please read");
    reveal_strlit("can you list");
    reveal_strlit("can you run");
    reveal_strlit("can you read");
    reveal_strlit("could you list");
    reveal_strlit("could you run");
    reveal_strlit("could you read");
    lemma_phrase(l, "please list"@, "list"@, 7);
    lemma_phrase(l, "please run"@, "run"@, 7);
    lemma_phrase(l, "please exec"@, "exec"@, 7);
    lemma_phrase(l, "please read"@, "read"@, 7);
    lemma_phrase(l, "can you list"@, "list"@, 8);
    lemma_phrase(l, "can you run"@, "run"@, 8);
    lemma_phrase(l, "can you read"@, "read"@, 8);
    lemma_phrase(l, "could you list"@, "list"@, 10);
    lemma_phrase(l, "could you run"@, "run"@, 10);
    lemma_phrase(l, "could you read"@, "read"@, 10);
}

proof fn lemma_phrase(l: Seq<char>, phrase: Seq<char>, verb: Seq<char>, n: int)
    requires
        0 <= n <= phrase.len(),
        phrase.skip(n) =~= verb,
        !occurs(l, verb),
    ensures
        !chars::contains(l, phrase),
{
    law_find_is_first_occurrence(l, phrase);
    if occurs(l, phrase) {
        assert(phrase =~= phrase.take(n) + verb);
        lemma_ending(l, phrase.take(n), verb);
    }
}

/// A text that asks for an action in so many words is one, wherever in it the
/// words stand.
pub proof fn law_requests_are_actions(s: Seq<char>, phrase: Seq<char>)
    requires
        occurs(chars::lower(chars::trim(s)), phrase),
        phrase == "please list"@ || phrase == "please run"@ || phrase == "please exec"@ || phrase
            == "please read"@ || phrase == "can you list"@ || phrase == "can you run"@ || phrase
            == "can you read"@ || phrase == "could you list"@ || phrase == "could you run"@
            || phrase == "could you read"@,
    ensures
        kind_of(s) == MessageKind::Action,
{
    law_find_is_first_occurrence(chars::lower(chars::trim(s)), phrase);
}

/// A text that starts with the verb of an action, in whatever case, is one: to
/// list and to run anything, to read where a path is named.
pub proof fn law_imperatives_are_actions(s: Seq<char>, verb: Seq<char>)
    requires
        stands_at(chars::lower(chars::trim(s)), verb, 0),
        verb == "list "@ || verb == "ls "@ || verb == "run "@ || verb == "exec "@ || verb
            == "execute "@ || (verb == "read "@ || verb == "cat "@) && occurs(
            chars::lower(chars::trim(s)),
            "/"@,
        ),
    ensures
        kind_of(s) == MessageKind::Action,
{
    let l = chars::lower(chars::trim(s));
    law_prefix_stands_first(l, verb);
    if occurs(l, "/"@) {
        lemma_word_with_slash(l);
    }
}

proof fn lemma_word_with_slash(l: Seq<char>)
    requires
        occurs(l, "/"@),
    ensures
        has_path(l),
    decreases l.len(),
{
    reveal_strlit("/");
    let i = choose|i: int| stands_at(l, "/"@, i);
    assert(l.subrange(i, i + 1)[0] == '/');
    assert(l[i] == '/');
    lemma_word_at(l, i);
    let k = choose|k: int|
        0 <= k < chars::words(l).len() && (#[trigger] chars::words(l)[k]).contains('/');
    let w = chars::words(l)[k];
    let j = w.index_of('/');
    assert(w.subrange(j, j + 1) =~= "/"@);
    assert(stands_at(w, "/"@, j));
    law_find_is_first_occurrence(w, "/"@);
}

proof fn lemma_word_at(s: Seq<char>, i: int)
    requires
        0 <= i < s.len(),
        !chars::is_white(s[i]),
    ensures
        exists|k: int|
            0 <= k < chars::words(s).len() && (#[trigger] chars::words(s)[k]).contains(s[i]),
    decreases s.len(),
{
    lemma_piece_at(s, CharSet::White, i);
    let all = chars::pieces(s, CharSet::White);
    let k = choose|k: int| 0 <= k < all.len() && (#[trigger] all[k]).contains(s[i]);
    let f = chars::at_least(1);
    assert(f(all[k]));
    lemma_filter_has(all, f, all[k]);
    let w = chars::words(s);
    assert(w.contains(all[k]));
    let j = w.index_of(all[k]);
    assert(w[j].contains(s[i]));
}

proof fn lemma_piece_at(s: Seq<char>, set: CharSet, i: int)
    requires
        0 <= i < s.len(),
        !set.has(s[i]),
    ensures
        exists|k: int|
            0 <= k < chars::pieces(s, set).len() && (#[trigger] chars::pieces(
                s,
                set,
            )[k]).contains(s[i]),
    decreases s.len(),
{
    chars::lemma_until(s, set);
    let u = chars::until(s, set) as int;
    let all = chars::pieces(s, set);
    if u >= s.len() {
        assert(all[0] == s);
        assert(all[0].contains(s[i]));
    } else if i < u {
        assert(all[0] == s.take(u));
        assert(s.take(u)[i] == s[i]);
        assert(all[0].contains(s[i]));
    } else {
        let rest = s.skip(u + 1);
        let more = chars::pieces(rest, set);
        assert(rest[i - u - 1] == s[i]);
        lemma_piece_at(rest, set, i - u - 1);
        let k = choose|k: int| 0 <= k < more.len() && (#[trigger] more[k]).contains(s[i]);
        assert(all[k + 1] == more[k]);
        assert(all[k + 1].contains(s[i]));
    }
}

/// Slash commands are actions, but for `/help`, which is a question where nothing
/// else asks for an action.
pub proof fn law_slash_commands_are_actions(s: Seq<char>)
    requires
        chars::starts_with(chars::trim(s), "/"@),
        !stands_at(chars::lower(chars::trim(s)), "/help"@, 0),
    ensures
        kind_of(s) == MessageKind::Action,
{
    let l = chars::lower(chars::trim(s));
    law_prefix_stands_first(l, "/help "@);
    reveal_strlit("/help");
    reveal_strlit("/help ");
    if chars::starts_with(l, "/help "@) {
        assert("/help "@ =~= "/help"@ + seq![' ']);
        assert(l.subrange(0, 6) == "/help "@);
        assert forall|i: int| 0 <= i < 5 implies l[i] == "/help"@[i] by {
            assert(l.subrange(0, 6)[i] == "/help "@[i]);
        }
        assert(l.subrange(0, 5) =~= "/help"@);
    }
    if l == "/help"@ {
        assert(l.subrange(0, 5) =~= "/help"@);
    }
}

/// A polite opening is taken off and nothing else: what is left is the end of the
/// text, and a text without such an opening stays as it is.
pub proof fn law_imperative_is_the_end_of_the_text(s: Seq<char>)
    ensures
        imperative(s).len() <= chars::trim(s).len(),
        imperative(s) == chars::trim(s).skip(chars::trim(s).len() - imperative(s).len()),
        !stands_at(chars::lower(chars::trim(s)), "can you "@, 0) && !stands_at(
            chars::lower(chars::trim(s)),
            "could you "@,
            0,
        ) && !stands_at(chars::lower(chars::trim(s)), "please "@, 0) && !stands_at(
            chars::lower(chars::trim(s)),
            "would you "@,
            0,
        ) ==> imperative(s) == chars::trim(s),
{
    let t = chars::trim(s);
    let l = chars::lower(t);
    let n = polite_len(l) as int;
    reveal_strlit("can you please ");
    reveal_strlit("can you ");
    reveal_strlit("could you please ");
    reveal_strlit("could you ");
    reveal_strlit("please ");
    reveal_strlit("would you please ");
    reveal_strlit("would you ");
    assert("can you please "@ =~= "can you "@ + "please "@);
    assert("could you please "@ =~= "could you "@ + "please "@);
    assert("would you please "@ =~= "would you "@ + "please "@);
    lemma_longer_opening(l, "can you "@, "please "@);
    lemma_longer_opening(l, "could you "@, "please "@);
    lemma_longer_opening(l, "would you "@, "please "@);
    law_prefix_stands_first(l, "can you "@);
    law_prefix_stands_first(l, "could you "@);
    law_prefix_stands_first(l, "would you "@);
    law_prefix_stands_first(l, "please "@);
    assert(n <= t.len());
    if n > 0 {
        let rest = t.skip(n);
        chars::lemma_drop_leading(rest, CharSet::White);
        let r = chars::trim_start(rest);
        assert(r =~= t.skip(t.len() - r.len()));
    } else {
        assert(t =~= t.skip(0));
    }
}

proof fn lemma_longer_opening(l: Seq<char>, a: Seq<char>, b: Seq<char>)
    ensures
        chars::starts_with(l, a + b) ==> chars::starts_with(l, a) && (a + b).len() <= l.len(),
{
    if chars::starts_with(l, a + b) {
        assert(l.take(a.len() as int) =~= (a + b).take(a.len() as int));
        assert((a + b).take(a.len() as int) =~= a);
    }
}

/// What is asked politely is what is asked: an opening in front of a text that
/// starts with no white space leaves the text.
pub proof fn law_polite_opening_is_taken_off(s: Seq<char>, opening: Seq<char>)
    requires
        opening == "can you please "@ || opening == "could you please "@ || opening
            == "would you please "@,
        s.len() > 0,
        !chars::is_white(s[0]),
        !chars::is_white(s.last()),
    ensures
        imperative(opening + s) == s,
{
    reveal_strlit("can you please ");
    reveal_strlit("can you ");
    reveal_strlit("could you please ");
    reveal_strlit("could you ");
    reveal_strlit("please ");
    reveal_strlit("would you please ");
    reveal_strlit("would you ");
    let t = opening + s;
    let n = opening.len() as int;
    assert(t[0] == opening[0]);
    assert(t.last() == s.last());
    chars::lemma_drop_leading_is(t, CharSet::White, 0);
    assert(t.skip(0) =~= t);
    chars::lemma_drop_trailing_is(t, CharSet::White, t.len() as int);
    assert(t.take(t.len() as int) =~= t);
    assert(chars::trim(t) == t);
    let l = chars::lower(t);
    assert(l.take(n) =~= opening);
    assert(l[0] == opening[0] && l[1] == opening[1]);
    assert(chars::starts_with(l, opening));
    if opening == "could you please "@ {
        assert("can you please "@[1] == 'a');
        assert(!chars::starts_with(l, "can you please "@)) by {
            if chars::starts_with(l, "can you please "@) {
                assert(l.take(15)[1] == 'a');
            }
        }
        assert(!chars::starts_with(l, "can you "@)) by {
            if chars::starts_with(l, "can you "@) {
                assert(l.take(8)[1] == 'a');
            }
        }
    }
    if opening == "would you please "@ {
        lemma_other_start(l, "can you please "@);
        lemma_other_start(l, "can you "@);
        lemma_other_start(l, "could you please "@);
        lemma_other_start(l, "could you "@);
        lemma_other_start(l, "please "@);
    }
    assert(polite_len(l) == n);
    assert(t.skip(n) =~= s);
    chars::lemma_drop_leading_is(s, CharSet::White, 0);
    assert(s.skip(0) =~= s);
}

proof fn lemma_other_start(l: Seq<char>, p: Seq<char>)
    requires
        p.len() > 0,
        l.len() > 0,
        l[0] != p[0],
    ensures
        !chars::starts_with(l, p),
{
    if chars::starts_with(l, p) {
        assert(l.take(p.len() as int)[0] == p[0]);
    }
}

// ---------------------------------------------------------------------------
// Command lines
// ---------------------------------------------------------------------------

proof fn lemma_plain_tokens(s: Seq<char>, current: Seq<char>)
    requires
        forall|i: int| 0 <= i < s.len() ==> #[trigger] s[i] != '"' && s[i] != '\'',
        forall|i: int| 0 <= i < current.len() ==> !chars::is_white(#[trigger] current[i]),
    ensures
        tokens_from(s, current, None) == chars::words(current + s),
    decreases s.len(),
{
    let all = current + s;
    let white = CharSet::White;
    let f = chars::at_least(1);
    reveal(Seq::filter);
    if s.len() == 0 {
        assert(all =~= current);
        chars::lemma_until_is(all, white, all.len() as int);
        assert(chars::pieces(all, white) =~= seq![current]);
        assert(seq![current].drop_last() =~= Seq::<Seq<char>>::empty());
        assert(Seq::<Seq<char>>::empty().filter(f) =~= Seq::<Seq<char>>::empty());
        assert(seq![current].filter(f) =~= if current.len() > 0 {
            seq![current]
        } else {
            seq![]
        });
    } else {
        let rest = s.skip(1);
        assert forall|i: int| 0 <= i < rest.len() implies #[trigger] rest[i] != '"' && rest[i]
            != '\'' by {
            assert(rest[i] == s[i + 1]);
        }
        if chars::is_white(s[0]) {
            lemma_plain_tokens(rest, seq![]);
            assert(Seq::<char>::empty() + rest =~= rest);
            assert forall|j: int| 0 <= j < current.len() implies !white.has(#[trigger] all[j]) by {
                assert(all[j] == current[j]);
            }
            assert(all[current.len() as int] == s[0]);
            chars::lemma_until_is(all, white, current.len() as int);
            assert(all.take(current.len() as int) =~= current);
            assert(all.skip((current.len() + 1) as int) =~= rest);
            let more = chars::pieces(rest, white);
            assert(chars::pieces(all, white) =~= seq![current] + more);
            lemma_filter_front(current, more, f);
        } else {
            assert forall|i: int| 0 <= i < current.push(s[0]).len() implies !chars::is_white(
                #[trigger] current.push(s[0])[i],
            ) by {}
            lemma_plain_tokens(rest, current.push(s[0]));
            assert(current.push(s[0]) + rest =~= all);
        }
    }
}

proof fn lemma_filter_front(x: Seq<char>, more: Seq<Seq<char>>, f: spec_fn(Seq<char>) -> bool)
    ensures
        (seq![x] + more).filter(f) == (if f(x) {
            seq![x] + more.filter(f)
        } else {
            more.filter(f)
        }),
    decreases more.len(),
{
    reveal(Seq::filter);
    let all = seq![x] + more;
    if more.len() == 0 {
        assert(all =~= seq![x]);
        assert(all.drop_last() =~= Seq::<Seq<char>>::empty());
        assert(Seq::<Seq<char>>::empty().filter(f) =~= Seq::<Seq<char>>::empty());
        assert(more =~= Seq::<Seq<char>>::empty());
        assert(all.filter(f) =~= if f(x) {
            seq![x] + more.filter(f)
        } else {
            more.filter(f)
        });
    } else {
        lemma_filter_front(x, more.drop_last(), f);
        assert(all.drop_last() =~= seq![x] + more.drop_last());
        assert(all.last() == more.last());
        assert(all.filter(f) =~= if f(x) {
            seq![x] + more.filter(f)
        } else {
            more.filter(f)
        });
    }
}

/// The tokens of a command line without quotes are its words.
pub proof fn law_plain_command_is_its_words(s: Seq<char>)
    requires
        forall|i: int| 0 <= i < s.len() ==> #[trigger] s[i] != '"' && s[i] != '\'',
    ensures
        tokens(s) == chars::words(s),
{
    lemma_plain_tokens(s, seq![]);
    assert(Seq::<char>::empty() + s =~= s);
}

/// A command line runs the program that its first token names, with the other
/// tokens as arguments; only reading and listing are the tools' own.
pub proof fn law_command_runs_its_program(command: Seq<char>)
    requires
        tokens(chars::trim(command)).len() > 0,
    ensures
        ({
            let parts = tokens(chars::trim(command));
            let own = parts[0] == "read"@ || parts[0] == "cat"@ || parts[0] == "ls"@ || parts[0]
                == "list"@;
            &&& command_step(command) is Exec == !own
            &&& command_step(command) matches StepModel::Exec { program, args } ==> seq![program]
                + args == parts
            &&& command_step(command) matches StepModel::ReadFile(path) ==> path == chars::join(
                parts.skip(1),
                " "@,
            ) && (parts[0] == "read"@ || parts[0] == "cat"@)
            &&& command_step(command) is ListDir == (parts[0] == "ls"@ || parts[0] == "list"@)
            &&& (parts[0] == "read"@ || parts[0] == "cat"@) && parts.len() > 1 && parts[1].len() > 0
                ==> command_step(command) is ReadFile
        }),
{
    let parts = tokens(chars::trim(command));
    assert(seq![parts[0]] + parts.skip(1) =~= parts);
    if parts.len() > 1 && parts[1].len() > 0 {
        assert(parts.skip(1)[0] == parts[1]);
        lemma_join_longer(parts.skip(1), " "@);
    }
    reveal_strlit("read");
    reveal_strlit("cat");
    reveal_strlit("ls");
    reveal_strlit("list");
    assert("read"@.len() == 4 && "cat"@.len() == 3 && "ls"@.len() == 2);
    assert("read"@[0] != "list"@[0]);
}

proof fn lemma_join_longer(parts: Seq<Seq<char>>, sep: Seq<char>)
    requires
        parts.len() > 0,
        parts[0].len() > 0,
    ensures
        chars::join(parts, sep).len() > 0,
    decreases parts.len(),
{
    if parts.len() > 1 {
        lemma_join_longer(parts.drop_last(), sep);
    }
}

/// Only an empty command runs nothing.
pub proof fn law_empty_command_is_answered(command: Seq<char>)
    ensures
        tokens(chars::trim(command)).len() == 0 ==> command_step(command) is Answer,
        command_step(command) is Answer ==> tokens(chars::trim(command)).len() == 0 || tokens(
            chars::trim(command),
        )[0] == "read"@ || tokens(chars::trim(command))[0] == "cat"@,
{
}

/// An escape by number stands for the character of that number, and for one
/// character only.
pub proof fn law_numbered_escapes_are_read(hex: Seq<char>, n: nat, tail: Seq<char>)
    requires
        hex.len() == 4,
        code_unit(hex) == Some(n),
        n < 0xd800 || 0xe000 <= n,
    ensures
        quoted_text(seq!['\\', 'u'] + (hex + tail)) == json::prepended(
            seq![n as char],
            quoted_text(tail),
        ),
{
    let rest = hex + tail;
    let all = seq!['\\', 'u'] + rest;
    assert(all[0] == '\\' && all[1] == 'u');
    assert(all.skip(2) =~= rest);
    assert(rest.take(4) =~= hex);
    assert(all.skip(6) =~= tail);
    crate::numbers::lemma_scan_bound(hex, 16, 65535, 0);
    crate::numbers::lemma_scan_bound(hex.skip(1), 16, 65535, 0);
    assert(n <= 65535);
}

/// Two escapes that are the halves of a pair stand for one character, by the number
/// that the pair writes.
pub proof fn law_paired_escapes_are_one_character(
    first: Seq<char>,
    second: Seq<char>,
    high: nat,
    low: nat,
    tail: Seq<char>,
)
    requires
        first.len() == 4,
        second.len() == 4,
        code_unit(first) == Some(high),
        code_unit(second) == Some(low),
        0xd800 <= high < 0xdc00,
        0xdc00 <= low < 0xe000,
    ensures
        quoted_text(seq!['\\', 'u'] + (first + (seq!['\\', 'u'] + (second + tail))))
            == json::prepended(
            seq![(0x10000 + (high - 0xd800) * 1024 + (low - 0xdc00)) as char],
            quoted_text(tail),
        ),
{
    let two = seq!['\\', 'u'] + (second + tail);
    let rest = first + two;
    let all = seq!['\\', 'u'] + rest;
    assert(all[0] == '\\' && all[1] == 'u');
    assert(all.skip(2) =~= rest);
    assert(rest.take(4) =~= first);
    assert(rest.skip(4) =~= two);
    assert(two[0] == '\\' && two[1] == 'u');
    assert(two.skip(2) =~= second + tail);
    assert((second + tail).take(4) =~= second);
    assert(all.skip(12) =~= tail);
}

/// Four digits write a number, each digit sixteen times the one behind it.
pub proof fn law_code_units_are_hexadecimal(a: char, b: char, c: char, d: char)
    requires
        numbers::digit_value(a, 16) is Some,
        numbers::digit_value(b, 16) is Some,
        numbers::digit_value(c, 16) is Some,
        numbers::digit_value(d, 16) is Some,
    ensures
        code_unit(seq![a, b, c, d]) == Some(
            (numbers::digit_value(a, 16)->0 * 4096 + numbers::digit_value(b, 16)->0 * 256
                + numbers::digit_value(c, 16)->0 * 16 + numbers::digit_value(d, 16)->0) as nat,
        ),
{
    let s = seq![a, b, c, d];
    let m = 65535nat;
    let x = numbers::digit_value(a, 16)->0;
    let y = numbers::digit_value(b, 16)->0;
    let z = numbers::digit_value(c, 16)->0;
    let w = numbers::digit_value(d, 16)->0;
    assert(x < 16 && y < 16 && z < 16 && w < 16);
    assert(s.skip(1) =~= seq![b, c, d]);
    assert(seq![b, c, d].skip(1) =~= seq![c, d]);
    assert(seq![c, d].skip(1) =~= seq![d]);
    assert(seq![d].skip(1).len() == 0);
    let v1 = x;
    let v2 = v1 * 16 + y;
    let v3 = v2 * 16 + z;
    let v4 = v3 * 16 + w;
    assert(numbers::scan(seq![d].skip(1), 16, m, v4) == Ok::<nat, numbers::NumberError>(v4));
    assert(numbers::scan(seq![d], 16, m, v3) == Ok::<nat, numbers::NumberError>(v4));
    assert(numbers::scan(seq![c, d], 16, m, v2) == Ok::<nat, numbers::NumberError>(v4));
    assert(numbers::scan(seq![b, c, d], 16, m, v1) == Ok::<nat, numbers::NumberError>(v4));
    assert(numbers::scan(s, 16, m, 0) == Ok::<nat, numbers::NumberError>(v4));
    assert(s[0] != '+');
}

/// A tool that succeeded gives its output, and one that failed its output as the
/// error.
pub proof fn law_tools_give_their_output(r: crate::types::ToolModel)
    ensures
        outcome_of(r) is Ok == r.ok,
        outcome_of(r) matches Ok(t) ==> t == r.output,
        outcome_of(r) matches Err(e) ==> e == r.output,
{
}

/// The first half of a pair that no second half follows stands for nothing, and
/// neither does the character behind it.
pub proof fn law_half_pairs_are_dropped(hex: Seq<char>, n: nat, c: char, tail: Seq<char>)
    requires
        hex.len() == 4,
        code_unit(hex) == Some(n),
        0xd800 <= n < 0xdc00,
        c != '\\',
    ensures
        quoted_text(seq!['\\', 'u'] + (hex + (seq![c] + tail))) == json::prepended(
            Seq::<char>::empty(),
            quoted_text(tail),
        ),
{
    let after = seq![c] + tail;
    let rest = hex + after;
    let all = seq!['\\', 'u'] + rest;
    assert(all[0] == '\\' && all[1] == 'u');
    assert(all.skip(2) =~= rest);
    assert(rest.take(4) =~= hex);
    assert(rest.skip(4) =~= after);
    assert(after[0] == c);
    assert(all.skip(7) =~= tail);
}

/// A name with an ending is a path: something stands before its last dot and behind
/// it. A word with a slash is one too.
pub proof fn law_names_with_endings_are_paths(stem: Seq<char>, ending: Seq<char>, w: Seq<char>)
    requires
        !ending.contains('.'),
        !occurs(stem + seq!['.'] + ending, "/"@),
        !occurs(stem + seq!['.'] + ending, "\\"@),
    ensures
        is_path_like(stem + seq!['.'] + ending) == (stem.len() > 0 && ending.len() > 0),
        occurs(w, "/"@) ==> is_path_like(w),
        occurs(w, "\\"@) ==> is_path_like(w),
{
    let s = stem + seq!['.'] + ending;
    law_find_is_first_occurrence(s, "/"@);
    law_find_is_first_occurrence(s, "\\"@);
    law_find_is_first_occurrence(w, "/"@);
    law_find_is_first_occurrence(w, "\\"@);
    crate::laws::texts::lemma_last_index(s, '.');
    let n = stem.len() as int;
    assert(s[n] == '.');
    assert(s.contains(s[n]));
    let i = chars::last_index(s, '.')->0;
    if i > n {
        assert(s[i as int] == ending[i - n - 1]);
        assert(ending.contains(ending[i - n - 1]));
    }
    assert(i == n);
}

}
