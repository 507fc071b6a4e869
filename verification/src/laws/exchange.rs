//! Promises of what is exchanged with a model's server: values, addresses, requests
//! and responses.
use vstd::prelude::*;
use vstd::utf8::*;

use crate::chars;
use crate::chars::CharSet;
use crate::config::LlmModel;
use crate::http::{
    begins, body_text, chunked_text, chunks, first_match, framing, has_header, header_line,
    header_lines, names_chunked, request_head, response_text, status_code, Framing, Request,
};
use crate::json;
use crate::laws::texts::{
    law_find_is_first_occurrence, law_joined_parts_stand_in_whole, law_occurrence_carries_over,
    lemma_around_first, lemma_last_index, lemma_part, lemma_within, occurs, stands_at,
};
use crate::llm::{
    client_of, completion_of, endpoint_of, is_supported, message_json, messages_json, offline_reply,
    path_under, request_body, without_thinking, ClientModel, EndpointModel, Turn,
};
use crate::numbers;

verus! {

// ---------------------------------------------------------------------------
// Values
// ---------------------------------------------------------------------------

/// A string value reads back what was escaped into it, behind the first mark of
/// its name.
pub proof fn law_string_value_reads_back(
    s: Seq<char>,
    key: Seq<char>,
    a: Seq<char>,
    value: Seq<char>,
    rest: Seq<char>,
)
    requires
        chars::around(s, json::marker(key)) == Some(
            (a, seq![':', '"'] + (json::escaped(value) + seq!['"'] + rest)),
        ),
    ensures
        json::string_value(s, key) == Some(json::shown(value)),
{
    reveal_strlit(":");
    assert(":"@ =~= seq![':']);
    let tail = json::escaped(value) + seq!['"'] + rest;
    let v = seq!['"'] + tail;
    let none = Seq::<char>::empty();
    lemma_around_first(none, ":"@, v);
    assert(none + ":"@ + v =~= seq![':', '"'] + tail);
    assert(v[0] == '"');
    chars::lemma_drop_leading_is(v, CharSet::White, 0);
    assert(v.skip(0) =~= v);
    assert(v.skip(1) =~= tail);
    json::law_escaped_reads_back(value, rest);
}

/// A value of a name that does not occur is not found, whatever its kind.
pub proof fn law_no_value_without_its_name(s: Seq<char>, key: Seq<char>)
    requires
        !occurs(s, json::marker(key)),
    ensures
        json::string_value(s, key) is None,
        json::bool_value(s, key) is None,
        json::object_value(s, key) is None,
        json::array_value(s, key) == Set::<i64>::empty(),
{
    law_find_is_first_occurrence(s, json::marker(key));
}

/// A boolean value is read as it stands behind its name.
pub proof fn law_bool_value_is_read(
    s: Seq<char>,
    key: Seq<char>,
    a: Seq<char>,
    value: bool,
    rest: Seq<char>,
)
    requires
        chars::around(s, json::marker(key)) == Some((a, ":"@ + chars::bool_text(value) + rest)),
    ensures
        json::bool_value(s, key) == Some(value),
{
    reveal_strlit(":");
    reveal_strlit("true");
    reveal_strlit("false");
    assert(":"@ =~= seq![':']);
    let v = chars::bool_text(value) + rest;
    let all = ":"@ + chars::bool_text(value) + rest;
    assert(all[0] == ':');
    chars::lemma_drop_leading_is(all, CharSet::White, 0);
    assert(all.skip(0) =~= all);
    assert(all.take(1) =~= ":"@);
    assert(all.skip(1) =~= v);
    assert(v[0] == chars::bool_text(value)[0]);
    chars::lemma_drop_leading_is(v, CharSet::White, 0);
    assert(v.skip(0) =~= v);
    if value {
        assert(v.take(4) =~= "true"@);
    } else {
        assert(v.take(5) =~= "false"@);
        if chars::starts_with(v, "true"@) {
            assert(v.take(4)[0] == 't');
        }
    }
}

/// A part writes a number, white space around it aside.
pub open spec fn writes(part: Seq<char>, n: i64) -> bool {
    match numbers::signed_value(chars::trim(part)) {
        Some(m) => m as i64 == n,
        None => false,
    }
}

/// The numbers of a list are those that its parts write, all of them and no
/// others.
pub proof fn law_numbers_of_a_list(parts: Seq<Seq<char>>, n: i64)
    ensures
        json::numbers_in(parts).contains(n) == exists|i: int|
            0 <= i < parts.len() && writes(#[trigger] parts[i], n),
    decreases parts.len(),
{
    if parts.len() > 0 {
        let init = parts.drop_last();
        law_numbers_of_a_list(init, n);
        if exists|i: int|
            0 <= i < init.len() && writes(#[trigger] init[i], n) {
            let i = choose|i: int|
                0 <= i < init.len() && writes(#[trigger] init[i], n);
            assert(parts[i] == init[i]);
        }
        if exists|i: int|
            0 <= i < parts.len() && writes(#[trigger] parts[i], n) {
            let i = choose|i: int|
                0 <= i < parts.len() && writes(#[trigger] parts[i], n);
            if i < init.len() {
                assert(init[i] == parts[i]);
            }
        }
        assert(parts[parts.len() - 1] == parts.last());
    }
}

/// An array is what stands between the brackets behind its name.
pub proof fn law_array_is_between_its_brackets(
    s: Seq<char>,
    key: Seq<char>,
    a: Seq<char>,
    inner: Seq<char>,
    rest: Seq<char>,
)
    requires
        chars::around(s, json::marker(key)) == Some(
            (a, seq![':', '['] + inner + seq![']'] + rest),
        ),
        !inner.contains(']'),
    ensures
        json::bracketed(s, key) == Some(inner),
        json::array_value(s, key) == json::number_list(inner),
{
    reveal_strlit(":");
    reveal_strlit("[");
    reveal_strlit("]");
    assert(":"@ =~= seq![':']);
    assert("["@ =~= seq!['[']);
    assert("]"@ =~= seq![']']);
    let none = Seq::<char>::empty();
    let list = inner + "]"@ + rest;
    let value = none + "["@ + list;
    lemma_around_first(none, ":"@, value);
    assert(none + ":"@ + value =~= seq![':', '['] + inner + seq![']'] + rest);
    lemma_around_first(none, "["@, list);
    lemma_around_first(inner, "]"@, rest);
}

proof fn lemma_plain_block(inner: Seq<char>, rest: Seq<char>)
    requires
        forall|i: int|
            0 <= i < inner.len() ==> #[trigger] inner[i] != '{' && inner[i] != '}' && inner[i]
                != '"',
    ensures
        json::block_len(inner + seq!['}'] + rest, 1, false) == Some(inner.len() + 1),
    decreases inner.len(),
{
    let all = inner + seq!['}'] + rest;
    if inner.len() == 0 {
        assert(all[0] == '}');
    } else {
        let more = inner.skip(1);
        assert(all[0] == inner[0]);
        assert(all.skip(1) =~= more + seq!['}'] + rest);
        assert forall|i: int| 0 <= i < more.len() implies #[trigger] more[i] != '{' && more[i]
            != '}' && more[i] != '"' by {
            assert(more[i] == inner[i + 1]);
        }
        lemma_plain_block(more, rest);
    }
}

/// An object is the block in braces behind its name.
pub proof fn law_object_is_between_its_braces(
    s: Seq<char>,
    key: Seq<char>,
    a: Seq<char>,
    inner: Seq<char>,
    rest: Seq<char>,
)
    requires
        !key.contains('{'),
        chars::around(s, json::marker(key)) == Some(
            (a, seq![':', '{'] + inner + seq!['}'] + rest),
        ),
        forall|i: int|
            0 <= i < inner.len() ==> #[trigger] inner[i] != '{' && inner[i] != '}' && inner[i]
                != '"',
    ensures
        json::object_value(s, key) == Some(seq!['{'] + inner + seq!['}']),
{
    reveal_strlit("{");
    reveal_strlit("\"");
    assert("{"@ =~= seq!['{']);
    let m = json::marker(key);
    law_find_is_first_occurrence(s, m);
    let p = chars::find(s, m)->0 as int;
    let tail = inner + seq!['}'] + rest;
    let head = m + seq![':'];
    let from = s.skip(p);
    assert(from =~= head + "{"@ + tail) by {
        assert(s =~= a + m + (seq![':', '{'] + inner + seq!['}'] + rest));
        assert(a.len() == p);
    }
    assert(!head.contains('{')) by {
        if head.contains('{') {
            let i = head.index_of('{');
            if i < m.len() {
                if 0 < i && i < m.len() - 1 {
                    assert(key[i - 1] == '{');
                }
            }
        }
    }
    lemma_around_first(head, "{"@, tail);
    let block = from.skip(head.len() as int);
    assert(block =~= seq!['{'] + tail);
    assert(block[0] == '{');
    assert(block.skip(1) =~= tail);
    lemma_plain_block(inner, rest);
    assert(block.take((inner.len() + 2) as int) =~= seq!['{'] + inner + seq!['}']);
}

/// An object that is found starts with its brace and stands in the whole.
pub proof fn law_object_is_a_block(s: Seq<char>, key: Seq<char>)
    ensures
        json::object_value(s, key) matches Some(block) ==> block.len() > 0 && block[0] == '{'
            && block.last() == '}' && occurs(s, block),
{
    law_find_is_first_occurrence(s, json::marker(key));
    if json::object_value(s, key) is Some {
        let p = chars::find(s, json::marker(key))->0 as int;
        let from = s.skip(p);
        law_find_is_first_occurrence(from, "{"@);
        let o = chars::find(from, "{"@)->0 as int;
        let block = from.skip(o);
        reveal_strlit("{");
        assert(from.subrange(o, o + 1)[0] == '{');
        lemma_block_end(block, 0, false);
        let n = json::block_len(block, 0, false)->0 as int;
        assert(s.subrange(p + o, p + o + n) =~= block.take(n));
        assert(stands_at(s, block.take(n), p + o));
    }
}

proof fn lemma_block_end(s: Seq<char>, depth: nat, in_string: bool)
    ensures
        json::block_len(s, depth, in_string) matches Some(n) ==> 0 < n <= s.len() && s[n - 1]
            == '}',
    decreases s.len(),
{
    if s.len() == 0 {
    } else if in_string && s[0] == '\\' {
        if s.len() > 1 {
            lemma_block_end(s.skip(2), depth, true);
        }
    } else if s[0] == '"' {
        lemma_block_end(s.skip(1), depth, !in_string);
    } else if in_string {
        lemma_block_end(s.skip(1), depth, true);
    } else if s[0] == '{' {
        lemma_block_end(s.skip(1), depth + 1, false);
    } else if s[0] == '}' {
        if depth > 1 {
            lemma_block_end(s.skip(1), (depth - 1) as nat, false);
        }
    } else {
        lemma_block_end(s.skip(1), depth, false);
    }
}

// ---------------------------------------------------------------------------
// Addresses
// ---------------------------------------------------------------------------

/// An address gives back its scheme, host, port and path.
pub proof fn law_address_reads_back(
    scheme: Seq<char>,
    host: Seq<char>,
    port: nat,
    path: Seq<char>,
)
    requires
        !scheme.contains(':'),
        host.len() > 0,
        !host.contains(':'),
        !host.contains('/'),
        port <= 65535,
        path.len() > 0,
    ensures
        endpoint_of(
            scheme + "://"@ + (host + seq![':'] + numbers::decimal(port) + "/"@ + path),
        ) == Ok::<EndpointModel, Seq<char>>(
            EndpointModel { scheme, host, port, base_path: "/"@ + path },
        ),
{
    let d = numbers::decimal(port);
    let authority = host + seq![':'] + d;
    let rest = authority + "/"@ + path;
    reveal_strlit("://");
    reveal_strlit("/");
    numbers::lemma_decimal_digits(port);
    lemma_around_first(scheme, "://"@, rest);
    assert(!authority.contains('/')) by {
        if authority.contains('/') {
            let i = authority.index_of('/');
            if i < host.len() {
                assert(host[i] == '/');
            } else if i > host.len() {
                assert(d[i - host.len() - 1] == '/');
            }
        }
    }
    lemma_around_first(authority, "/"@, path);
    lemma_last_index(authority, ':');
    assert(authority[host.len() as int] == ':');
    assert(authority.contains(':'));
    let i = chars::last_index(authority, ':')->0 as int;
    if i < host.len() {
        assert(authority[host.len() as int] != ':');
    } else if i > host.len() {
        assert(d[i - host.len() - 1] == ':');
    }
    assert(authority.skip(i + 1) =~= d);
    assert(authority.take(i) =~= host);
    numbers::law_decimal_round_trip(port, 65535);
}

/// An address without a port has the usual one of its scheme, and one without a
/// path has none.
pub proof fn law_address_without_a_port(scheme: Seq<char>, host: Seq<char>)
    requires
        !scheme.contains(':'),
        host.len() > 0,
        !host.contains(':'),
        !host.contains('/'),
    ensures
        endpoint_of(scheme + "://"@ + host) == Ok::<EndpointModel, Seq<char>>(
            EndpointModel {
                scheme,
                host,
                port: if scheme == "https"@ {
                    443
                } else {
                    80
                },
                base_path: seq![],
            },
        ),
{
    reveal_strlit("://");
    reveal_strlit("/");
    lemma_around_first(scheme, "://"@, host);
    law_find_is_first_occurrence(host, "/"@);
    if occurs(host, "/"@) {
        let i = choose|i: int| stands_at(host, "/"@, i);
        assert(host.subrange(i, i + 1)[0] == '/');
        assert(host[i] == '/');
    }
    lemma_last_index(host, ':');
}

/// An address without a scheme is refused.
pub proof fn law_address_needs_a_scheme(url: Seq<char>)
    ensures
        !occurs(url, "://"@) ==> endpoint_of(url) is Err,
        endpoint_of(url) matches Ok(e) ==> e.host.len() > 0,
{
    law_find_is_first_occurrence(url, "://"@);
}

/// A path under a base ends as it was given, and starts with the base, slashes at
/// the base's end aside.
pub proof fn law_path_under_a_base(base: Seq<char>, path: Seq<char>)
    ensures
        path_under(base, path).len() >= path.len(),
        path_under(base, path).skip(path_under(base, path).len() - path.len()) == path,
        base.len() > 0 && base.last() != '/' ==> path_under(base, path) == base + path,
        base.len() == 0 ==> path_under(base, path) == path,
        path_under(base + seq!['/'], path) == path_under(base, path) || base.len() == 0,
{
    let r = path_under(base, path);
    assert(r.skip(r.len() - path.len()) =~= path);
    let more = base + seq!['/'];
    assert(more.drop_last() =~= base);
    assert(more.last() == '/');
}

/// A client is made for every supported provider with a good address: it asks for
/// the configured model, with the key where one is given.
pub proof fn law_client_is_as_configured(c: LlmModel)
    ensures
        client_of(c) is Ok == (is_supported(c.provider) && endpoint_of(c.url) is Ok),
        client_of(c) matches Ok(m) ==> m.model == c.model && m.thinking == c.thinking && m.endpoint.host
            == (endpoint_of(c.url)->Ok_0).host && m.endpoint.port == (endpoint_of(c.url)->Ok_0).port
            && m.endpoint.scheme == (endpoint_of(c.url)->Ok_0).scheme,
        client_of(c) matches Ok(m) ==> ((endpoint_of(c.url)->Ok_0).base_path.len() > 0
            ==> m.endpoint.base_path == (endpoint_of(c.url)->Ok_0).base_path),
        client_of(c) matches Ok(m) ==> ((endpoint_of(c.url)->Ok_0).base_path.len() == 0
            ==> m.endpoint.base_path == "/v1"@),
        client_of(c) matches Ok(m) ==> (c.api_key matches Some(k) ==> (chars::trim(k).len() > 0
            ==> m.api_key == Some(k))),
        client_of(c) matches Ok(m) ==> (m.api_key matches Some(k) ==> c.api_key == Some(k)
            && chars::trim(k).len() > 0),
{
}

// ---------------------------------------------------------------------------
// Requests and answers of a model
// ---------------------------------------------------------------------------

/// A request names the model and has the system prompt and every message of the
/// conversation, with its role.
pub proof fn law_request_has_every_message(
    c: ClientModel,
    system: Seq<char>,
    messages: Seq<Turn>,
    i: int,
)
    requires
        0 <= i < messages.len(),
    ensures
        occurs(request_body(c, system, messages), json::escaped(c.model)),
        occurs(request_body(c, system, messages), json::escaped(messages[i].content)),
        occurs(
            request_body(c, system, messages),
            message_json(json::escaped(messages[i].role), messages[i].content),
        ),
        system.len() > 0 ==> occurs(
            request_body(c, system, messages),
            message_json("system"@, system),
        ),
        messages_json(system, messages).len() == messages.len() + (if system.len() == 0 {
            0int
        } else {
            1
        }),
        messages_json(system, messages)[messages_json(system, messages).len() - messages.len() + i]
            == message_json(json::escaped(messages[i].role), messages[i].content),
{
    let all = messages_json(system, messages);
    let joined = chars::join(all, ","@);
    let body = request_body(c, system, messages);
    let k = all.len() - messages.len() + i;
    let m = message_json(json::escaped(messages[i].role), messages[i].content);
    assert(all[k] == m);
    lemma_body_parts(c, system, messages);
    law_joined_parts_stand_in_whole(all, ","@, k);
    lemma_within(body, joined, m);
    let e = json::escaped(messages[i].content);
    lemma_part(
        "{\"role\":\""@ + json::escaped(messages[i].role) + "\",\"content\":\""@,
        e,
        "\"}"@,
    );
    lemma_within(body, m, e);
    if system.len() > 0 {
        assert(all[0] == message_json("system"@, system));
        law_joined_parts_stand_in_whole(all, ","@, 0);
        lemma_within(body, joined, message_json("system"@, system));
    }
}

proof fn lemma_body_parts(c: ClientModel, system: Seq<char>, messages: Seq<Turn>)
    ensures
        occurs(request_body(c, system, messages), json::escaped(c.model)),
        occurs(
            request_body(c, system, messages),
            chars::join(messages_json(system, messages), ","@),
        ),
        occurs(
            request_body(c, system, messages),
            ",\"chat_template_kwargs\":{\"enable_thinking\":"@ + chars::bool_text(c.thinking),
        ),
{
    let p1 = "{\"model\":\""@;
    let s1 = json::escaped(c.model);
    let p2 = "\",\"messages\":["@;
    let s2 = chars::join(messages_json(system, messages), ","@);
    let p3 = "],\"max_tokens\":"@;
    let s3 = if c.thinking {
        "16384"@
    } else {
        "32768"@
    };
    let p4 = ",\"temperature\":"@;
    let s4 = if c.thinking {
        "1.0"@
    } else {
        "0.2"@
    };
    let p5 = ",\"chat_template_kwargs\":{\"enable_thinking\":"@;
    let s5 = chars::bool_text(c.thinking);
    let p6 = "}}"@;
    lemma_regroup(p1, s1, p2, s2, p3, s3, p4, s4, p5, s5, p6);
}

proof fn lemma_regroup(
    p1: Seq<char>,
    s1: Seq<char>,
    p2: Seq<char>,
    s2: Seq<char>,
    p3: Seq<char>,
    s3: Seq<char>,
    p4: Seq<char>,
    s4: Seq<char>,
    p5: Seq<char>,
    s5: Seq<char>,
    p6: Seq<char>,
)
    ensures
        occurs(p1 + s1 + p2 + s2 + p3 + s3 + p4 + s4 + p5 + s5 + p6, s1),
        occurs(p1 + s1 + p2 + s2 + p3 + s3 + p4 + s4 + p5 + s5 + p6, s2),
        occurs(p1 + s1 + p2 + s2 + p3 + s3 + p4 + s4 + p5 + s5 + p6, p5 + s5),
{
    let all = p1 + s1 + p2 + s2 + p3 + s3 + p4 + s4 + p5 + s5 + p6;
    let tail = p3 + s3 + p4 + s4 + p5 + s5 + p6;
    lemma_part(p1, s1, p2 + s2 + tail);
    assert(p1 + s1 + (p2 + s2 + tail) =~= all);
    lemma_part(p1 + s1 + p2, s2, tail);
    assert(p1 + s1 + p2 + s2 + tail =~= all);
    let head = p1 + s1 + p2 + s2 + p3 + s3 + p4 + s4;
    lemma_part(head, p5 + s5, p6);
    assert(head + (p5 + s5) + p6 =~= all);
}

/// A request says whether the model is to think.
pub proof fn law_request_tells_about_thinking(
    c: ClientModel,
    system: Seq<char>,
    messages: Seq<Turn>,
)
    ensures
        occurs(
            request_body(c, system, messages),
            ",\"chat_template_kwargs\":{\"enable_thinking\":"@ + chars::bool_text(c.thinking),
        ),
{
    lemma_body_parts(c, system, messages);
}

/// What a model thought is left out of its answer: everything between the marks,
/// and nothing else.
pub proof fn law_thinking_is_left_out(a: Seq<char>, thought: Seq<char>, b: Seq<char>)
    requires
        !a.contains('<'),
        !thought.contains('<'),
    ensures
        without_thinking(a + "<think>"@ + (thought + "</think>"@ + b)) == a + without_thinking(b),
{
    reveal_strlit("<think>");
    reveal_strlit("</think>");
    lemma_around_first(a, "<think>"@, thought + "</think>"@ + b);
    lemma_around_first(thought, "</think>"@, b);
}

/// A text without the mark of a thought stays as it is, and one whose thought does
/// not end keeps what stands before it.
pub proof fn law_text_without_thinking_stays(s: Seq<char>, a: Seq<char>, thought: Seq<char>)
    requires
        !a.contains('<'),
        !thought.contains('<'),
    ensures
        !occurs(s, "<think>"@) ==> without_thinking(s) == s,
        without_thinking(a + "<think>"@ + thought) == a,
{
    reveal_strlit("<think>");
    reveal_strlit("</think>");
    law_find_is_first_occurrence(s, "<think>"@);
    lemma_around_first(a, "<think>"@, thought);
    law_find_is_first_occurrence(thought, "</think>"@);
    if occurs(thought, "</think>"@) {
        let i = choose|i: int| stands_at(thought, "</think>"@, i);
        assert(thought.subrange(i, i + 8)[0] == '<');
        assert(thought[i] == '<');
    }
}

/// The answer is the content of the reply's message, read back as it was escaped,
/// without thinking and without white space around it.
pub proof fn law_answer_is_the_content(
    response: Seq<char>,
    before: Seq<char>,
    behind: Seq<char>,
    a: Seq<char>,
    content: Seq<char>,
    rest: Seq<char>,
)
    requires
        chars::around(response, "\"message\""@) == Some((before, behind)),
        chars::around("\"message\""@ + behind, json::marker("content"@)) == Some(
            (a, seq![':', '"'] + (json::escaped(content) + seq!['"'] + rest)),
        ),
        chars::trim(json::shown(content)).len() > 0,
        chars::trim(
            chars::trim(without_thinking(chars::trim(json::shown(content)))),
        ).len() > 0,
    ensures
        completion_of(response) == Ok::<Seq<char>, Seq<char>>(
            chars::trim(without_thinking(chars::trim(json::shown(content)))),
        ),
{
    let m = "\"message\""@;
    law_find_is_first_occurrence(response, m);
    let p = chars::find(response, m)->0 as int;
    assert(response.skip(p) =~= m + behind);
    law_string_value_reads_back(m + behind, "content"@, a, content, rest);
}

/// A reply without any content is an error.
pub proof fn law_no_answer_without_content(response: Seq<char>)
    requires
        !occurs(response, json::marker("content"@)),
    ensures
        completion_of(response) is Err,
{
    let m = "\"message\""@;
    law_no_value_without_its_name(response, "content"@);
    law_find_is_first_occurrence(response, m);
    if let Some(p) = chars::find(response, m) {
        let from = response.skip(p as int);
        if occurs(from, json::marker("content"@)) {
            law_occurrence_carries_over(
                response.take(p as int),
                from,
                seq![],
                json::marker("content"@),
            );
            assert(response.take(p as int) + from + Seq::<char>::empty() =~= response);
        }
        law_no_value_without_its_name(from, "content"@);
    }
}

/// The stand-in repeats what it was asked last.
pub proof fn law_stand_in_repeats_the_question(messages: Seq<Turn>)
    requires
        messages.len() > 0,
    ensures
        occurs(offline_reply(messages), messages.last().content),
{
    lemma_part(
        "offline planner noted: "@,
        messages.last().content,
        "\nNo LLM provider is configured in this minimal build."@,
    );
}

// ---------------------------------------------------------------------------
// Requests and responses
// ---------------------------------------------------------------------------

proof fn lemma_header(headers: Seq<(&str, &str)>, i: int)
    requires
        0 <= i < headers.len(),
    ensures
        occurs(header_lines(headers), header_line(headers[i].0@, headers[i].1@)),
    decreases headers.len(),
{
    let before = header_lines(headers.drop_last());
    let last = header_line(headers.last().0@, headers.last().1@);
    let line = header_line(headers[i].0@, headers[i].1@);
    if i < headers.len() - 1 {
        lemma_header(headers.drop_last(), i);
        law_occurrence_carries_over(seq![], before, last, line);
        assert(Seq::<char>::empty() + before + last =~= before + last);
    } else {
        lemma_part(before, last, seq![]);
        assert(before + last + Seq::<char>::empty() =~= before + last);
    }
}

/// A request starts with its method, path and host, has every header that was
/// given, tells the length of its body where no header does, and ends with an
/// empty line.
pub proof fn law_request_head_has_everything(req: Request)
    ensures
        stands_at(
            request_head(req),
            req.method@ + " "@ + req.path@ + " HTTP/1.1\r\n"@ + "Host: "@ + req.host@ + "\r\n"@,
            0,
        ),
        forall|i: int|
            0 <= i < req.headers@.len() ==> occurs(
                request_head(req),
                header_line((#[trigger] req.headers@[i]).0@, req.headers@[i].1@),
            ),
        !has_header(req.headers@, "Content-Length"@) ==> occurs(
            request_head(req),
            "Content-Length: "@ + numbers::decimal(req.body@.len()) + "\r\n"@,
        ),
        !has_header(req.headers@, "Connection"@) ==> occurs(
            request_head(req),
            "Connection: close\r\n"@,
        ),
        request_head(req).len() >= 2,
        request_head(req).skip(request_head(req).len() - 2) == "\r\n"@,
{
    let a = req.method@ + " "@ + req.path@ + " HTTP/1.1\r\n"@ + "Host: "@ + req.host@ + "\r\n"@;
    let h = header_lines(req.headers@);
    let length = if has_header(req.headers@, "Content-Length"@) {
        ""@
    } else {
        "Content-Length: "@ + numbers::decimal(req.body@.len()) + "\r\n"@
    };
    let connection = if has_header(req.headers@, "Connection"@) {
        ""@
    } else {
        "Connection: close\r\n"@
    };
    let all = request_head(req);
    reveal_strlit("\r\n");
    lemma_head(a, h, length, connection, "\r\n"@);
    assert forall|i: int| 0 <= i < req.headers@.len() implies occurs(
        all,
        header_line((#[trigger] req.headers@[i]).0@, req.headers@[i].1@),
    ) by {
        lemma_header(req.headers@, i);
        lemma_within(all, h, header_line(req.headers@[i].0@, req.headers@[i].1@));
    }
}

proof fn lemma_head(a: Seq<char>, h: Seq<char>, l: Seq<char>, c: Seq<char>, e: Seq<char>)
    requires
        e.len() == 2,
    ensures
        stands_at(a + h + l + c + e, a, 0),
        occurs(a + h + l + c + e, h),
        occurs(a + h + l + c + e, l),
        occurs(a + h + l + c + e, c),
        (a + h + l + c + e).len() >= 2,
        (a + h + l + c + e).skip((a + h + l + c + e).len() - 2) == e,
{
    let all = a + h + l + c + e;
    assert(all.subrange(0, a.len() as int) =~= a);
    lemma_part(a, h, l + c + e);
    assert(a + h + (l + c + e) =~= all);
    lemma_part(a + h, l, c + e);
    assert(a + h + l + (c + e) =~= all);
    lemma_part(a + h + l, c, e);
    assert(all.skip(all.len() - 2) =~= e);
}

/// A pattern of bytes is found where it stands first, and not found only where it
/// stands nowhere.
pub proof fn law_first_match_is_first(bytes: Seq<u8>, p: Seq<u8>)
    requires
        p.len() > 0,
    ensures
        first_match(bytes, p) matches Some(i) ==> i + p.len() <= bytes.len() && begins(
            bytes.skip(i as int),
            p,
        ) && forall|j: int| 0 <= j < i ==> !begins(#[trigger] bytes.skip(j), p),
        first_match(bytes, p) is None ==> forall|j: int|
            0 <= j <= bytes.len() ==> !begins(#[trigger] bytes.skip(j), p),
    decreases bytes.len(),
{
    assert(bytes.skip(0) =~= bytes);
    if bytes.len() < p.len() {
    } else if begins(bytes, p) {
    } else {
        let rest = bytes.skip(1);
        law_first_match_is_first(rest, p);
        match first_match(rest, p) {
            Some(i) => {
                assert(bytes.skip((i + 1) as int) =~= rest.skip(i as int));
                assert forall|j: int| 0 <= j < i + 1 implies !begins(
                    #[trigger] bytes.skip(j),
                    p,
                ) by {
                    if j > 0 {
                        assert(bytes.skip(j) =~= rest.skip(j - 1));
                    }
                }
            },
            None => {
                assert forall|j: int| 0 <= j <= bytes.len() implies !begins(
                    #[trigger] bytes.skip(j),
                    p,
                ) by {
                    if j > 0 {
                        assert(bytes.skip(j) =~= rest.skip(j - 1));
                    }
                }
            },
        }
    }
}

/// A response gives its body: all of it where no length is told or the length fits
/// it, with a status in the 200s; with any other status the error tells both.
pub proof fn law_response_gives_its_body(head: Seq<u8>, body: Seq<u8>, status: nat)
    requires
        first_match(
            head + seq![13u8, 10u8, 13u8, 10u8] + body,
            seq![13u8, 10u8, 13u8, 10u8],
        ) == Some(head.len()),
        valid_utf8(head),
        valid_utf8(body),
        status_code(chars::split(decode_utf8(head), "\r\n"@)) == Ok::<nat, Seq<char>>(status),
        ({
            let f = framing(chars::split(decode_utf8(head), "\r\n"@).skip(1));
            !f.chunked && (f.content_length matches Some(n) ==> n >= body.len())
        }),
    ensures
        ({
            let r = response_text(head + seq![13u8, 10u8, 13u8, 10u8] + body);
            &&& 200 <= status < 300 ==> r == Ok::<Seq<char>, Seq<char>>(decode_utf8(body))
            &&& !(200 <= status < 300) ==> (r matches Err(e) && occurs(e, numbers::decimal(status))
                && occurs(e, decode_utf8(body)))
        }),
{
    let mark = seq![13u8, 10u8, 13u8, 10u8];
    let raw = head + mark + body;
    let k = head.len() as int;
    assert(raw.take(k) =~= head);
    assert(raw.skip(k + 4) =~= body);
    assert(body.take(body.len() as int) =~= body);
    let d = numbers::decimal(status);
    let t = decode_utf8(body);
    lemma_part("HTTP "@, d, ": "@ + t);
    assert("HTTP "@ + d + (": "@ + t) =~= "HTTP "@ + d + ": "@ + t);
    lemma_part("HTTP "@ + d + ": "@, t, seq![]);
    assert("HTTP "@ + d + ": "@ + t + Seq::<char>::empty() =~= "HTTP "@ + d + ": "@ + t);
}

/// A body is cut to the length that is told for it.
pub proof fn law_body_is_cut_to_its_length(body: Seq<u8>, more: Seq<u8>)
    requires
        valid_utf8(body),
    ensures
        body_text(body + more, Framing { chunked: false, content_length: Some(body.len()) }) == Ok::<
            Seq<char>,
            Seq<char>,
        >(decode_utf8(body)),
{
    let all = body + more;
    assert(all.take(body.len() as int) =~= body);
    if more.len() == 0 {
        assert(all =~= body);
        assert(all.take(all.len() as int) =~= body);
    }
}

/// A chunked body is the text of its chunks, whatever length is told.
pub proof fn law_chunked_body_is_its_chunks(body: Seq<u8>, f: Framing)
    requires
        f.chunked,
    ensures
        body_text(body, f) == chunked_text(body),
        chunks(body, seq![]) matches Ok(bytes) ==> (valid_utf8(bytes) ==> body_text(body, f) == Ok::<
            Seq<char>,
            Seq<char>,
        >(decode_utf8(bytes))),
{
}

/// The name of the header of a line, in lower case.
pub open spec fn header_name(line: Seq<char>) -> Option<Seq<char>> {
    match chars::around(line, ":"@) {
        Some((name, _)) => Some(chars::lower(chars::trim(name))),
        None => None,
    }
}

/// A body is chunked where any header of the codings says so.
pub proof fn law_any_coding_line_counts(lines: Seq<Seq<char>>)
    ensures
        framing(lines).chunked == exists|i: int|
            0 <= i < lines.len() && header_name(#[trigger] lines[i]) == Some(
                "transfer-encoding"@,
            ) && names_chunked(chars::trim((chars::around(lines[i], ":"@)->0).1)),
    decreases lines.len(),
{
    reveal_strlit("transfer-encoding");
    reveal_strlit("content-length");
    assert("transfer-encoding"@.len() != "content-length"@.len());
    if lines.len() > 0 {
        let init = lines.drop_last();
        law_any_coding_line_counts(init);
        if exists|i: int|
            0 <= i < init.len() && header_name(#[trigger] init[i]) == Some("transfer-encoding"@)
                && names_chunked(chars::trim((chars::around(init[i], ":"@)->0).1)) {
            let i = choose|i: int|
                0 <= i < init.len() && header_name(#[trigger] init[i]) == Some(
                    "transfer-encoding"@,
                ) && names_chunked(chars::trim((chars::around(init[i], ":"@)->0).1));
            assert(lines[i] == init[i]);
        }
        if exists|i: int|
            0 <= i < lines.len() && header_name(#[trigger] lines[i]) == Some("transfer-encoding"@)
                && names_chunked(chars::trim((chars::around(lines[i], ":"@)->0).1)) {
            let i = choose|i: int|
                0 <= i < lines.len() && header_name(#[trigger] lines[i]) == Some(
                    "transfer-encoding"@,
                ) && names_chunked(chars::trim((chars::around(lines[i], ":"@)->0).1));
            if i < init.len() {
                assert(init[i] == lines[i]);
            }
        }
        assert(lines[lines.len() - 1] == lines.last());
    }
}

/// The length of a body is what the last header of the length says.
pub proof fn law_last_length_line_counts(lines: Seq<Seq<char>>, i: int, n: nat)
    requires
        0 <= i < lines.len(),
        header_name(lines[i]) == Some("content-length"@),
        chars::trim((chars::around(lines[i], ":"@)->0).1) == numbers::decimal(n),
        n <= usize::MAX,
        forall|j: int|
            i < j < lines.len() ==> header_name(#[trigger] lines[j]) != Some("content-length"@),
    ensures
        framing(lines).content_length == Some(n),
    decreases lines.len(),
{
    reveal_strlit("transfer-encoding");
    reveal_strlit("content-length");
    assert("transfer-encoding"@.len() != "content-length"@.len());
    if i < lines.len() - 1 {
        assert(header_name(lines[lines.len() - 1]) != Some("content-length"@));
        law_last_length_line_counts(lines.drop_last(), i, n);
    } else {
        numbers::law_decimal_round_trip(n, usize::MAX as nat);
    }
}

/// The status is the second word of the first line.
pub proof fn law_status_is_the_second_word(
    version: Seq<char>,
    status: nat,
    reason: Seq<char>,
    lines: Seq<Seq<char>>,
)
    requires
        lines.len() > 0,
        !version.contains(' '),
        status <= 65535,
        lines[0] == version + seq![' '] + numbers::decimal(status) + seq![' '] + reason,
    ensures
        status_code(lines) == Ok::<nat, Seq<char>>(status),
{
    let d = numbers::decimal(status);
    let set = CharSet::Only(' ');
    let line = lines[0];
    let tail = d + seq![' '] + reason;
    numbers::lemma_decimal_digits(status);
    assert(line =~= version + seq![' '] + tail);
    crate::laws::texts::lemma_pieces_break(version, ' ', tail, set);
    crate::laws::texts::lemma_pieces_break(d, ' ', reason, set);
    assert forall|j: int| 0 <= j < version.len() implies !set.has(#[trigger] version[j]) by {
        assert(version.contains(version[j]));
    }
    chars::lemma_until_is(version, set, version.len() as int);
    chars::lemma_until_is(d, set, d.len() as int);
    assert(chars::pieces(version, set) =~= seq![version]);
    assert(chars::pieces(d, set) =~= seq![d]);
    let parts = chars::pieces(line, set);
    assert(parts =~= seq![version] + (seq![d] + chars::pieces(reason, set)));
    assert(parts[1] == d);
    numbers::law_decimal_round_trip(status, 65535);
}

/// Digits are read in their order, each one more place: with one digit more a
/// number is so many times the base, and the digit. Letters are digits in base 16
/// only, in either case.
pub proof fn law_numbers_grow_by_their_digits(
    s: Seq<char>,
    c: char,
    radix: nat,
    max: nat,
    n: nat,
    d: nat,
)
    requires
        s.len() > 0,
        s[0] != '+',
        numbers::unsigned_value(s, radix, max) == Ok::<nat, numbers::NumberError>(n),
        numbers::digit_value(c, radix) == Some(d),
    ensures
        n * radix + d <= max ==> numbers::unsigned_value(s.push(c), radix, max) == Ok::<
            nat,
            numbers::NumberError,
        >(n * radix + d),
        n * radix + d > max ==> numbers::unsigned_value(s.push(c), radix, max) is Err,
{
    let t = seq![c];
    assert(s.push(c) =~= s + t);
    numbers::lemma_scan_concat(s, t, radix, max, 0);
    assert(t[0] == c);
    let v = n * radix + d;
    assert(t.skip(1).len() == 0);
    assert(numbers::scan(t.skip(1), radix, max, v) == Ok::<nat, numbers::NumberError>(v));
    assert((s + t)[0] == s[0]);
    assert(numbers::scan(s, radix, max, 0) == Ok::<nat, numbers::NumberError>(n));
}

/// What the characters of a number are worth.
pub proof fn law_digits_are_worth_their_place(c: char)
    ensures
        '0' <= c <= '9' ==> numbers::digit_value(c, 10) == Some((c as u32 - 48) as nat)
            && numbers::digit_value(c, 16) == Some((c as u32 - 48) as nat),
        'a' <= c <= 'f' ==> numbers::digit_value(c, 16) == Some((c as u32 - 87) as nat)
            && numbers::digit_value(c, 10) is None,
        'A' <= c <= 'F' ==> numbers::digit_value(c, 16) == Some((c as u32 - 55) as nat)
            && numbers::digit_value(c, 10) is None,
        !('0' <= c <= '9') && !('a' <= c <= 'f') && !('A' <= c <= 'F') ==> numbers::digit_value(
            c,
            16,
        ) is None,
{
}

/// How many more braces are opened than closed.
pub open spec fn braces(s: Seq<char>) -> int
    decreases s.len(),
{
    if s.len() == 0 {
        0
    } else {
        braces(s.skip(1)) + (if s[0] == '{' {
            1int
        } else if s[0] == '}' {
            -1
        } else {
            0
        })
    }
}

/// A block of text without quotes ends where as many braces are closed as were
/// opened.
pub proof fn law_block_is_balanced(s: Seq<char>, depth: nat, n: nat)
    requires
        !s.contains('"'),
        s.len() > 0,
        depth > 0 || s[0] == '{',
        json::block_len(s, depth, false) == Some(n),
    ensures
        0 < n <= s.len(),
        s[n - 1] == '}',
        braces(s.take(n as int)) == -depth,
    decreases s.len(),
{
    assert(s.contains(s[0]));
    let rest = s.skip(1);
    if s[0] == '}' && depth <= 1 {
        assert(s.take(1).skip(1) =~= Seq::<char>::empty());
        assert(braces(Seq::<char>::empty()) == 0);
        assert(s.take(1)[0] == '}');
    } else {
        let deeper: nat = if s[0] == '{' {
            depth + 1
        } else if s[0] == '}' {
            (depth - 1) as nat
        } else {
            depth
        };
        assert(json::block_len(rest, deeper, false) is Some);
        if rest.contains('"') {
            let k = choose|k: int| 0 <= k < rest.len() && rest[k] == '"';
            assert(s[k + 1] == '"');
        }
        if rest.len() > 0 {
            law_block_is_balanced(rest, deeper, (n - 1) as nat);
            assert(s.take(n as int).skip(1) =~= rest.take(n - 1));
            assert(s.take(n as int)[0] == s[0]);
        }
    }
}

}
