//! The Telegram bot: which messages are admitted, what kind they are, and the
//! requests and updates of its interface.
use std::collections::BTreeSet;

use vstd::prelude::*;

use crate::chars;
use crate::chars::CharSet;
use crate::foreign;
use crate::foreign::lossy;
use crate::json;
use crate::numbers;
use crate::text;

verus! {

#[derive(Debug, Clone, Copy, PartialEq, Eq, Structural)]
pub enum MessageKind {
    Knowledge,
    Action,
}

// ---------------------------------------------------------------------------
// Kinds of messages
// ---------------------------------------------------------------------------

/// `/help`, alone or with arguments.
pub open spec fn asks_help(s: Seq<char>) -> bool {
    chars::lower(s) == "/help"@ || chars::starts_with(chars::lower(s), "/help "@)
}

/// A word that looks like a path: it has a separator, or a dot inside.
pub open spec fn is_path_like(word: Seq<char>) -> bool {
    chars::contains(word, "/"@) || chars::contains(word, "\\"@) || (match chars::last_index(
        word,
        '.',
    ) {
        Some(i) => 0 < i && i < word.len() - 1,
        None => false,
    })
}

/// Whether one of the words of a text looks like a path.
pub open spec fn has_path(s: Seq<char>) -> bool {
    exists|i: int| 0 <= i < chars::words(s).len() && is_path_like(#[trigger] chars::words(s)[i])
}

/// Phrases that ask for an action in other words.
pub open spec fn has_action_phrase(s: Seq<char>) -> bool {
    ||| chars::contains(s, "please list"@)
    ||| chars::contains(s, "please run"@)
    ||| chars::contains(s, "please exec"@)
    ||| chars::contains(s, "please read"@)
    ||| chars::contains(s, "can you list"@)
    ||| chars::contains(s, "can you run"@)
    ||| chars::contains(s, "can you read"@)
    ||| chars::contains(s, "could you list"@)
    ||| chars::contains(s, "could you run"@)
    ||| chars::contains(s, "could you read"@)
}

/// Actions are slash commands but `/help`, texts that start with the verb of an
/// action, and texts that ask for one; everything else is a question.
pub open spec fn kind_of(s: Seq<char>) -> MessageKind {
    let t = chars::trim(s);
    let l = chars::lower(t);
    let action = {
        ||| chars::starts_with(t, "/"@) && !asks_help(t)
        ||| chars::starts_with(l, "list "@) || chars::starts_with(l, "ls "@) || l == "list"@ || l
            == "ls"@
        ||| chars::starts_with(l, "run "@) || chars::starts_with(l, "exec "@) || chars::starts_with(
            l,
            "execute "@,
        )
        ||| (chars::starts_with(l, "read "@) || chars::starts_with(l, "cat "@)) && has_path(l)
        ||| has_action_phrase(l)
    };
    if action {
        MessageKind::Action
    } else {
        MessageKind::Knowledge
    }
}

fn is_help_command(s: &str) -> (r: bool)
    ensures
        r == asks_help(s@),
{
    let l = text::lower(s);
    text::same(l.as_str(), "/help") || text::starts_with(l.as_str(), "/help ")
}

fn text_contains_path(s: &str) -> (r: bool)
    ensures
        r == has_path(s@),
{
    let words = text::words(s);
    let ghost all = chars::words(s@);
    let mut i: usize = 0;
    while i < words.len()
        invariant
            i <= words.len(),
            all == chars::texts(words@),
            all == chars::words(s@),
            forall|k: int| 0 <= k < i ==> !is_path_like(#[trigger] all[k]),
        decreases words.len() - i,
    {
        let word = words[i];
        assert(all[i as int] == word@);
        let inner_dot = match text::last_index(word, '.') {
            Some(p) => 0 < p && p < word.unicode_len() - 1,
            None => false,
        };
        if text::contains(word, "/") || text::contains(word, "\\") || inner_dot {
            assert(is_path_like(chars::words(s@)[i as int]));
            return true;
        }
        i += 1;
    }
    false
}

fn contains_action_phrase(s: &str) -> (r: bool)
    ensures
        r == has_action_phrase(s@),
{
    text::contains(s, "please list") || text::contains(s, "please run") || text::contains(
        s,
        "please exec",
    ) || text::contains(s, "please read") || text::contains(s, "can you list") || text::contains(
        s,
        "can you run",
    ) || text::contains(s, "can you read") || text::contains(s, "could you list") || text::contains(
        s,
        "could you run",
    ) || text::contains(s, "could you read")
}

/// Whether a message asks a question or for an action.
pub fn classify_message_kind(s: &str) -> (r: MessageKind)
    ensures
        r == kind_of(s@),
{
    let t = text::trim(s);
    if text::starts_with(t, "/") && !is_help_command(t) {
        return MessageKind::Action;
    }
    let lowered = text::lower(t);
    let l = lowered.as_str();
    if text::starts_with(l, "list ") || text::starts_with(l, "ls ") || text::same(l, "list")
        || text::same(l, "ls") {
        return MessageKind::Action;
    }
    if text::starts_with(l, "run ") || text::starts_with(l, "exec ") || text::starts_with(
        l,
        "execute ",
    ) {
        return MessageKind::Action;
    }
    if (text::starts_with(l, "read ") || text::starts_with(l, "cat ")) && text_contains_path(l) {
        return MessageKind::Action;
    }
    if contains_action_phrase(l) {
        return MessageKind::Action;
    }
    MessageKind::Knowledge
}

/// Length of the polite opening of a text in lower case, 0 where it has none.
pub open spec fn polite_len(l: Seq<char>) -> nat {
    if chars::starts_with(l, "can you please "@) {
        "can you please "@.len()
    } else if chars::starts_with(l, "can you "@) {
        "can you "@.len()
    } else if chars::starts_with(l, "could you please "@) {
        "could you please "@.len()
    } else if chars::starts_with(l, "could you "@) {
        "could you "@.len()
    } else if chars::starts_with(l, "please "@) {
        "please "@.len()
    } else if chars::starts_with(l, "would you please "@) {
        "would you please "@.len()
    } else if chars::starts_with(l, "would you "@) {
        "would you "@.len()
    } else {
        0
    }
}

fn polite_length(l: &str) -> (r: usize)
    ensures
        r == polite_len(l@),
        r <= l@.len(),
{
    if text::starts_with(l, "can you please ") {
        "can you please ".unicode_len()
    } else if text::starts_with(l, "can you ") {
        "can you ".unicode_len()
    } else if text::starts_with(l, "could you please ") {
        "could you please ".unicode_len()
    } else if text::starts_with(l, "could you ") {
        "could you ".unicode_len()
    } else if text::starts_with(l, "please ") {
        "please ".unicode_len()
    } else if text::starts_with(l, "would you please ") {
        "would you please ".unicode_len()
    } else if text::starts_with(l, "would you ") {
        "would you ".unicode_len()
    } else {
        0
    }
}

/// The text without its polite opening, so that a planner sees the imperative.
pub open spec fn imperative(s: Seq<char>) -> Seq<char> {
    let t = chars::trim(s);
    let n = polite_len(chars::lower(t)) as int;
    if n > 0 {
        chars::trim_start(t.skip(n))
    } else {
        t
    }
}

/// Strips a polite opening.
pub fn normalize_action_text<'a>(s: &'a str) -> (r: &'a str)
    ensures
        r@ == imperative(s@),
{
    let t = text::trim(s);
    let n: usize = polite_length(text::lower(t).as_str());
    if n > 0 {
        let len: usize = t.unicode_len();
        let rest = t.substring_char(n, len);
        assert(rest@ =~= t@.skip(n as int));
        text::trim_start(rest)
    } else {
        t
    }
}

// ---------------------------------------------------------------------------
// Admission
// ---------------------------------------------------------------------------

#[derive(Debug)]
pub struct TelegramConfig {
    pub token: String,
    pub allowed_chats: BTreeSet<i64>,
}

impl TelegramConfig {
    pub fn validate_chat(&self, chat_id: i64) -> (r: bool)
        ensures
            r == self.allowed_chats@.contains(chat_id),
    {
        broadcast use vstd::std_specs::btree::group_btree_axioms;

        self.allowed_chats.contains(&chat_id)
    }
}

#[derive(Debug, PartialEq, Eq)]
pub struct TelegramMessage {
    pub update_id: i64,
    pub chat_id: i64,
    pub text: String,
}

/// The contents of a message.
pub ghost struct MessageModel {
    pub update_id: int,
    pub chat_id: int,
    pub text: Seq<char>,
}

impl View for TelegramMessage {
    type V = MessageModel;

    open spec fn view(&self) -> MessageModel {
        MessageModel {
            update_id: self.update_id as int,
            chat_id: self.chat_id as int,
            text: self.text@,
        }
    }
}

#[derive(Debug, PartialEq, Eq)]
pub enum TelegramAdmission {
    Accepted(String),
    PairingRequired(String),
}

#[derive(Debug)]
pub struct TelegramChannel {
    pub config: TelegramConfig,
}

/// The instructions for a chat that is not paired.
pub open spec fn pairing_instructions(chat_id: int) -> Seq<char> {
    "This Telegram chat is not paired with minipaw.\nchat_id="@ + numbers::signed(chat_id)
        + "\nRun this on the minipaw machine:\nminipaw config telegram pair "@ + numbers::signed(
        chat_id,
    )
}

impl TelegramChannel {
    pub fn new(config: TelegramConfig) -> (r: Self)
        ensures
            r.config == config,
    {
        TelegramChannel { config }
    }

    /// The text of a message from a paired chat. Every other chat is refused.
    pub fn accept_message(&self, message: TelegramMessage) -> (r: Result<String, String>)
        ensures
            if self.config.allowed_chats@.contains(message.chat_id) {
                r matches Ok(t) && t@ == message.text@
            } else {
                r matches Err(e) && e@ == "telegram chat is not allowlisted"@
            },
    {
        if !self.config.validate_chat(message.chat_id) {
            return Err("telegram chat is not allowlisted".to_owned());
        }
        Ok(message.text)
    }

    /// The text of a message from a paired chat, or the instructions to pair the
    /// chat.
    pub fn admit_message(&self, message: TelegramMessage) -> (r: TelegramAdmission)
        ensures
            if self.config.allowed_chats@.contains(message.chat_id) {
                r matches TelegramAdmission::Accepted(t) && t@ == message.text@
            } else {
                r matches TelegramAdmission::PairingRequired(t) && t@ == pairing_instructions(
                    message.chat_id as int,
                )
            },
    {
        if self.config.validate_chat(message.chat_id) {
            TelegramAdmission::Accepted(message.text)
        } else {
            TelegramAdmission::PairingRequired(pairing_text(message.chat_id))
        }
    }
}

pub fn pairing_text(chat_id: i64) -> (r: String)
    ensures
        r@ == pairing_instructions(chat_id as int),
{
    let id = numbers::signed_of(chat_id);
    let mut out = "This Telegram chat is not paired with minipaw.\nchat_id=".to_owned();
    out.append(id.as_str());
    out.append("\nRun this on the minipaw machine:\nminipaw config telegram pair ");
    out.append(id.as_str());
    out
}

// ---------------------------------------------------------------------------
// Updates
// ---------------------------------------------------------------------------

/// How many characters the number at the start of a text takes: digits, behind
/// a minus sign or not.
pub open spec fn number_len(s: Seq<char>) -> nat {
    if s.len() > 0 && s[0] == '-' {
        1 + chars::until(s.skip(1), CharSet::NotDigit)
    } else {
        chars::until(s, CharSet::NotDigit)
    }
}

/// The number at the start of a text.
pub open spec fn leading_number(s: Seq<char>) -> Option<int> {
    numbers::signed_value(s.take(number_len(s) as int))
}

/// At most the first four characters.
pub open spec fn four(s: Seq<char>) -> Seq<char> {
    if s.len() < 4 {
        s
    } else {
        s.take(4)
    }
}

/// The code unit that four hexadecimal digits write.
pub open spec fn code_unit(hex: Seq<char>) -> Option<nat> {
    if hex.len() == 4 {
        match numbers::unsigned_value(hex, 16, 65535) {
            Ok(n) => Some(n),
            Err(_) => None,
        }
    } else {
        None
    }
}

/// The character with a code point, where there is one.
pub open spec fn char_at(n: nat) -> Seq<char> {
    if n <= 0xd7ff || 0xe000 <= n <= 0x10ffff {
        seq![n as char]
    } else {
        seq![]
    }
}

/// The character of a surrogate pair, where the second unit is a low one.
pub open spec fn paired(high: nat, low: nat) -> Seq<char> {
    if low < 0xdc00 {
        seq![]
    } else {
        char_at((0x10000 + (high - 0xd800) * 0x400 + (low - 0xdc00)) as nat)
    }
}

/// What stands behind `\u`: the character that it writes, if any, and how many
/// characters it takes. A high surrogate takes the escape behind it too; what
/// is malformed writes nothing.
pub open spec fn unicode_escape(s: Seq<char>) -> (Seq<char>, nat) {
    let n = four(s).len();
    match code_unit(four(s)) {
        None => (seq![], n),
        Some(code) => if 0xd800 <= code < 0xdc00 {
            let after = s.skip(n as int);
            if after.len() == 0 {
                (seq![], n)
            } else if after[0] != '\\' {
                (seq![], n + 1)
            } else if after.len() == 1 {
                (seq![], n + 1)
            } else if after[1] != 'u' {
                (seq![], n + 2)
            } else {
                let second = four(after.skip(2));
                match code_unit(second) {
                    Some(low) => (paired(code, low), n + 2 + second.len()),
                    None => (seq![], n + 2 + second.len()),
                }
            }
        } else {
            (char_at(code), n)
        },
    }
}

/// The text of a quoted string with all escapes, entered behind its opening
/// quote; none where it does not end.
pub open spec fn quoted_text(s: Seq<char>) -> Option<Seq<char>>
    decreases s.len(),
{
    if s.len() == 0 {
        None
    } else if s[0] == '"' {
        Some(seq![])
    } else if s[0] == '\\' {
        if s.len() == 1 {
            None
        } else if s[1] == 'u' {
            let (c, n) = unicode_escape(s.skip(2));
            json::prepended(c, quoted_text(s.skip((2 + n) as int)))
        } else {
            json::prepended(seq![json::unescape_char(s[1])], quoted_text(s.skip(2)))
        }
    } else {
        json::prepended(seq![s[0]], quoted_text(s.skip(1)))
    }
}

/// The message in the part of a reply that starts with an update's number.
pub open spec fn message_in(chunk: Seq<char>) -> Option<MessageModel> {
    match (
        leading_number(chunk),
        chars::around(chunk, "\"chat\":{\"id\":"@),
        chars::around(chunk, "\"text\":\""@),
    ) {
        (Some(update_id), Some((_, chat)), Some((_, tail))) => match (
            leading_number(chat),
            quoted_text(tail),
        ) {
            (Some(chat_id), Some(text)) => Some(MessageModel { update_id, chat_id, text }),
            _ => None,
        },
        _ => None,
    }
}

/// The messages in parts of a reply; parts without one are skipped.
pub open spec fn messages_in(chunks: Seq<Seq<char>>) -> Seq<MessageModel>
    decreases chunks.len(),
{
    if chunks.len() == 0 {
        seq![]
    } else {
        let before = messages_in(chunks.drop_last());
        match message_in(chunks.last()) {
            Some(m) => before.push(m),
            None => before,
        }
    }
}

/// The messages in a reply.
pub open spec fn updates_in(body: Seq<char>) -> Seq<MessageModel> {
    messages_in(chars::split(body, "\"update_id\":"@).skip(1))
}

fn parse_i64_prefix(s: &str) -> (r: Option<i64>)
    ensures
        match r {
            Some(n) => leading_number(s@) == Some(n as int),
            None => leading_number(s@) is None,
        },
{
    let v = text::chars_of(s);
    let from: usize = if v.len() > 0 && v[0] == '-' {
        1
    } else {
        0
    };
    let n: usize = text::until(&v, from, CharSet::NotDigit);
    proof {
        assert(s@.skip(0) =~= s@);
        chars::lemma_until(s@.skip(from as int), CharSet::NotDigit);
    }
    let digits = s.substring_char(0, n);
    assert(digits@ =~= s@.take(number_len(s@) as int));
    numbers::parse_i64(digits)
}

fn code_unit_at(v: &Vec<char>, from: usize) -> (r: (Option<u32>, usize))
    requires
        from <= v.len(),
    ensures
        r.1 == four(v@.skip(from as int)).len(),
        from + r.1 <= v.len(),
        match r.0 {
            Some(n) => code_unit(four(v@.skip(from as int))) == Some(n as nat) && n <= 0xffff,
            None => code_unit(four(v@.skip(from as int))) is None,
        },
{
    let ghost rest = v@.skip(from as int);
    let left: usize = v.len() - from;
    if left < 4 {
        return (None, left);
    }
    let mut hex = String::new();
    let mut i: usize = 0;
    while i < 4
        invariant
            i <= 4,
            from + 4 <= v.len(),
            rest == v@.skip(from as int),
            hex@ == rest.take(i as int),
        decreases 4 - i,
    {
        hex.push(v[from + i]);
        assert(hex@ =~= rest.take(i + 1));
        i += 1;
    }
    match numbers::parse_unsigned(hex.as_str(), 16, 65535) {
        Ok(n) => (Some(n as u32), 4),
        Err(_) => (None, 4),
    }
}

fn push_char(out: &mut String, n: u32)
    ensures
        final(out)@ == old(out)@ + char_at(n as nat),
{
    let ghost before = out@;
    match foreign::char_of(n) {
        Some(c) => {
            out.push(c);
            assert(out@ =~= before + seq![c]);
        },
        None => {
            assert(out@ =~= before + Seq::<char>::empty());
        },
    }
}

/// Reads what stands behind `\u` and returns how many characters it takes.
fn read_unicode_escape(v: &Vec<char>, from: usize, out: &mut String) -> (r: usize)
    requires
        from <= v.len(),
    ensures
        from + r <= v.len(),
        final(out)@ == old(out)@ + unicode_escape(v@.skip(from as int)).0,
        r == unicode_escape(v@.skip(from as int)).1,
{
    let ghost rest = v@.skip(from as int);
    let ghost before = out@;
    assert(before + Seq::<char>::empty() =~= before);
    let (unit, n) = code_unit_at(v, from);
    let code: u32 = match unit {
        Some(code) => code,
        None => {
            return n;
        },
    };
    if !(0xd800 <= code && code < 0xdc00) {
        push_char(out, code);
        return n;
    }
    let ghost after = rest.skip(n as int);
    let at: usize = from + n;
    assert(after =~= v@.skip(at as int));
    if at >= v.len() {
        return n;
    }
    assert(after[0] == v@[at as int]);
    if v[at] != '\\' {
        return n + 1;
    }
    if at + 1 >= v.len() {
        return n + 1;
    }
    assert(after[1] == v@[at + 1]);
    if v[at + 1] != 'u' {
        return n + 2;
    }
    assert(after.skip(2) =~= v@.skip(at + 2));
    let (second, m) = code_unit_at(v, at + 2);
    match second {
        Some(low) => {
            if low >= 0xdc00 {
                let point: u32 = 0x10000 + (code - 0xd800) * 0x400 + (low - 0xdc00);
                push_char(out, point);
            }
        },
        None => {},
    }
    n + 2 + m
}

fn parse_json_string_tail(s: &str) -> (r: Option<String>)
    ensures
        chars::opt_text(r) == quoted_text(s@),
{
    let v = text::chars_of(s);
    let mut out = String::new();
    let mut i: usize = 0;
    assert(s@.skip(0) =~= s@);
    assert(json::prepended(out@, quoted_text(s@)) == quoted_text(s@)) by {
        match quoted_text(s@) {
            Some(r) => {
                assert(out@ + r =~= r);
            },
            None => {},
        }
    }
    while i < v.len()
        invariant
            i <= v.len(),
            v@ == s@,
            quoted_text(s@) == json::prepended(out@, quoted_text(s@.skip(i as int))),
        decreases v.len() - i,
    {
        let ghost rest = s@.skip(i as int);
        let ghost before = out@;
        let c = v[i];
        assert(rest[0] == c);
        if c == '"' {
            assert(out@ + Seq::<char>::empty() =~= out@);
            return Some(out);
        }
        if c == '\\' {
            if i + 1 >= v.len() {
                return None;
            }
            let d = v[i + 1];
            assert(rest[1] == d);
            assert(rest.skip(2) =~= s@.skip(i + 2));
            if d == 'u' {
                let n: usize = read_unicode_escape(&v, i + 2, &mut out);
                let ghost u = unicode_escape(rest.skip(2)).0;
                assert(rest.skip(2 + n) =~= s@.skip(i + 2 + n));
                proof {
                    json::lemma_prepended(before, u, quoted_text(s@.skip(i + 2 + n)));
                }
                i = i + 2 + n;
            } else {
                let u = if d == 'n' {
                    '\n'
                } else if d == 'r' {
                    '\r'
                } else if d == 't' {
                    '\t'
                } else {
                    d
                };
                out.push(u);
                assert(out@ =~= before + seq![u]);
                proof {
                    json::lemma_prepended(before, seq![u], quoted_text(s@.skip(i + 2)));
                }
                i += 2;
            }
        } else {
            out.push(c);
            assert(out@ =~= before + seq![c]);
            assert(rest.skip(1) =~= s@.skip(i + 1));
            proof {
                json::lemma_prepended(before, seq![c], quoted_text(s@.skip(i + 1)));
            }
            i += 1;
        }
    }
    None
}

/// The contents of an optional message.
pub open spec fn opt_message(m: Option<TelegramMessage>) -> Option<MessageModel> {
    match m {
        Some(x) => Some(x@),
        None => None,
    }
}

fn parse_message(chunk: &str) -> (r: Option<TelegramMessage>)
    ensures
        opt_message(r) == message_in(chunk@),
{
    match (
        parse_i64_prefix(chunk),
        text::around(chunk, "\"chat\":{\"id\":"),
        text::around(chunk, "\"text\":\""),
    ) {
        (Some(update_id), Some((_, chat)), Some((_, tail))) => match (
            parse_i64_prefix(chat),
            parse_json_string_tail(tail),
        ) {
            (Some(chat_id), Some(body)) => Some(
                TelegramMessage { update_id, chat_id, text: body },
            ),
            _ => None,
        },
        _ => None,
    }
}

/// The contents of a list of messages.
pub open spec fn message_models(v: Seq<TelegramMessage>) -> Seq<MessageModel> {
    v.map_values(|m: TelegramMessage| m@)
}

/// The messages in a reply.
pub fn parse_updates(body: &str) -> (r: Vec<TelegramMessage>)
    ensures
        message_models(r@) == updates_in(body@),
{
    proof {
        reveal_strlit("\"update_id\":");
        chars::lemma_split_not_empty(body@, "\"update_id\":"@);
    }
    let chunks = text::split(body, "\"update_id\":");
    let ghost all = chars::texts(chunks@);
    assert(all.len() == chunks@.len());
    let mut out: Vec<TelegramMessage> = Vec::new();
    let mut i: usize = 1;
    assert(all.subrange(1, 1) =~= Seq::empty());
    assert(message_models(out@) =~= Seq::empty());
    while i < chunks.len()
        invariant
            1 <= i <= chunks.len(),
            all == chars::texts(chunks@),
            message_models(out@) == messages_in(all.subrange(1, i as int)),
        decreases chunks.len() - i,
    {
        assert(all.subrange(1, i + 1).drop_last() =~= all.subrange(1, i as int));
        match parse_message(chunks[i]) {
            Some(m) => {
                let ghost before = message_models(out@);
                let ghost x = m@;
                out.push(m);
                assert(message_models(out@) =~= before.push(x));
            },
            None => {},
        }
        i += 1;
    }
    assert(all.subrange(1, i as int) =~= all.skip(1));
    out
}

// ---------------------------------------------------------------------------
// Requests
// ---------------------------------------------------------------------------

/// How a request by `curl` came out.
#[derive(Debug)]
pub enum CurlReply {
    Failed(String),
    Exited { success: bool, stdout: Vec<u8>, stderr: Vec<u8> },
}

/// The arguments of the request for updates.
pub open spec fn updates_request(
    token: Seq<char>,
    offset: Option<i64>,
    timeout_secs: nat,
) -> Seq<Seq<char>> {
    let url = "https://api.telegram.org/bot"@ + token + "/getUpdates?timeout="@ + numbers::decimal(
        timeout_secs,
    );
    seq![
        "--fail"@,
        "--silent"@,
        "--show-error"@,
        "--max-time"@,
        numbers::decimal(timeout_secs + 5),
        match offset {
            Some(n) => url + "&offset="@ + numbers::signed(n as int),
            None => url,
        },
    ]
}

/// The arguments of the request to send a message.
pub open spec fn send_request(token: Seq<char>, chat_id: int, body: Seq<char>) -> Seq<Seq<char>> {
    seq![
        "--fail"@,
        "--silent"@,
        "--show-error"@,
        "--max-time"@,
        "20"@,
        "--data-urlencode"@,
        "chat_id="@ + numbers::signed(chat_id),
        "--data-urlencode"@,
        "text="@ + body,
        "https://api.telegram.org/bot"@ + token + "/sendMessage"@,
    ]
}

/// The arguments with which `curl` asks for updates: it may take five seconds
/// longer than the server is asked to wait.
pub fn get_updates_args(token: &str, offset: Option<i64>, timeout_secs: u64) -> (r: Vec<String>)
    requires
        timeout_secs <= u64::MAX - 5,
    ensures
        chars::owned_texts(r@) == updates_request(token@, offset, timeout_secs as nat),
{
    let mut url = "https://api.telegram.org/bot".to_owned();
    url.append(token);
    url.append("/getUpdates?timeout=");
    url.append(numbers::decimal_of(timeout_secs).as_str());
    match offset {
        Some(n) => {
            url.append("&offset=");
            url.append(numbers::signed_of(n).as_str());
        },
        None => {},
    }
    let mut args: Vec<String> = Vec::new();
    args.push("--fail".to_owned());
    args.push("--silent".to_owned());
    args.push("--show-error".to_owned());
    args.push("--max-time".to_owned());
    args.push(numbers::decimal_of(timeout_secs + 5));
    args.push(url);
    assert(chars::owned_texts(args@) =~= updates_request(token@, offset, timeout_secs as nat));
    args
}

/// The messages that a request for updates gave.
pub fn get_updates(reply: &CurlReply) -> (r: Result<Vec<TelegramMessage>, String>)
    ensures
        match *reply {
            CurlReply::Failed(e) => r matches Err(m) && m@ == "curl getUpdates failed: "@ + e@,
            CurlReply::Exited { success, stdout, stderr } => if success {
                r matches Ok(v) && message_models(v@) == updates_in(lossy(stdout@))
            } else {
                r matches Err(m) && m@ == lossy(stderr@)
            },
        },
{
    match reply {
        CurlReply::Failed(e) => Err("curl getUpdates failed: ".to_owned().concat(e.as_str())),
        CurlReply::Exited { success, stdout, stderr } => if *success {
            Ok(parse_updates(foreign::lossy_text(stdout.as_slice()).as_str()))
        } else {
            Err(foreign::lossy_text(stderr.as_slice()))
        },
    }
}

/// The arguments with which `curl` sends a message.
pub fn send_message_args(token: &str, chat_id: i64, body: &str) -> (r: Vec<String>)
    ensures
        chars::owned_texts(r@) == send_request(token@, chat_id as int, body@),
{
    let mut url = "https://api.telegram.org/bot".to_owned();
    url.append(token);
    url.append("/sendMessage");
    let mut args: Vec<String> = Vec::new();
    args.push("--fail".to_owned());
    args.push("--silent".to_owned());
    args.push("--show-error".to_owned());
    args.push("--max-time".to_owned());
    args.push("20".to_owned());
    args.push("--data-urlencode".to_owned());
    args.push("chat_id=".to_owned().concat(numbers::signed_of(chat_id).as_str()));
    args.push("--data-urlencode".to_owned());
    args.push("text=".to_owned().concat(body));
    args.push(url);
    assert(chars::owned_texts(args@) =~= send_request(token@, chat_id as int, body@));
    args
}

/// Whether a message was sent.
pub fn send_message(reply: &CurlReply) -> (r: Result<(), String>)
    ensures
        match *reply {
            CurlReply::Failed(e) => r matches Err(m) && m@ == "curl sendMessage failed: "@ + e@,
            CurlReply::Exited { success, stdout, stderr } => if success {
                r is Ok
            } else {
                r matches Err(m) && m@ == lossy(stderr@)
            },
        },
{
    match reply {
        CurlReply::Failed(e) => Err("curl sendMessage failed: ".to_owned().concat(e.as_str())),
        CurlReply::Exited { success, stdout: _, stderr } => if *success {
            Ok(())
        } else {
            Err(foreign::lossy_text(stderr.as_slice()))
        },
    }
}

}
