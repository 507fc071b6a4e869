//! The command line: what each command prints, writes and returns, as functions
//! of its arguments and of what was read for it.
use std::collections::BTreeSet;

use vstd::prelude::*;

use crate::adjustments::{ProposalEntry, ProposalModel};
use crate::chars;
use crate::chars::CharSet;
use crate::config::number_texts;
use crate::minicore::SessionReport;
use crate::numbers;
use crate::order;
use crate::text;
use crate::types::{MessageClass, TaskId};

pub mod commands;
pub mod gateway;
pub mod loops;
pub mod settings;
pub mod setup;
pub mod uninstall;

verus! {

/// A line that a command prints, on its output or among its errors.
#[derive(Debug, PartialEq, Eq)]
pub enum Line {
    Printed(String),
    Complaint(String),
}

/// A printed line by its text.
pub ghost enum LineModel {
    Printed(Seq<char>),
    Complaint(Seq<char>),
}

impl View for Line {
    type V = LineModel;

    open spec fn view(&self) -> LineModel {
        match self {
            Line::Printed(t) => LineModel::Printed(t@),
            Line::Complaint(t) => LineModel::Complaint(t@),
        }
    }
}

/// The contents of a list of lines.
pub open spec fn line_models(v: Seq<Line>) -> Seq<LineModel> {
    v.map_values(|l: Line| l@)
}

/// What a command does: the new text of the configuration file, where it writes
/// one, the lines that it prints once that is written, and its exit code. Where
/// writing fails, `write_failure` is printed before the reason.
#[derive(Debug)]
pub struct CommandReply {
    pub code: i32,
    pub lines: Vec<Line>,
    pub file: Option<String>,
    pub write_failure: Option<String>,
}

/// The contents of a reply.
pub ghost struct ReplyModel {
    pub code: int,
    pub lines: Seq<LineModel>,
    pub file: Option<Seq<char>>,
    pub write_failure: Option<Seq<char>>,
}

impl View for CommandReply {
    type V = ReplyModel;

    open spec fn view(&self) -> ReplyModel {
        ReplyModel {
            code: self.code as int,
            lines: line_models(self.lines@),
            file: chars::opt_text(self.file),
            write_failure: chars::opt_text(self.write_failure),
        }
    }
}

impl ReplyModel {
    /// A reply that only prints.
    pub open spec fn says(code: int, lines: Seq<LineModel>) -> ReplyModel {
        ReplyModel { code, lines, file: None, write_failure: None }
    }

    /// A reply that fails with one line.
    pub open spec fn fails(line: Seq<char>) -> ReplyModel {
        ReplyModel::says(2, seq![LineModel::Complaint(line)])
    }
}

/// Adds a line of output.
pub fn say(lines: &mut Vec<Line>, t: String)
    ensures
        line_models(final(lines)@) == line_models(old(lines)@).push(LineModel::Printed(t@)),
{
    let ghost before = line_models(lines@);
    let ghost x = t@;
    lines.push(Line::Printed(t));
    assert(line_models(lines@) =~= before.push(LineModel::Printed(x)));
}

/// Adds a line among the errors.
pub fn complain(lines: &mut Vec<Line>, t: String)
    ensures
        line_models(final(lines)@) == line_models(old(lines)@).push(LineModel::Complaint(t@)),
{
    let ghost before = line_models(lines@);
    let ghost x = t@;
    lines.push(Line::Complaint(t));
    assert(line_models(lines@) =~= before.push(LineModel::Complaint(x)));
}

/// No lines yet.
pub fn no_lines() -> (r: Vec<Line>)
    ensures
        line_models(r@) == Seq::<LineModel>::empty(),
{
    let r: Vec<Line> = Vec::new();
    assert(line_models(r@) =~= Seq::<LineModel>::empty());
    r
}

impl CommandReply {
    /// A reply that only prints.
    pub fn says(code: i32, lines: Vec<Line>) -> (r: CommandReply)
        ensures
            r@ == ReplyModel::says(code as int, line_models(lines@)),
    {
        CommandReply { code, lines, file: None, write_failure: None }
    }

    /// A reply that fails with one line.
    pub fn fails(line: String) -> (r: CommandReply)
        ensures
            r@ == ReplyModel::fails(line@),
    {
        let mut lines = no_lines();
        let ghost x = line@;
        complain(&mut lines, line);
        assert(line_models(lines@) =~= seq![LineModel::Complaint(x)]);
        CommandReply::says(2, lines)
    }
}

/// Two texts one after the other.
pub fn pair(a: &str, b: &str) -> (r: String)
    ensures
        r@ == a@ + b@,
{
    a.to_owned().concat(b)
}

// ---------------------------------------------------------------------------
// Texts
// ---------------------------------------------------------------------------

/// The last `n` characters of a text.
pub open spec fn ending(s: Seq<char>, n: nat) -> Seq<char> {
    if s.len() <= n {
        s
    } else {
        s.skip(s.len() - n)
    }
}

/// A token of which only the part before its colon and the last four characters
/// show.
pub open spec fn masked(token: Seq<char>) -> Seq<char> {
    match chars::around(token, ":"@) {
        Some((head, secret)) => head + ":***"@ + ending(secret, 4),
        None => "***"@,
    }
}

/// The part of a token that is shown.
pub fn mask_token(token: &str) -> (r: String)
    ensures
        r@ == masked(token@),
{
    match text::around(token, ":") {
        Some((head, secret)) => {
            let n: usize = secret.unicode_len();
            let from: usize = if n > 4 {
                n - 4
            } else {
                0
            };
            let tail = secret.substring_char(from, n);
            assert(tail@ =~= ending(secret@, 4));
            let mut out = head.to_owned();
            out.append(":***");
            out.append(tail);
            out
        },
        None => "***".to_owned(),
    }
}

/// Chat numbers in ascending order with commas between them.
pub open spec fn chats_text(chats: Set<i64>) -> Seq<char> {
    chars::join(number_texts(order::listed(chats)), ","@)
}

pub fn join_chat_ids(chats: &BTreeSet<i64>) -> (r: String)
    ensures
        r@ == chats_text(chats@),
{
    let list = order::list_ascending(chats);
    text::join_owned(&crate::config::decimal_texts(&list), ",")
}

/// A text cut to a number of bytes, with a note where something was cut.
pub fn cap_gateway_text(s: &str, max_bytes: usize) -> (r: String)
    ensures
        r@ == chars::capped(s@, max_bytes as nat, " [truncated]"@),
{
    text::capped(s, max_bytes, " [truncated]")
}

/// One character of a text in quotes on one line.
pub open spec fn compact_char(c: char) -> Seq<char> {
    if c == '"' {
        seq!['\\', '"']
    } else if c == '\\' {
        seq!['\\', '\\']
    } else if chars::is_control(c) {
        seq![' ']
    } else {
        seq![c]
    }
}

/// The characters of a text for a quoted form on one line.
pub open spec fn compact_chars(s: Seq<char>) -> Seq<char>
    decreases s.len(),
{
    if s.len() == 0 {
        seq![]
    } else {
        compact_chars(s.drop_last()) + compact_char(s.last())
    }
}

/// A text in quotes on one line.
pub open spec fn compact(s: Seq<char>) -> Seq<char> {
    "\""@ + compact_chars(s) + "\""@
}

pub fn quote_compact(s: &str) -> (r: String)
    ensures
        r@ == compact(s@),
{
    let v = text::chars_of(s);
    let mut out = "\"".to_owned();
    let ghost head = out@;
    let mut i: usize = 0;
    assert(s@.take(0) =~= Seq::empty());
    assert(head + compact_chars(s@.take(0)) =~= head);
    while i < v.len()
        invariant
            i <= v.len(),
            v@ == s@,
            out@ == head + compact_chars(s@.take(i as int)),
        decreases v.len() - i,
    {
        let ghost before = out@;
        let c = v[i];
        assert(s@.take(i + 1).drop_last() =~= s@.take(i as int));
        if c == '"' {
            out.push('\\');
            out.push('"');
        } else if c == '\\' {
            out.push('\\');
            out.push('\\');
        } else if text::is_control(c) {
            out.push(' ');
        } else {
            out.push(c);
        }
        assert(out@ =~= before + compact_char(c));
        assert(out@ =~= head + compact_chars(s@.take(i + 1)));
        i += 1;
    }
    assert(s@.take(i as int) =~= s@);
    out.append("\"");
    out
}

/// The task that an argument names, with or without its letter.
pub fn parse_task_id(value: &str) -> (r: Option<TaskId>)
    ensures
        r == crate::adjustments::task_in(value@),
{
    let digits = match text::after_prefix(value, "t") {
        Some(rest) => rest,
        None => value,
    };
    match numbers::parse_u64(digits) {
        Some(n) => Some(TaskId(n)),
        None => None,
    }
}

/// The first line of a text, empty where there is none.
pub open spec fn first_line(s: Seq<char>) -> Seq<char> {
    let lines = chars::lines(s);
    if lines.len() > 0 {
        lines[0]
    } else {
        ""@
    }
}

/// A proposal in one line: its class and the start of its body.
pub open spec fn proposal_line(p: ProposalModel) -> Seq<char> {
    (match p.class {
        Some(class) => "["@ + class.name() + "] "@,
        None => ""@,
    }) + chars::capped(chars::trim(first_line(chars::trim(p.body))), 100, "…"@)
}

pub fn proposal_summary(p: &ProposalEntry) -> (r: String)
    ensures
        r@ == proposal_line(p@),
{
    let lines = text::lines(text::trim(p.body.as_str()));
    assert(chars::texts(lines@).len() == lines@.len());
    let first = if lines.len() > 0 {
        assert(chars::texts(lines@)[0] == lines@[0]@);
        lines[0]
    } else {
        ""
    };
    let mut head = "".to_owned();
    match p.class {
        Some(class) => {
            head = "[".to_owned();
            head.append(class.label());
            head.append("] ");
        },
        None => {},
    }
    head.append(text::capped(text::trim(first), 100, "…").as_str());
    head
}

/// What a reply to a chat is headed with.
pub open spec fn report_label(class: MessageClass, output: Seq<char>) -> Seq<char> {
    match class {
        MessageClass::MiniHow => if chars::starts_with(output, "error:"@) {
            "Failed"@
        } else {
            "Done"@
        },
        MessageClass::MiniWhy => "Analysis"@,
        MessageClass::MiniWhat => "Answer"@,
    }
}

/// The reply to a chat: a heading and the output, cut to what a message may hold.
pub open spec fn chat_reply(class: MessageClass, output: Seq<char>) -> Seq<char> {
    let body = chars::trim(output);
    chars::capped(
        if body.len() == 0 {
            report_label(class, output) + ": (no output)"@
        } else {
            report_label(class, output) + ":\n"@ + body
        },
        3500,
        "\n[truncated]"@,
    )
}

/// The reply to a chat for a session.
pub fn format_session_report(report: &SessionReport) -> (r: String)
    ensures
        r@ == chat_reply(report.class, report.output@),
{
    let mut out = match report.class {
        MessageClass::MiniHow => if text::starts_with(report.output.as_str(), "error:") {
            "Failed".to_owned()
        } else {
            "Done".to_owned()
        },
        MessageClass::MiniWhy => "Analysis".to_owned(),
        MessageClass::MiniWhat => "Answer".to_owned(),
    };
    let body = text::trim(report.output.as_str());
    if body.unicode_len() == 0 {
        out.append(": (no output)");
    } else {
        out.append(":\n");
        out.append(body);
    }
    text::capped(out.as_str(), 3500, "\n[truncated]")
}

/// The number behind `chat_id=` on the first line that starts with it.
pub open spec fn chat_in(lines: Seq<Seq<char>>) -> Option<int>
    decreases lines.len(),
{
    if lines.len() == 0 {
        None
    } else {
        match chars::after_prefix(lines[0], "chat_id="@) {
            Some(raw) => numbers::signed_value(raw),
            None => chat_in(lines.skip(1)),
        }
    }
}

/// The chat that pairing instructions are for.
pub fn pairing_chat_id(s: &str) -> (r: Option<i64>)
    ensures
        match r {
            Some(n) => chat_in(chars::lines(s@)) == Some(n as int),
            None => chat_in(chars::lines(s@)) is None,
        },
{
    let lines = text::lines(s);
    let ghost all = chars::texts(lines@);
    let mut i: usize = 0;
    assert(all.skip(0) =~= all);
    while i < lines.len()
        invariant
            i <= lines.len(),
            all == chars::texts(lines@),
            all == chars::lines(s@),
            chat_in(all) == chat_in(all.skip(i as int)),
        decreases lines.len() - i,
    {
        assert(all.skip(i as int).skip(1) =~= all.skip(i + 1));
        assert(all.skip(i as int)[0] == lines@[i as int]@);
        match text::after_prefix(lines[i], "chat_id=") {
            Some(raw) => {
                return numbers::parse_i64(raw);
            },
            None => {},
        }
        i += 1;
    }
    None
}

/// What is wrong with a bot token, if anything: it is a number, a colon and a
/// secret of at least twenty letters, digits, underscores and hyphens.
pub open spec fn token_fault(token: Seq<char>) -> Option<Seq<char>> {
    match chars::around(token, ":"@) {
        None => Some("expected <numeric-bot-id>:<token-secret>"@),
        Some((id, secret)) => if id.len() == 0 || !chars::all_in(id, CharSet::Digit) {
            Some("bot id before ':' must be numeric"@)
        } else if chars::byte_len(secret) < 20 {
            Some("token secret is too short"@)
        } else if !chars::all_in(secret, CharSet::NameChar) {
            Some("token secret contains invalid characters"@)
        } else {
            None
        },
    }
}

/// Checks the shape of a bot token.
pub fn validate_telegram_token(token: &str) -> (r: Result<(), &'static str>)
    ensures
        match r {
            Ok(_) => token_fault(token@) is None,
            Err(e) => token_fault(token@) == Some(e@),
        },
{
    match text::around(token, ":") {
        None => Err("expected <numeric-bot-id>:<token-secret>"),
        Some((id, secret)) => {
            if id.unicode_len() == 0 || !text::all_in(id, CharSet::Digit) {
                return Err("bot id before ':' must be numeric");
            }
            if text::byte_len(secret) < 20 {
                return Err("token secret is too short");
            }
            if !text::all_in(secret, CharSet::NameChar) {
                return Err("token secret contains invalid characters");
            }
            Ok(())
        },
    }
}

/// An error that says that the token is not known.
pub open spec fn is_not_found(e: Seq<char>) -> bool {
    ||| chars::contains(e, " 404"@)
    ||| chars::contains(e, "error: 404"@)
    ||| chars::contains(e, "returned error: 404"@)
    ||| chars::contains(e, "\"error_code\":404"@)
}

pub fn is_telegram_not_found_error(e: &str) -> (r: bool)
    ensures
        r == is_not_found(e@),
{
    text::contains(e, " 404") || text::contains(e, "error: 404") || text::contains(
        e,
        "returned error: 404",
    ) || text::contains(e, "\"error_code\":404")
}

/// A session's report on the terminal.
pub open spec fn report_text(
    id: TaskId,
    class: MessageClass,
    steps: nat,
    output: Seq<char>,
) -> Seq<char> {
    id.name() + " ["@ + class.name() + "] steps="@ + numbers::decimal(steps) + "\n"@ + output
}

pub fn render_report(report: &SessionReport) -> (r: String)
    ensures
        r@ == report_text(
            report.task_id,
            report.class,
            report.steps as nat,
            report.output@,
        ),
{
    let mut out = report.task_id.label();
    out.append(" [");
    out.append(report.class.label());
    out.append("] steps=");
    out.append(numbers::usize_text(report.steps).as_str());
    out.append("\n");
    out.append(report.output.as_str());
    out
}

/// A secret never shows more than its last four characters.
pub proof fn law_mask_hides_secret(token: Seq<char>)
    ensures
        match chars::around(token, ":"@) {
            Some((head, secret)) => exists|tail: Seq<char>|
                tail.len() <= 4 && #[trigger] (head + ":***"@ + tail) == masked(token),
            None => masked(token) == "***"@,
        },
{
    match chars::around(token, ":"@) {
        Some((head, secret)) => {
            assert(ending(secret, 4).len() <= 4);
            assert(head + ":***"@ + ending(secret, 4) == masked(token));
        },
        None => {},
    }
}

}
