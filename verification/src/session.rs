//! What a model's replies mean in a session: the commands that it issues, the
//! feedback that it gets, and when the session ends.
use vstd::prelude::*;

use crate::chars;
use crate::llm::Turn;
use crate::memory::{MemoryOp, ProgressiveModel};
use crate::numbers;
use crate::text;
use crate::types::TaskId;

verus! {

/// A command that was issued in a session, and its result.
#[derive(Debug)]
pub struct ExecRecord {
    pub cmd: String,
    pub ok: bool,
    pub result: String,
}

/// The contents of an issued command.
pub ghost struct ExecModel {
    pub cmd: Seq<char>,
    pub ok: bool,
    pub result: Seq<char>,
}

impl View for ExecRecord {
    type V = ExecModel;

    open spec fn view(&self) -> ExecModel {
        ExecModel { cmd: self.cmd@, ok: self.ok, result: self.result@ }
    }
}

impl Clone for ExecRecord {
    fn clone(&self) -> (r: Self)
        ensures
            r == *self,
    {
        ExecRecord { cmd: self.cmd.clone(), ok: self.ok, result: self.result.clone() }
    }
}

/// The contents of a list of issued commands.
pub open spec fn exec_models(v: Seq<ExecRecord>) -> Seq<ExecModel> {
    v.map_values(|e: ExecRecord| e@)
}

/// A task that was run to its end: the final answer, the number of replies, and
/// every command in order.
#[derive(Debug)]
pub struct SessionTrace {
    pub output: String,
    pub steps: usize,
    pub execs: Vec<ExecRecord>,
}

/// The contents of a trace.
pub ghost struct TraceModel {
    pub output: Seq<char>,
    pub steps: nat,
    pub execs: Seq<ExecModel>,
}

impl View for SessionTrace {
    type V = TraceModel;

    open spec fn view(&self) -> TraceModel {
        TraceModel {
            output: self.output@,
            steps: self.steps as nat,
            execs: exec_models(self.execs@),
        }
    }
}

impl SessionTrace {
    pub fn empty(output: String, steps: usize) -> (r: Self)
        ensures
            r@ == (TraceModel { output: output@, steps: steps as nat, execs: seq![] }),
    {
        let r = SessionTrace { output, steps, execs: Vec::new() };
        assert(r@.execs =~= seq![]);
        r
    }
}

// ---------------------------------------------------------------------------
// Directives
// ---------------------------------------------------------------------------

/// 1 for an open quote, else 0.
pub open spec fn one_if(b: bool) -> nat {
    if b {
        1
    } else {
        0
    }
}

/// How many kinds of quotes are open at the end of a text that was entered with
/// the given ones open. A backslash escapes the character behind it, except
/// inside single quotes.
pub open spec fn open_quotes(s: Seq<char>, single: bool, double: bool) -> nat
    decreases s.len(),
{
    if s.len() == 0 {
        one_if(single) + one_if(double)
    } else if s[0] == '\\' && !single && s.len() > 1 {
        open_quotes(s.skip(2), single, double)
    } else if s[0] == '\'' && !double {
        open_quotes(s.skip(1), !single, double)
    } else if s[0] == '"' && !single {
        open_quotes(s.skip(1), single, !double)
    } else {
        open_quotes(s.skip(1), single, double)
    }
}

/// A line that starts a directive.
pub open spec fn is_directive(line: Seq<char>) -> bool {
    chars::starts_with(line, "EXEC:"@) || chars::starts_with(line, "DONE:"@)
}

/// A command and the lines that it goes on over while a quote in it is open, up
/// to the next directive; with how many lines that are.
pub open spec fn whole_command(lines: Seq<Seq<char>>, start: Seq<char>) -> (Seq<char>, nat)
    decreases lines.len(),
{
    if lines.len() == 0 || open_quotes(start.skip(5), false, false) == 0 || is_directive(
        chars::trim_start(lines[0]),
    ) {
        (start, 0)
    } else {
        let (body, n) = whole_command(lines.skip(1), start + "\n"@ + lines[0]);
        (body, n + 1)
    }
}

/// The list without its first `n`.
pub open spec fn behind<T>(list: Seq<T>, n: nat) -> Seq<T> {
    if n <= list.len() {
        list.skip(n as int)
    } else {
        seq![]
    }
}

/// The directives among the lines, in order.
pub open spec fn directives_in(lines: Seq<Seq<char>>) -> Seq<Seq<char>>
    decreases lines.len(),
{
    if lines.len() == 0 {
        seq![]
    } else {
        let t = chars::trim_start(lines[0]);
        let rest = lines.skip(1);
        if chars::starts_with(t, "DONE:"@) {
            seq![chars::trim_end(t)] + directives_in(rest)
        } else if chars::starts_with(t, "EXEC:"@) {
            let (body, n) = whole_command(rest, t);
            seq![body] + directives_in(behind(rest, n))
        } else {
            directives_in(rest)
        }
    }
}

/// The directives of a reply.
pub open spec fn directives(reply: Seq<char>) -> Seq<Seq<char>> {
    directives_in(chars::lines(reply))
}

/// How many kinds of quotes are open at the end of a text: 0 when balanced.
pub fn quote_balance(s: &str) -> (r: u32)
    ensures
        r == open_quotes(s@, false, false),
{
    let v = text::chars_of(s);
    let mut single = false;
    let mut double = false;
    let mut i: usize = 0;
    assert(s@.skip(0) =~= s@);
    while i < v.len()
        invariant
            i <= v.len(),
            v@ == s@,
            open_quotes(s@, false, false) == open_quotes(s@.skip(i as int), single, double),
        decreases v.len() - i,
    {
        let ghost rest = s@.skip(i as int);
        let c = v[i];
        assert(rest[0] == c);
        assert(rest.skip(1) =~= s@.skip(i + 1));
        if c == '\\' && !single && i + 1 < v.len() {
            assert(rest.skip(2) =~= s@.skip(i + 2));
            i += 1;
        } else if c == '\'' && !double {
            single = !single;
        } else if c == '"' && !single {
            double = !double;
        }
        i += 1;
    }
    assert(s@.skip(i as int).len() == 0);
    (if single {
        1u32
    } else {
        0u32
    }) + (if double {
        1u32
    } else {
        0u32
    })
}

fn starts_directive(line: &str) -> (r: bool)
    ensures
        r == is_directive(line@),
{
    text::starts_with(line, "EXEC:") || text::starts_with(line, "DONE:")
}

/// The directives of a reply in order. A command whose quotes are open at the
/// end of its line goes on over the next lines.
pub fn collect_directives(reply: &str) -> (r: Vec<String>)
    ensures
        chars::owned_texts(r@) == directives(reply@),
{
    let lines = text::lines(reply);
    let ghost all = chars::texts(lines@);
    let mut out: Vec<String> = Vec::new();
    let mut i: usize = 0;
    assert(all.skip(0) =~= all);
    assert(chars::owned_texts(out@) + directives_in(all) =~= directives_in(all));
    proof {
        reveal_strlit("EXEC:");
    }
    while i < lines.len()
        invariant
            i <= lines.len(),
            all == chars::texts(lines@),
            "EXEC:"@.len() == 5,
            directives_in(all) == chars::owned_texts(out@) + directives_in(all.skip(i as int)),
        decreases lines.len() - i,
    {
        let ghost rest = all.skip(i as int);
        let ghost before = chars::owned_texts(out@);
        let ghost tail = rest.skip(1);
        assert(tail =~= all.skip(i + 1));
        assert(rest[0] == lines@[i as int]@);
        let t = text::trim_start(lines[i]);
        i += 1;
        if text::starts_with(t, "DONE:") {
            let d = text::trim_end(t).to_owned();
            let ghost x = d@;
            out.push(d);
            assert(chars::owned_texts(out@) =~= before.push(x));
            assert(before + (seq![x] + directives_in(tail)) =~= before.push(x) + directives_in(
                tail,
            ));
        } else if text::starts_with(t, "EXEC:") {
            let mut buf = t.to_owned();
            let ghost from = i as int;
            assert(tail.skip(0) =~= tail);
            while i < lines.len() && quote_balance(command_body(buf.as_str())) != 0
                && !starts_directive(text::trim_start(lines[i]))
                invariant
                    0 <= from <= i <= lines.len(),
                    all == chars::texts(lines@),
                    tail == all.skip(from),
                    buf@.len() >= 5,
                    whole_command(tail, t@) == ({
                        let (body, n) = whole_command(tail.skip(i - from), buf@);
                        (body, (n + (i - from)) as nat)
                    }),
                decreases lines.len() - i,
            {
                let ghost left = tail.skip(i - from);
                assert(left[0] == lines@[i as int]@);
                assert(left.skip(1) =~= tail.skip(i + 1 - from));
                buf.append("\n");
                buf.append(lines[i]);
                i += 1;
            }
            let ghost n = (i - from) as nat;
            let ghost x = buf@;
            assert(tail.skip(i - from).len() == lines.len() - i);
            assert(whole_command(tail, t@) == (x, n));
            assert(behind(tail, n) =~= all.skip(i as int));
            out.push(buf);
            assert(chars::owned_texts(out@) =~= before.push(x));
            assert(before + (seq![x] + directives_in(behind(tail, n))) =~= before.push(x)
                + directives_in(behind(tail, n)));
        }
    }
    assert(all.skip(i as int).len() == 0);
    assert(chars::owned_texts(out@) + Seq::<Seq<char>>::empty() =~= chars::owned_texts(out@));
    out
}

fn command_body<'a>(s: &'a str) -> (r: &'a str)
    requires
        s@.len() >= 5,
    ensures
        r@ == s@.skip(5),
{
    let n: usize = s.unicode_len();
    let r = s.substring_char(5, n);
    assert(r@ =~= s@.skip(5));
    r
}

// ---------------------------------------------------------------------------
// Execution sessions
// ---------------------------------------------------------------------------

/// How far the directives of one reply have been carried out: the commands of
/// the session so far, the last one with its result, the feedback of this turn,
/// the final answer if there is one, whether the model itself told it, and
/// whether the turn was cut short.
pub ghost struct TurnModel {
    pub execs: Seq<ExecModel>,
    pub last: Option<(Seq<char>, Seq<char>)>,
    pub combined: Seq<char>,
    pub done: Option<Seq<char>>,
    pub told: bool,
    pub stopped: bool,
}

/// What follows the first `DONE:` of a reply.
pub open spec fn done_text(reply: Seq<char>, directive: Seq<char>) -> Seq<char> {
    match chars::around(reply, "DONE:"@) {
        Some((_, rest)) => chars::trim(rest),
        None => chars::trim(directive.skip(5)),
    }
}

/// The feedback on a command.
pub open spec fn feedback(cmd: Seq<char>, result: Seq<char>) -> Seq<char> {
    "Result of `"@ + cmd + "`:\n"@ + result + "\n\n"@
}

/// The feedback on a command that repeats the one before it.
pub open spec fn repeat_feedback(cmd: Seq<char>, result: Seq<char>) -> Seq<char> {
    "Result of `"@ + cmd + "` (cached, loop suppressed):\n"@ + result + "\n\n"@
}

/// A command and its result. A result that starts with `error:` is a failure.
pub open spec fn issued(cmd: Seq<char>, result: Seq<char>) -> ExecModel {
    ExecModel { cmd, ok: !chars::starts_with(result, "error:"@), result }
}

/// The command is the one before it again.
pub open spec fn repeats(last: Option<(Seq<char>, Seq<char>)>, cmd: Seq<char>) -> bool {
    match last {
        Some((l, _)) => l == cmd,
        None => false,
    }
}

/// The turn after one more directive. `results` holds the result of every
/// command of the session in order. A command that repeats the one before it is
/// not run again: its result ends the session where the turn has run nothing
/// yet, else it ends the turn.
pub open spec fn after_directive(
    t: TurnModel,
    reply: Seq<char>,
    d: Seq<char>,
    results: Seq<Seq<char>>,
) -> TurnModel {
    if t.done is Some || t.stopped {
        t
    } else if chars::starts_with(d, "DONE:"@) {
        TurnModel { done: Some(done_text(reply, d)), told: true, ..t }
    } else {
        match chars::after_prefix(d, "EXEC:"@) {
            None => t,
            Some(c) => {
                let cmd = chars::trim(c);
                if repeats(t.last, cmd) {
                    let (_, cached) = t.last->0;
                    if t.combined.len() == 0 {
                        TurnModel { done: Some(chars::trim(cached)), ..t }
                    } else {
                        TurnModel {
                            combined: t.combined + repeat_feedback(cmd, cached),
                            stopped: true,
                            ..t
                        }
                    }
                } else {
                    let result = results[t.execs.len() as int];
                    TurnModel {
                        execs: t.execs.push(issued(cmd, result)),
                        last: Some((cmd, result)),
                        combined: t.combined + feedback(cmd, result),
                        ..t
                    }
                }
            },
        }
    }
}

/// The turn after the first `n` directives.
pub open spec fn after_directives(
    t: TurnModel,
    reply: Seq<char>,
    ds: Seq<Seq<char>>,
    results: Seq<Seq<char>>,
    n: nat,
) -> TurnModel
    decreases n,
{
    if n == 0 {
        t
    } else {
        after_directive(
            after_directives(t, reply, ds, results, (n - 1) as nat),
            reply,
            ds[n - 1],
            results,
        )
    }
}

/// An execution session: the conversation, the commands so far, the last one
/// with its result, and the final answer once there is one.
pub ghost struct HowModel {
    pub messages: Seq<Turn>,
    pub execs: Seq<ExecModel>,
    pub last: Option<(Seq<char>, Seq<char>)>,
    pub output: Option<Seq<char>>,
}

/// A turn before its first directive.
pub open spec fn turn_start(h: HowModel) -> TurnModel {
    TurnModel {
        execs: h.execs,
        last: h.last,
        combined: seq![],
        done: None,
        told: false,
        stopped: false,
    }
}

/// The session after one more reply. A reply without directives is the final
/// answer, and so is one none of whose directives gives feedback; feedback goes
/// back to the model.
pub open spec fn after_reply(h: HowModel, reply: Seq<char>, results: Seq<Seq<char>>) -> HowModel {
    let ds = directives(reply);
    let t = after_directives(turn_start(h), reply, ds, results, ds.len());
    if ds.len() == 0 {
        HowModel { output: Some(chars::trim(reply)), ..h }
    } else if t.done is Some {
        HowModel { execs: t.execs, last: t.last, output: t.done, ..h }
    } else if t.combined.len() == 0 {
        HowModel { execs: t.execs, last: t.last, output: Some(chars::trim(reply)), ..h }
    } else {
        HowModel {
            messages: h.messages.push(Turn::assistant(reply)).push(
                Turn::user(chars::trim_end(t.combined)),
            ),
            execs: t.execs,
            last: t.last,
            output: None,
        }
    }
}

/// A session before its first reply.
pub open spec fn how_start(first: Seq<char>) -> HowModel {
    HowModel { messages: seq![Turn::user(first)], execs: seq![], last: None, output: None }
}

/// The session after the first `n` replies.
pub open spec fn how_after(
    first: Seq<char>,
    replies: Seq<Seq<char>>,
    results: Seq<Seq<char>>,
    n: nat,
) -> HowModel
    decreases n,
{
    if n == 0 {
        how_start(first)
    } else {
        after_reply(
            how_after(first, replies, results, (n - 1) as nat),
            replies[n - 1],
            results,
        )
    }
}

/// The memory entry of a command.
pub open spec fn exec_note(e: ExecModel) -> Seq<char> {
    "EXEC: "@ + e.cmd + "\nResult: "@ + e.result
}

/// The memory operations for commands.
pub open spec fn exec_ops(id: TaskId, execs: Seq<ExecModel>) -> Seq<MemoryOp> {
    execs.map_values(
        |e: ExecModel| MemoryOp::Message { task_id: id, role: "exec"@, body: exec_note(e) },
    )
}

/// The memory operation for a final answer.
pub open spec fn answer_ops(id: TaskId, output: Option<Seq<char>>) -> Seq<MemoryOp> {
    match output {
        Some(o) => seq![MemoryOp::Message { task_id: id, role: "advisor"@, body: o }],
        None => seq![],
    }
}

/// The memory operations of an execution session. A shadow session leaves no
/// trace in memory.
pub open spec fn how_ops(id: TaskId, h: HowModel, record: bool) -> Seq<MemoryOp> {
    if record {
        exec_ops(id, h.execs) + answer_ops(id, h.output)
    } else {
        seq![]
    }
}

/// What an execution session says when it runs out of steps.
pub open spec fn how_limit(max_steps: nat) -> Seq<char> {
    "Session reached step limit ("@ + numbers::decimal(max_steps) + ")."@
}

// ---------------------------------------------------------------------------
// Analysis sessions
// ---------------------------------------------------------------------------

/// A plain search text: nothing in it looks like a command.
pub open spec fn is_safe_query(q: Seq<char>) -> bool {
    &&& !chars::contains(q, "|"@)
    &&& !chars::contains(q, ";"@)
    &&& !chars::contains(q, "&&"@)
    &&& !chars::contains(q, "$("@)
    &&& !chars::contains(q, "exec."@)
    &&& !chars::starts_with(q, "/"@)
    &&& !chars::contains(q, ">>"@)
    &&& !chars::contains(q, "<"@)
}

/// The first line of a reply, trimmed.
pub open spec fn first_line(reply: Seq<char>) -> Seq<char> {
    let lines = chars::lines(reply);
    if lines.len() > 0 {
        chars::trim(lines[0])
    } else {
        chars::trim(""@)
    }
}

/// The search that a reply asks for, where it is a plain one.
pub open spec fn data_query(reply: Seq<char>) -> Option<Seq<char>> {
    match chars::after_prefix(first_line(reply), "DATA:"@) {
        Some(rest) => if is_safe_query(chars::trim(rest)) {
            Some(chars::trim(rest))
        } else {
            None
        },
        None => None,
    }
}

/// The search that a reply asks for, where it is refused for not being a plain
/// one.
pub open spec fn refused_query(reply: Seq<char>) -> Option<Seq<char>> {
    match chars::after_prefix(first_line(reply), "DATA:"@) {
        Some(rest) => if is_safe_query(chars::trim(rest)) {
            None
        } else {
            Some(chars::trim(rest))
        },
        None => None,
    }
}

/// What the model is shown of a search.
pub open spec fn data_text(query: Seq<char>, memory: ProgressiveModel) -> Seq<char> {
    "Data for '"@ + query + "':\n"@ + memory.rendered()
}

/// The conversation after `n` searches.
pub open spec fn why_messages(
    context: Seq<char>,
    replies: Seq<Seq<char>>,
    recalls: Seq<ProgressiveModel>,
    n: nat,
) -> Seq<Turn>
    decreases n,
{
    if n == 0 {
        seq![Turn::user(context)]
    } else {
        let i = n - 1;
        why_messages(context, replies, recalls, i as nat).push(Turn::assistant(replies[i])).push(
            Turn::user(data_text(data_query(replies[i])->0, recalls[i])),
        )
    }
}

/// What an analysis session says when it runs out of steps.
pub open spec fn why_limit(max_steps: nat) -> Seq<char> {
    "Analysis reached step limit ("@ + numbers::decimal(max_steps) + ")."@
}

/// Whether a search text looks like one, and not like a command.
pub fn data_query_is_safe(q: &str) -> (r: bool)
    ensures
        r == is_safe_query(q@),
{
    !text::contains(q, "|") && !text::contains(q, ";") && !text::contains(q, "&&")
        && !text::contains(q, "$(") && !text::contains(q, "exec.") && !text::starts_with(q, "/")
        && !text::contains(q, ">>") && !text::contains(q, "<")
}

fn first_line_of<'a>(reply: &'a str) -> (r: &'a str)
    ensures
        r@ == first_line(reply@),
{
    let lines = text::lines(reply);
    assert(chars::texts(lines@).len() == lines@.len());
    let first = if lines.len() > 0 {
        assert(chars::texts(lines@)[0] == lines@[0]@);
        lines[0]
    } else {
        ""
    };
    text::trim(first)
}

/// The search that a reply asks for, where it is a plain one.
pub fn requested_data(reply: &str) -> (r: Option<String>)
    ensures
        chars::opt_text(r) == data_query(reply@),
{
    match text::after_prefix(first_line_of(reply), "DATA:") {
        Some(rest) => {
            let q = text::trim(rest);
            if data_query_is_safe(q) {
                Some(q.to_owned())
            } else {
                None
            }
        },
        None => None,
    }
}

/// The search that a reply asks for, where it is refused.
pub fn refused_data(reply: &str) -> (r: Option<String>)
    ensures
        chars::opt_text(r) == refused_query(reply@),
{
    match text::after_prefix(first_line_of(reply), "DATA:") {
        Some(rest) => {
            let q = text::trim(rest);
            if data_query_is_safe(q) {
                None
            } else {
                Some(q.to_owned())
            }
        },
        None => None,
    }
}

/// What follows the first `DONE:` of a reply.
pub fn done_payload(reply: &str, directive: &str) -> (r: String)
    requires
        chars::starts_with(directive@, "DONE:"@),
    ensures
        r@ == done_text(reply@, directive@),
{
    match text::around(reply, "DONE:") {
        Some((_, rest)) => text::trim(rest).to_owned(),
        None => {
            proof {
                reveal_strlit("DONE:");
            }
            text::trim(command_body(directive)).to_owned()
        },
    }
}

// ---------------------------------------------------------------------------
// Laws
// ---------------------------------------------------------------------------

/// The same directives give the same turn whatever results follow the ones that
/// were used.
pub proof fn lemma_results_prefix(
    t: TurnModel,
    reply: Seq<char>,
    ds: Seq<Seq<char>>,
    a: Seq<Seq<char>>,
    b: Seq<Seq<char>>,
    n: nat,
)
    requires
        after_directives(t, reply, ds, a, n).execs.len() <= a.len() <= b.len(),
        b.take(a.len() as int) == a,
    ensures
        after_directives(t, reply, ds, a, n) == after_directives(t, reply, ds, b, n),
        t.execs.len() <= after_directives(t, reply, ds, a, n).execs.len(),
    decreases n,
{
    if n > 0 {
        let m = (n - 1) as nat;
        let x = after_directives(t, reply, ds, a, m);
        assert(x.execs.len() <= after_directive(x, reply, ds[n - 1], a).execs.len());
        lemma_results_prefix(t, reply, ds, a, b, m);
        let k = x.execs.len() as int;
        if k < a.len() {
            assert(b.take(a.len() as int)[k] == b[k]);
        }
    }
}

/// The same replies give the same session whatever results follow the ones that
/// were used.
pub proof fn lemma_session_prefix(
    first: Seq<char>,
    replies: Seq<Seq<char>>,
    more: Seq<Seq<char>>,
    a: Seq<Seq<char>>,
    b: Seq<Seq<char>>,
    n: nat,
)
    requires
        n <= replies.len() <= more.len(),
        more.take(replies.len() as int) == replies,
        how_after(first, replies, a, n).execs.len() <= a.len() <= b.len(),
        b.take(a.len() as int) == a,
    ensures
        how_after(first, replies, a, n) == how_after(first, more, b, n),
    decreases n,
{
    if n > 0 {
        let m = (n - 1) as nat;
        let h = how_after(first, replies, a, m);
        let reply = replies[n - 1];
        assert(more.take(replies.len() as int)[n - 1] == more[n - 1]);
        let ds = directives(reply);
        lemma_execs_grow(h, reply, a);
        lemma_session_prefix(first, replies, more, a, b, m);
        if ds.len() > 0 {
            lemma_results_prefix(turn_start(h), reply, ds, a, b, ds.len());
        }
    }
}

proof fn lemma_turn_execs_grow(
    t: TurnModel,
    reply: Seq<char>,
    ds: Seq<Seq<char>>,
    results: Seq<Seq<char>>,
    n: nat,
)
    ensures
        t.execs.len() <= after_directives(t, reply, ds, results, n).execs.len(),
        after_directives(t, reply, ds, results, n).execs.take(t.execs.len() as int) == t.execs,
    decreases n,
{
    if n == 0 {
        assert(t.execs.take(t.execs.len() as int) =~= t.execs);
    } else {
        let m = (n - 1) as nat;
        let x = after_directives(t, reply, ds, results, m);
        lemma_turn_execs_grow(t, reply, ds, results, m);
        let y = after_directive(x, reply, ds[n - 1], results);
        assert(y.execs.take(t.execs.len() as int) =~= x.execs.take(t.execs.len() as int));
    }
}

/// A reply never takes a command of the session back.
pub proof fn lemma_execs_grow(h: HowModel, reply: Seq<char>, results: Seq<Seq<char>>)
    ensures
        h.execs.len() <= after_reply(h, reply, results).execs.len(),
        after_reply(h, reply, results).execs.take(h.execs.len() as int) == h.execs,
{
    let ds = directives(reply);
    lemma_turn_execs_grow(turn_start(h), reply, ds, results, ds.len());
    assert(h.execs.take(h.execs.len() as int) =~= h.execs);
}

/// The results of commands.
pub open spec fn results_of(execs: Seq<ExecModel>) -> Seq<Seq<char>> {
    execs.map_values(|e: ExecModel| e.result)
}

/// A turn that has ended stays as it is.
pub proof fn lemma_turn_frozen(
    t: TurnModel,
    reply: Seq<char>,
    ds: Seq<Seq<char>>,
    results: Seq<Seq<char>>,
    k: nat,
    n: nat,
)
    requires
        k <= n,
        after_directives(t, reply, ds, results, k).done is Some || after_directives(
            t,
            reply,
            ds,
            results,
            k,
        ).stopped,
    ensures
        after_directives(t, reply, ds, results, n) == after_directives(t, reply, ds, results, k),
    decreases n,
{
    if k < n {
        lemma_turn_frozen(t, reply, ds, results, k, (n - 1) as nat);
    }
}

/// Commands only grow in number over the replies of a session.
pub proof fn lemma_session_execs_grow(
    first: Seq<char>,
    replies: Seq<Seq<char>>,
    results: Seq<Seq<char>>,
    k: nat,
    n: nat,
)
    requires
        k <= n,
    ensures
        how_after(first, replies, results, k).execs.len() <= how_after(
            first,
            replies,
            results,
            n,
        ).execs.len(),
    decreases n,
{
    if k < n {
        let m = (n - 1) as nat;
        lemma_session_execs_grow(first, replies, results, k, m);
        lemma_execs_grow(how_after(first, replies, results, m), replies[n - 1], results);
    }
}

/// Whatever a model replies, no command is run twice in a row.
pub proof fn law_no_command_twice_in_a_row(
    first: Seq<char>,
    replies: Seq<Seq<char>>,
    results: Seq<Seq<char>>,
    n: nat,
)
    ensures
        forall|i: int|
            0 <= i < how_after(first, replies, results, n).execs.len() - 1 ==> (
            #[trigger] how_after(first, replies, results, n).execs[i]).cmd != how_after(
                first,
                replies,
                results,
                n,
            ).execs[i + 1].cmd,
{
    lemma_no_repeat(first, replies, results, n);
}

/// No two neighbours hold the same command, and the last command is known.
pub open spec fn no_repeat(
    execs: Seq<ExecModel>,
    last: Option<(Seq<char>, Seq<char>)>,
) -> bool {
    &&& forall|i: int| 0 <= i < execs.len() - 1 ==> (#[trigger] execs[i]).cmd != execs[i + 1].cmd
    &&& match last {
        Some((cmd, _)) => execs.len() > 0 && execs.last().cmd == cmd,
        None => execs.len() == 0,
    }
}

proof fn lemma_no_repeat_turn(
    t: TurnModel,
    reply: Seq<char>,
    ds: Seq<Seq<char>>,
    results: Seq<Seq<char>>,
    n: nat,
)
    requires
        no_repeat(t.execs, t.last),
    ensures
        no_repeat(
            after_directives(t, reply, ds, results, n).execs,
            after_directives(t, reply, ds, results, n).last,
        ),
    decreases n,
{
    if n > 0 {
        lemma_no_repeat_turn(t, reply, ds, results, (n - 1) as nat);
    }
}

proof fn lemma_no_repeat(
    first: Seq<char>,
    replies: Seq<Seq<char>>,
    results: Seq<Seq<char>>,
    n: nat,
)
    ensures
        no_repeat(
            how_after(first, replies, results, n).execs,
            how_after(first, replies, results, n).last,
        ),
    decreases n,
{
    if n > 0 {
        let m = (n - 1) as nat;
        lemma_no_repeat(first, replies, results, m);
        let h = how_after(first, replies, results, m);
        let ds = directives(replies[n - 1]);
        lemma_no_repeat_turn(turn_start(h), replies[n - 1], ds, results, ds.len());
    }
}

/// Whatever a model asks for, a search text that is carried out holds nothing
/// that looks like a command.
pub proof fn law_searches_are_plain(reply: Seq<char>)
    ensures
        data_query(reply) matches Some(q) ==> is_safe_query(q),
{
}

}
