//! Promises of sessions: what reaches a model, what its replies do, and what is
//! kept of them.
use vstd::prelude::*;

use crate::channels::AgentHandler;
use crate::chars;
use crate::chars::CharSet;
use crate::laws::recall::lemma_performed_split;
use crate::laws::texts::{
    blank, law_find_is_first_occurrence, law_occurrence_carries_over, lemma_part, occurs, stands_at,
};
use crate::llm::{ChatCall, LlmClient, Turn};
use crate::memory::{
    performed, performs, InMemoryStore, MemoryOp, MemoryStore, MessageModel, ProgressiveModel,
};
use crate::minicore::{
    addressed, agent_at, answer_status, context_key, context_ops, dispatch_of, final_class,
    how_calls, is_agent_name, message_context, outcome_text, prior_task, report_ops, resolved,
    task_ops, why_calls, why_ops, Dispatch, IncomingMessage, MiniCore, Opening, RegisteredAgent,
    CONTEXT_MAX_BYTES,
};
use crate::numbers;
use crate::planner::class_question;
use crate::session::{
    after_directive, after_directives, after_reply, data_query, data_text, directives,
    directives_in, exec_note, exec_ops, how_after, how_limit, how_ops, is_directive, is_safe_query,
    open_quotes, refused_query, repeats, turn_start, whole_command, why_limit, why_messages,
    ExecModel, HowModel, TurnModel,
};
use crate::skills::{skill_named, SkillModel};
use crate::types::{MessageClass, Task, TaskId, TaskStatus};

verus! {

// ---------------------------------------------------------------------------
// The context of a message
// ---------------------------------------------------------------------------

/// The context of a message whose conversation has a history is that history,
/// whole, ahead of the message; contexts with different histories differ. Without
/// a history it is the message alone.
pub proof fn law_context_holds_the_history(
    body: Seq<char>,
    id: TaskId,
    history: Seq<char>,
    other: Seq<char>,
) -> (r: (Seq<char>, Seq<char>))
    ensures
        history.len() > 0 ==> message_context(body, Some(id), history) == r.0 + history + r.1
            + body,
        history.len() > 0 ==> occurs(message_context(body, Some(id), history), history),
        history.len() > 0 && other.len() > 0 && history != other ==> message_context(
            body,
            Some(id),
            history,
        ) != message_context(body, Some(id), other),
        history.len() == 0 ==> message_context(body, Some(id), history) == body,
        message_context(body, None, history) == body,
{
    let a = "Conversation history:\n"@;
    let b = "\n\nNew message:\n"@;
    lemma_part(a, history, b + body);
    assert(a + history + (b + body) =~= a + history + b + body);
    if history.len() > 0 && other.len() > 0 && history != other {
        let x = a + history + b + body;
        let y = a + other + b + body;
        if x == y {
            assert(x.len() == y.len());
            assert(x.subrange(a.len() as int, (a.len() + history.len()) as int) =~= history);
            assert(y.subrange(a.len() as int, (a.len() + other.len()) as int) =~= other);
        }
    }
    (a, b)
}

/// Every request of an execution session starts with the context that the session
/// was given, as the words of the user.
pub proof fn law_execution_requests_start_with_the_context(
    system: Seq<char>,
    context: Seq<char>,
    replies: Seq<Seq<char>>,
    results: Seq<Seq<char>>,
    n: nat,
)
    ensures
        how_calls(system, context, replies, results, n).len() == n,
        forall|k: int|
            0 <= k < n ==> {
                let call = #[trigger] how_calls(system, context, replies, results, n)[k];
                call.system == system && call.messages.len() > 0 && call.messages[0].role
                    == "user"@ && call.messages[0].content == context && call.reply == replies[k]
            },
    decreases n,
{
    if n > 0 {
        let k = (n - 1) as nat;
        law_execution_requests_start_with_the_context(system, context, replies, results, k);
        lemma_first_turn(context, replies, results, k);
    }
}

proof fn lemma_first_turn(
    context: Seq<char>,
    replies: Seq<Seq<char>>,
    results: Seq<Seq<char>>,
    n: nat,
)
    ensures
        how_after(context, replies, results, n).messages.len() > 0,
        how_after(context, replies, results, n).messages[0] == Turn::user(context),
    decreases n,
{
    if n > 0 {
        lemma_first_turn(context, replies, results, (n - 1) as nat);
    }
}

/// Every request of an analysis session starts with the context that the session
/// was given, as the words of the user.
pub proof fn law_analysis_requests_start_with_the_context(
    system: Seq<char>,
    context: Seq<char>,
    replies: Seq<Seq<char>>,
    recalls: Seq<ProgressiveModel>,
    n: nat,
)
    ensures
        why_calls(system, context, replies, recalls, n).len() == n,
        forall|k: int|
            0 <= k < n ==> {
                let call = #[trigger] why_calls(system, context, replies, recalls, n)[k];
                call.system == system && call.messages.len() > 0 && call.messages[0].role
                    == "user"@ && call.messages[0].content == context && call.reply == replies[k]
            },
    decreases n,
{
    if n > 0 {
        let k = (n - 1) as nat;
        law_analysis_requests_start_with_the_context(system, context, replies, recalls, k);
        lemma_first_why_turn(context, replies, recalls, k);
    }
}

proof fn lemma_first_why_turn(
    context: Seq<char>,
    replies: Seq<Seq<char>>,
    recalls: Seq<ProgressiveModel>,
    n: nat,
)
    ensures
        why_messages(context, replies, recalls, n).len() > 0,
        why_messages(context, replies, recalls, n)[0] == Turn::user(context),
    decreases n,
{
    if n > 0 {
        lemma_first_why_turn(context, replies, recalls, (n - 1) as nat);
    }
}

/// The question for the class of a message ends with its context.
pub proof fn law_class_is_asked_of_the_whole_context(context: Seq<char>)
    ensures
        occurs(class_question(context), context),
        class_question(context).skip(class_question(context).len() - context.len()) == context,
{
    let q = crate::planner::CLASS_QUESTION@;
    lemma_part(q, context, seq![]);
    assert(q + context + Seq::<char>::empty() =~= q + context);
    assert(class_question(context).skip(q.len() as int) =~= context);
}

proof fn lemma_reads<M: MemoryStore>(
    pre: M,
    cid: Seq<char>,
    fact: Option<Seq<char>>,
    history: Seq<char>,
    id: TaskId,
    post: M,
)
    requires
        prior_task(Some(cid), fact) == Some(id),
        performed(pre, context_ops(Some(cid), fact, history), post),
    ensures
        post == pre,
        M::fact_found(pre, context_key(cid), fact),
        M::transcript(pre, id, CONTEXT_MAX_BYTES as nat, history),
{
    let ops = context_ops(Some(cid), fact, history);
    assert(ops.len() == 2);
    let mid = choose|mid: M|
        performed(pre, ops.drop_last(), mid) && #[trigger] performs(mid, ops.last(), post);
    let one = ops.drop_last();
    let start = choose|start: M|
        performed(pre, one.drop_last(), start) && #[trigger] performs(start, one.last(), mid);
    assert(one.drop_last().len() == 0);
    assert(start == pre);
}

/// A message of a conversation that has a task is given to the model together with
/// everything that was said before under that task, as far as the transcript fits
/// its budget: each earlier message stands in the context, with who said it,
/// ahead of the new one.
pub proof fn law_conversation_reaches_the_model<L: LlmClient, A: AgentHandler>(
    pre: MiniCore<InMemoryStore, L, A>,
    post: MiniCore<InMemoryStore, L, A>,
    msg: IncomingMessage,
    w: Opening,
    task_id: TaskId,
    class: MessageClass,
    context: Seq<char>,
    i: int,
)
    requires
        MiniCore::<InMemoryStore, L, A>::opened(pre, post, msg, w, task_id, class, context),
        msg.context_id is Some,
        prior_task(chars::opt_text(msg.context_id), w.fact) == Some(task_id),
        0 <= i < pre.memory@.messages.len(),
        pre.memory@.messages[i].task_id == task_id,
        chars::byte_len(w.history) + 4 <= CONTEXT_MAX_BYTES,
    ensures
        occurs(
            context,
            pre.memory@.messages[i].role + ": "@ + pre.memory@.messages[i].body,
        ),
        occurs(context, pre.memory@.messages[i].body),
        occurs(context, msg.text@),
        <InMemoryStore as MemoryStore>::fact_found(
            pre.memory,
            "ctx:"@ + msg.context_id->0@,
            w.fact,
        ),
{
    let cid = msg.context_id->0@;
    let body = msg.text@;
    let m = pre.memory@.messages[i];
    let read = context_ops(Some(cid), w.fact, w.history);
    let rest = task_ops(body, Some(cid), Some(task_id), w.task) + seq![
        MemoryOp::Message { task_id, role: "user"@, body },
        MemoryOp::Status { id: task_id, status: TaskStatus::Running },
    ];
    assert(read + rest =~= read + task_ops(body, Some(cid), Some(task_id), w.task) + seq![
        MemoryOp::Message { task_id, role: "user"@, body },
        MemoryOp::Status { id: task_id, status: TaskStatus::Running },
    ]);
    let mid = lemma_performed_split(pre.memory, read, rest, post.memory);
    lemma_reads(pre.memory, cid, w.fact, w.history, task_id, mid);
    crate::laws::recall::law_transcript_holds_every_message(
        pre.memory,
        task_id,
        CONTEXT_MAX_BYTES as nat,
        w.history,
        i,
    );
    let line = m.role + ": "@ + m.body;
    let (a, b) = law_context_holds_the_history(body, task_id, w.history, w.history);
    reveal_strlit(": ");
    let at = choose|at: int| stands_at(w.history, line, at);
    assert(w.history.len() >= line.len());
    law_occurrence_carries_over(a, w.history, b + body, line);
    law_occurrence_carries_over(a, w.history, b + body, m.body);
    assert(a + w.history + (b + body) =~= a + w.history + b + body);
    lemma_part(a + w.history + b, body, seq![]);
    assert(a + w.history + b + body + Seq::<char>::empty() =~= context);
}

/// A message that is taken up is the last one of its task, and its task is
/// running.
pub proof fn law_opened_message_is_recorded<L: LlmClient, A: AgentHandler>(
    pre: MiniCore<InMemoryStore, L, A>,
    post: MiniCore<InMemoryStore, L, A>,
    msg: IncomingMessage,
    w: Opening,
    task_id: TaskId,
    class: MessageClass,
    context: Seq<char>,
)
    requires
        MiniCore::<InMemoryStore, L, A>::opened(pre, post, msg, w, task_id, class, context),
        pre.memory.wf(),
        pre.memory@.max_records > 0,
    ensures
        post.memory@.messages.len() > 0,
        post.memory@.messages.last().task_id == task_id,
        post.memory@.messages.last().role == "user"@,
        post.memory@.messages.last().body == msg.text@,
        forall|i: int|
            0 <= i < post.memory@.tasks.len() && (#[trigger] post.memory@.tasks[i]).id == task_id
                ==> post.memory@.tasks[i].status == TaskStatus::Running,
{
    let cid = chars::opt_text(msg.context_id);
    let body = msg.text@;
    let prior = prior_task(cid, w.fact);
    let first = context_ops(cid, w.fact, w.history) + task_ops(body, cid, prior, w.task);
    let said = MemoryOp::Message { task_id, role: "user"@, body };
    let set = MemoryOp::Status { id: task_id, status: TaskStatus::Running };
    let all = first + seq![said, set];
    assert(all.last() == set);
    let last = choose|last: InMemoryStore|
        performed(pre.memory, all.drop_last(), last) && #[trigger] performs(
            last,
            all.last(),
            post.memory,
        );
    let most = all.drop_last();
    assert(most =~= first + seq![said]);
    assert(most.last() == said);
    let before = choose|before: InMemoryStore|
        performed(pre.memory, most.drop_last(), before) && #[trigger] performs(
            before,
            most.last(),
            last,
        );
    crate::memory::law_operations_keep_bounds(pre.memory, most.drop_last(), before);
    crate::laws::recall::law_recorded_message_joins_the_others(
        before,
        last,
        task_id,
        "user"@,
        body,
    );
    assert forall|i: int|
        0 <= i < post.memory@.tasks.len() && (#[trigger] post.memory@.tasks[i]).id
            == task_id implies post.memory@.tasks[i].status == TaskStatus::Running by {
        crate::laws::recall::law_status_goes_to_its_task(
            last,
            post.memory,
            task_id,
            TaskStatus::Running,
            i,
        );
    }
}

/// The end of a session leaves its answer as the last message, said by the
/// assistant, and its task done, or failed where the answer is an error.
pub proof fn law_answer_is_recorded(
    pre: InMemoryStore,
    post: InMemoryStore,
    id: TaskId,
    output: Seq<char>,
    i: int,
)
    requires
        pre.wf(),
        pre@.max_records > 0,
        performed(pre, report_ops(id, output), post),
        0 <= i < pre@.tasks.len(),
    ensures
        post@.messages.last() == (MessageModel { task_id: id, role: "assistant"@, body: output }),
        post@.tasks.len() == pre@.tasks.len(),
        pre@.tasks[i].id == id ==> post@.tasks[i].status == (if chars::starts_with(
            output,
            "error:"@,
        ) {
            TaskStatus::Failed
        } else {
            TaskStatus::Done
        }),
        pre@.tasks[i].id != id ==> post@.tasks[i] == pre@.tasks[i],
{
    let ops = report_ops(id, output);
    let mid = choose|mid: InMemoryStore|
        performed(pre, ops.drop_last(), mid) && #[trigger] performs(mid, ops.last(), post);
    let one = ops.drop_last();
    let start = choose|start: InMemoryStore|
        performed(pre, one.drop_last(), start) && #[trigger] performs(start, one.last(), mid);
    assert(start == pre);
    crate::memory::law_operations_keep_bounds(pre, one, mid);
    crate::laws::recall::law_status_goes_to_its_task(pre, mid, id, answer_status(output), i);
    crate::laws::recall::law_recorded_message_joins_the_others(
        mid,
        post,
        id,
        "assistant"@,
        output,
    );
}

/// A class is kept, but for a query that a skill with a command serves: that one
/// is executed.
pub proof fn law_only_served_queries_change_class(
    class: MessageClass,
    skills: Seq<SkillModel>,
    body: Seq<char>,
)
    ensures
        class != MessageClass::MiniWhat ==> final_class(class, skills, body) == class,
        crate::skills::first_serving(skills, body) is None ==> final_class(class, skills, body)
            == class,
        class == MessageClass::MiniWhat && crate::skills::first_serving(skills, body) is Some
            ==> final_class(class, skills, body) == MessageClass::MiniHow,
{
}

// ---------------------------------------------------------------------------
// Directives
// ---------------------------------------------------------------------------

/// A quote opens or closes its kind of quoting, unless the other kind is open; a
/// backslash outside single quotes takes the next character with it; anything
/// else changes nothing.
pub proof fn law_quotes_open_and_close(c: char, s: Seq<char>, single: bool, double: bool)
    ensures
        open_quotes(Seq::<char>::empty(), single, double) == (if single {
            1nat
        } else {
            0nat
        }) + (if double {
            1nat
        } else {
            0nat
        }),
        c == '\'' && !double ==> open_quotes(seq![c] + s, single, double) == open_quotes(
            s,
            !single,
            double,
        ),
        c == '"' && !single ==> open_quotes(seq![c] + s, single, double) == open_quotes(
            s,
            single,
            !double,
        ),
        c == '\'' && double || c == '"' && single ==> open_quotes(seq![c] + s, single, double)
            == open_quotes(s, single, double),
        c == '\\' && (single || s.len() == 0) ==> open_quotes(seq![c] + s, single, double)
            == open_quotes(s, single, double),
        c == '\\' && !single && s.len() > 0 ==> open_quotes(seq![c] + s, single, double)
            == open_quotes(s.skip(1), single, double),
        c != '\'' && c != '"' && c != '\\' ==> open_quotes(seq![c] + s, single, double)
            == open_quotes(s, single, double),
{
    let t = seq![c] + s;
    assert(t[0] == c);
    assert(t.skip(1) =~= s);
    if s.len() > 0 {
        assert(t.skip(2) =~= s.skip(1));
    }
}

/// Lines without a directive give none, wherever they stand before others.
pub proof fn law_other_lines_are_passed_over(line: Seq<char>, rest: Seq<Seq<char>>)
    requires
        !chars::starts_with(chars::trim_start(line), "EXEC:"@),
        !chars::starts_with(chars::trim_start(line), "DONE:"@),
    ensures
        directives_in(seq![line] + rest) == directives_in(rest),
{
    assert((seq![line] + rest).skip(1) =~= rest);
}

/// A line that starts with `DONE:` is a directive, without the white space around
/// it, and so is one with `EXEC:` whose quotes are closed; what follows is read on
/// its own.
pub proof fn law_directive_lines_are_taken(line: Seq<char>, rest: Seq<Seq<char>>)
    ensures
        chars::starts_with(chars::trim_start(line), "DONE:"@) ==> directives_in(seq![line] + rest)
            == seq![chars::trim_end(chars::trim_start(line))] + directives_in(rest),
        chars::starts_with(chars::trim_start(line), "EXEC:"@) && open_quotes(
            chars::trim_start(line).skip(5),
            false,
            false,
        ) == 0 ==> directives_in(seq![line] + rest) == seq![chars::trim_start(line)]
            + directives_in(rest),
{
    let all = seq![line] + rest;
    assert(all.skip(1) =~= rest);
    assert(all[0] == line);
    reveal_strlit("DONE:");
    reveal_strlit("EXEC:");
    let t = chars::trim_start(line);
    if chars::starts_with(t, "EXEC:"@) && chars::starts_with(t, "DONE:"@) {
        assert(t.take(5)[0] == "DONE:"@[0]);
        assert(t.take(5)[0] == "EXEC:"@[0]);
    }
    assert(rest.skip(0) =~= rest);
}

/// A reply without directives is the answer, trimmed; no command is run on its
/// account.
pub proof fn law_plain_reply_is_the_answer(
    h: HowModel,
    reply: Seq<char>,
    results: Seq<Seq<char>>,
)
    requires
        directives(reply).len() == 0,
    ensures
        after_reply(h, reply, results).output == Some(chars::trim(reply)),
        after_reply(h, reply, results).execs == h.execs,
{
}

/// A reply whose first directive is `DONE:` ends the session: the answer is what
/// follows the first `DONE:` of the reply, to its end, trimmed.
pub proof fn law_done_ends_the_session(
    h: HowModel,
    a: Seq<char>,
    b: Seq<char>,
    results: Seq<Seq<char>>,
)
    requires
        directives(a + "DONE:"@ + b).len() > 0,
        chars::starts_with(directives(a + "DONE:"@ + b)[0], "DONE:"@),
        forall|j: int| 0 <= j < a.len() ==> !#[trigger] stands_at(a + "DONE:"@ + b, "DONE:"@, j),
    ensures
        after_reply(h, a + "DONE:"@ + b, results).output == Some(chars::trim(b)),
        after_reply(h, a + "DONE:"@ + b, results).execs == h.execs,
{
    let reply = a + "DONE:"@ + b;
    let p = "DONE:"@;
    let ds = directives(reply);
    let start = turn_start(h);
    reveal_strlit("DONE:");
    let n = a.len() as int;
    assert(reply.subrange(n, n + p.len()) =~= p);
    assert(stands_at(reply, p, n));
    law_find_is_first_occurrence(reply, p);
    let i = chars::find(reply, p)->0 as int;
    if i < n {
        assert(!stands_at(reply, p, i));
    } else if i > n {
        assert(!stands_at(reply, p, n));
    }
    assert(reply.skip(n + p.len()) =~= b);
    assert(after_directives(start, reply, ds, results, 0) == start);
    assert(after_directives(start, reply, ds, results, 1).done == Some(chars::trim(b)));
    crate::session::lemma_turn_frozen(start, reply, ds, results, 1, ds.len());
}

/// A command that does not repeat the one before it is run: it joins the
/// session's commands with its result, counts as a failure exactly where the
/// result starts with `error:`, and both command and result go into the feedback.
pub proof fn law_command_is_run(
    t: TurnModel,
    reply: Seq<char>,
    cmd: Seq<char>,
    results: Seq<Seq<char>>,
)
    requires
        t.done is None,
        !t.stopped,
        !repeats(t.last, chars::trim(cmd)),
    ensures
        ({
            let r = after_directive(t, reply, "EXEC:"@ + cmd, results);
            let result = results[t.execs.len() as int];
            &&& r.done is None
            &&& r.execs == t.execs.push(
                ExecModel {
                    cmd: chars::trim(cmd),
                    ok: !chars::starts_with(result, "error:"@),
                    result,
                },
            )
            &&& r.last == Some((chars::trim(cmd), result))
            &&& occurs(r.combined, t.combined)
            &&& occurs(r.combined, chars::trim(cmd))
            &&& occurs(r.combined, result)
        }),
{
    let d = "EXEC:"@ + cmd;
    reveal_strlit("EXEC:");
    reveal_strlit("DONE:");
    assert(d.take(5) =~= "EXEC:"@);
    assert(d.skip(5) =~= cmd);
    if chars::starts_with(d, "DONE:"@) {
        assert(d.take(5)[0] == "DONE:"@[0]);
    }
    let c = chars::trim(cmd);
    let result = results[t.execs.len() as int];
    let f = crate::session::feedback(c, result);
    let r = after_directive(t, reply, d, results);
    lemma_part(seq![], t.combined, f);
    assert(Seq::<char>::empty() + t.combined + f =~= r.combined);
    let a = "Result of `"@;
    let b = "`:\n"@;
    let e = "\n\n"@;
    lemma_part(t.combined + a, c, b + result + e);
    assert(t.combined + a + c + (b + result + e) =~= r.combined);
    lemma_part(t.combined + a + c + b, result, e);
    assert(t.combined + a + c + b + result + e =~= r.combined);
}

/// A command that repeats the one before it is not run: its result is the answer
/// where the turn has given no feedback yet, and else goes into the feedback and
/// ends the turn.
pub proof fn law_repeated_command_is_not_run(
    t: TurnModel,
    reply: Seq<char>,
    cmd: Seq<char>,
    cached: Seq<char>,
    results: Seq<Seq<char>>,
)
    requires
        t.done is None,
        !t.stopped,
        t.last == Some((chars::trim(cmd), cached)),
    ensures
        ({
            let r = after_directive(t, reply, "EXEC:"@ + cmd, results);
            &&& r.execs == t.execs
            &&& r.last == t.last
            &&& t.combined.len() == 0 ==> r.done == Some(chars::trim(cached))
            &&& t.combined.len() > 0 ==> r.done is None && r.stopped && occurs(
                r.combined,
                cached,
            ) && occurs(r.combined, t.combined)
        }),
{
    let d = "EXEC:"@ + cmd;
    reveal_strlit("EXEC:");
    reveal_strlit("DONE:");
    assert(d.take(5) =~= "EXEC:"@);
    assert(d.skip(5) =~= cmd);
    if chars::starts_with(d, "DONE:"@) {
        assert(d.take(5)[0] == "DONE:"@[0]);
    }
    let c = chars::trim(cmd);
    if t.combined.len() > 0 {
        let r = after_directive(t, reply, d, results);
        let a = "Result of `"@;
        let b = "` (cached, loop suppressed):\n"@;
        let e = "\n\n"@;
        lemma_part(t.combined + a + c + b, cached, e);
        assert(t.combined + a + c + b + cached + e =~= r.combined);
        lemma_part(seq![], t.combined, a + c + b + cached + e);
        assert(Seq::<char>::empty() + t.combined + (a + c + b + cached + e) =~= r.combined);
    }
}

/// A session that goes on has heard the model and told it the feedback: the
/// conversation grows by the reply and by the feedback, but for white space at its
/// end, and what was said before stays.
pub proof fn law_feedback_goes_to_the_model(
    h: HowModel,
    reply: Seq<char>,
    results: Seq<Seq<char>>,
) -> (rest: Seq<char>)
    requires
        after_reply(h, reply, results).output is None,
    ensures
        ({
            let r = after_reply(h, reply, results);
            let ds = directives(reply);
            let t = after_directives(turn_start(h), reply, ds, results, ds.len());
            &&& r.messages.len() == h.messages.len() + 2
            &&& r.messages.take(h.messages.len() as int) == h.messages
            &&& r.messages[h.messages.len() as int].role == "assistant"@
            &&& r.messages[h.messages.len() as int].content == reply
            &&& r.messages.last().role == "user"@
            &&& r.messages.last().content + rest == t.combined
            &&& blank(rest)
            &&& r.execs == t.execs
        }),
{
    let r = after_reply(h, reply, results);
    let ds = directives(reply);
    let t = after_directives(turn_start(h), reply, ds, results, ds.len());
    assert(r.messages.take(h.messages.len() as int) =~= h.messages);
    let c = t.combined;
    let cut = chars::trim_end(c);
    chars::lemma_drop_trailing(c, CharSet::White);
    lemma_trimmed_tail(c);
    let rest = c.skip(cut.len() as int);
    assert(cut + rest =~= c);
    rest
}

proof fn lemma_trimmed_tail(s: Seq<char>)
    ensures
        blank(s.skip(chars::trim_end(s).len() as int)),
    decreases s.len(),
{
    let r = chars::trim_end(s);
    chars::lemma_drop_trailing(s, CharSet::White);
    if s.len() > 0 && chars::is_white(s.last()) {
        let init = s.drop_last();
        lemma_trimmed_tail(init);
        chars::lemma_drop_trailing(init, CharSet::White);
        let a = init.skip(r.len() as int);
        let b = s.skip(r.len() as int);
        assert forall|i: int| 0 <= i < b.len() implies chars::is_white(#[trigger] b[i]) by {
            if i < a.len() {
                assert(a[i] == b[i]);
            }
        }
    }
}

/// What memory keeps of commands: one message for each, in order, under the task,
/// with the command and its result.
pub proof fn law_commands_are_recorded(id: TaskId, execs: Seq<ExecModel>, i: int)
    requires
        0 <= i < execs.len(),
    ensures
        exec_ops(id, execs).len() == execs.len(),
        exec_ops(id, execs)[i] matches MemoryOp::Message { task_id, role, body } && task_id == id
            && role == "exec"@ && occurs(body, execs[i].cmd) && occurs(body, execs[i].result),
{
    let e = execs[i];
    let a = "EXEC: "@;
    let b = "\nResult: "@;
    lemma_part(a, e.cmd, b + e.result);
    assert(a + e.cmd + (b + e.result) =~= exec_note(e));
    lemma_part(a + e.cmd + b, e.result, seq![]);
    assert(a + e.cmd + b + e.result + Seq::<char>::empty() =~= exec_note(e));
}

/// A search is what follows `DATA:` on the first line of a reply; it is carried out
/// unless it looks like a command, and then the reply is the answer.
pub proof fn law_searches_stand_on_the_first_line(reply: Seq<char>, query: Seq<char>)
    requires
        chars::lines(reply).len() > 0,
        chars::trim(chars::lines(reply)[0]) == "DATA:"@ + query,
    ensures
        data_query(reply) is Some != refused_query(reply) is Some,
        data_query(reply) is Some == is_safe_query(chars::trim(query)),
        data_query(reply) matches Some(q) ==> q == chars::trim(query),
        refused_query(reply) matches Some(q) ==> q == chars::trim(query),
{
    let t = "DATA:"@ + query;
    assert(t.take("DATA:"@.len() as int) =~= "DATA:"@);
    assert(t.skip("DATA:"@.len() as int) =~= query);
}

/// A search text with a pipe, a semicolon, a redirection or the like is refused,
/// and a text without any of them is not.
pub proof fn law_commands_are_no_searches(q: Seq<char>)
    ensures
        occurs(q, "|"@) || occurs(q, ";"@) || occurs(q, "&&"@) || occurs(q, "$("@) || occurs(
            q,
            "exec."@,
        ) || occurs(q, ">>"@) || occurs(q, "<"@) || stands_at(q, "/"@, 0) ==> !is_safe_query(q),
        !occurs(q, "|"@) && !occurs(q, ";"@) && !occurs(q, "&&"@) && !occurs(q, "$("@) && !occurs(
            q,
            "exec."@,
        ) && !occurs(q, ">>"@) && !occurs(q, "<"@) && !stands_at(q, "/"@, 0) ==> is_safe_query(q),
{
    law_find_is_first_occurrence(q, "|"@);
    law_find_is_first_occurrence(q, ";"@);
    law_find_is_first_occurrence(q, "&&"@);
    law_find_is_first_occurrence(q, "$("@);
    law_find_is_first_occurrence(q, "exec."@);
    law_find_is_first_occurrence(q, ">>"@);
    law_find_is_first_occurrence(q, "<"@);
    crate::laws::texts::law_prefix_stands_first(q, "/"@);
}

/// The model is shown everything that a search found, with what it searched for.
pub proof fn law_search_shows_what_it_found(query: Seq<char>, memory: ProgressiveModel)
    ensures
        occurs(data_text(query, memory), memory.rendered()),
        occurs(data_text(query, memory), query),
{
    let a = "Data for '"@;
    let b = "':\n"@;
    lemma_part(a + query + b, memory.rendered(), seq![]);
    assert(a + query + b + memory.rendered() + Seq::<char>::empty() =~= data_text(query, memory));
    lemma_part(a, query, b + memory.rendered());
    assert(a + query + (b + memory.rendered()) =~= data_text(query, memory));
}

// ---------------------------------------------------------------------------
// Dispatch
// ---------------------------------------------------------------------------

/// The first agent of a name is the one that is found.
pub proof fn law_first_agent_of_a_name<A: AgentHandler>(
    agents: Seq<RegisteredAgent<A>>,
    name: Seq<char>,
    from: int,
)
    requires
        0 <= from <= agents.len(),
    ensures
        agent_at(agents, name, from) matches Some(i) ==> from <= i < agents.len()
            && agents[i].name@ == name && forall|j: int|
            from <= j < i ==> (#[trigger] agents[j]).name@ != name,
        agent_at(agents, name, from) is None ==> forall|j: int|
            from <= j < agents.len() ==> (#[trigger] agents[j]).name@ != name,
    decreases agents.len() - from,
{
    if from < agents.len() && agents[from].name@ != name {
        law_first_agent_of_a_name(agents, name, from + 1);
    }
}

/// `name: rest` goes to the agent of that name, who gets the rest, trimmed; where
/// there is none it is refused and nobody gets it.
pub proof fn law_addressed_command_goes_to_its_agent<A: AgentHandler>(
    agents: Seq<RegisteredAgent<A>>,
    skills: Seq<SkillModel>,
    name: Seq<char>,
    rest: Seq<char>,
)
    requires
        !name.contains(':'),
        is_agent_name(chars::trim(name)),
    ensures
        match dispatch_of(agents, skills, name + ":"@ + rest) {
            Dispatch::Sent { agent, command } => {
                &&& 0 <= agent < agents.len()
                &&& agents[agent].name@ == chars::trim(name)
                &&& command == chars::trim(rest)
            },
            Dispatch::Refused(_) => forall|j: int|
                0 <= j < agents.len() ==> (#[trigger] agents[j]).name@ != chars::trim(name),
        },
{
    let s = name + ":"@ + rest;
    reveal_strlit(":");
    law_find_is_first_occurrence(s, ":"@);
    let n = name.len() as int;
    assert(s.subrange(n, n + 1) =~= ":"@);
    assert(stands_at(s, ":"@, n));
    let k = chars::find(s, ":"@)->0 as int;
    if k < n {
        assert(s.subrange(k, k + 1)[0] == ':');
        assert(name[k] == ':');
    } else if k > n {
        assert(!stands_at(s, ":"@, n));
    }
    assert(s.take(n) =~= name);
    assert(s.skip(n + 1) =~= rest);
    law_first_agent_of_a_name(agents, chars::trim(name), 0);
}

/// A command that names no agent goes to the agent that runs programs: as it is,
/// or with the skill that it names resolved.
pub proof fn law_other_commands_run_programs<A: AgentHandler>(
    agents: Seq<RegisteredAgent<A>>,
    skills: Seq<SkillModel>,
    command: Seq<char>,
)
    requires
        addressed(command) is None,
    ensures
        match dispatch_of(agents, skills, command) {
            Dispatch::Sent { agent, command: c } => {
                &&& 0 <= agent < agents.len()
                &&& agents[agent].name@ == "exec"@
                &&& resolved(skills, command) is None ==> c == command
                &&& resolved(skills, command) is Some ==> c == resolved(skills, command)->0
            },
            Dispatch::Refused(_) => forall|j: int|
                0 <= j < agents.len() ==> (#[trigger] agents[j]).name@ != "exec"@,
        },
{
    law_first_agent_of_a_name(agents, "exec"@, 0);
}

/// A command without a colon names no agent.
pub proof fn law_no_agent_without_a_colon(command: Seq<char>)
    requires
        !command.contains(':'),
    ensures
        addressed(command) is None,
{
    reveal_strlit(":");
    law_find_is_first_occurrence(command, ":"@);
    if occurs(command, ":"@) {
        let i = choose|i: int| stands_at(command, ":"@, i);
        assert(command.subrange(i, i + 1)[0] == command[i]);
        assert(command[i] == ':');
    }
}

/// A skill's name in front of a command stands for the skill's own command; what
/// follows it is kept. A first word that names no skill with a command is left
/// alone.
pub proof fn law_skill_name_stands_for_its_command(
    skills: Seq<SkillModel>,
    word: Seq<char>,
    tail: Seq<char>,
)
    requires
        word.len() > 0,
        forall|i: int| 0 <= i < word.len() ==> !chars::is_white(#[trigger] word[i]),
        tail.len() > 0 ==> !chars::is_white(tail.last()),
    ensures
        ({
            let command = if tail.len() == 0 {
                word
            } else {
                word + " "@ + tail
            };
            match skill_named(skills, word) {
                Some(skill) => match skill.command {
                    Some(c) => resolved(skills, command) == Some(
                        if tail.len() == 0 {
                            c
                        } else {
                            c + " "@ + tail
                        },
                    ),
                    None => resolved(skills, command) is None,
                },
                None => resolved(skills, command) is None,
            }
        }),
{
    reveal_strlit(" ");
    let command = if tail.len() == 0 {
        word
    } else {
        word + " "@ + tail
    };
    let n = word.len() as int;
    assert(command[0] == word[0]);
    assert(!chars::is_white(word[0]));
    assert(chars::trim_start(command) == command);
    if tail.len() == 0 {
        assert(!chars::is_white(word[word.len() - 1]));
    } else {
        assert(command.last() == tail.last());
    }
    assert(chars::trim(command) == command);
    assert forall|j: int| 0 <= j < n implies !CharSet::White.has(#[trigger] command[j]) by {
        assert(command[j] == word[j]);
    }
    if tail.len() > 0 {
        assert(command[n] == ' ');
    }
    chars::lemma_until_is(command, CharSet::White, n);
    assert(command.take(n) =~= word);
    if tail.len() > 0 {
        assert(command.skip(n + 1) =~= tail);
    }
}

/// A command goes on over the next line while a quote in it is open, and ends where
/// its quotes are closed; what follows is read on its own.
pub proof fn law_open_quotes_go_on(line: Seq<char>, next: Seq<char>, more: Seq<Seq<char>>)
    requires
        chars::starts_with(chars::trim_start(line), "EXEC:"@),
        open_quotes(chars::trim_start(line).skip(5), false, false) > 0,
        !is_directive(chars::trim_start(next)),
        open_quotes((chars::trim_start(line) + "\n"@ + next).skip(5), false, false) == 0,
    ensures
        directives_in(seq![line] + (seq![next] + more)) == seq![
            chars::trim_start(line) + "\n"@ + next,
        ] + directives_in(more),
{
    let t = chars::trim_start(line);
    let all = seq![line] + (seq![next] + more);
    let rest = seq![next] + more;
    assert(all[0] == line);
    assert(all.skip(1) =~= rest);
    assert(rest[0] == next);
    assert(rest.skip(1) =~= more);
    reveal_strlit("DONE:");
    reveal_strlit("EXEC:");
    if chars::starts_with(t, "DONE:"@) {
        assert(t.take(5)[0] == "DONE:"@[0]);
        assert(t.take(5)[0] == "EXEC:"@[0]);
    }
    let joined = t + "\n"@ + next;
    assert(whole_command(more, joined) == (joined, 0nat));
    assert(whole_command(rest, t) == (joined, 1nat));
    assert(rest.skip(1) =~= more);
}

/// A directive on the next line ends a command, though a quote in it is open.
pub proof fn law_next_directive_ends_a_command(
    line: Seq<char>,
    next: Seq<char>,
    more: Seq<Seq<char>>,
)
    requires
        chars::starts_with(chars::trim_start(line), "EXEC:"@),
        is_directive(chars::trim_start(next)),
    ensures
        directives_in(seq![line] + (seq![next] + more)) == seq![chars::trim_start(line)]
            + directives_in(seq![next] + more),
{
    let t = chars::trim_start(line);
    let all = seq![line] + (seq![next] + more);
    let rest = seq![next] + more;
    assert(all[0] == line);
    assert(all.skip(1) =~= rest);
    assert(rest[0] == next);
    assert(rest.skip(0) =~= rest);
    reveal_strlit("DONE:");
    reveal_strlit("EXEC:");
    if chars::starts_with(t, "DONE:"@) {
        assert(t.take(5)[0] == "DONE:"@[0]);
        assert(t.take(5)[0] == "EXEC:"@[0]);
    }
}

/// An analysis goes on with what it said and what its search found, search after
/// search.
pub proof fn law_searches_go_on_the_conversation(
    context: Seq<char>,
    replies: Seq<Seq<char>>,
    recalls: Seq<ProgressiveModel>,
    n: nat,
    i: int,
)
    requires
        0 <= i < n,
    ensures
        ({
            let all = why_messages(context, replies, recalls, n);
            &&& all.len() == 2 * n + 1
            &&& all[2 * i + 1] == (Turn { role: "assistant"@, content: replies[i] })
            &&& all[2 * i + 2].role == "user"@
            &&& occurs(all[2 * i + 2].content, recalls[i].rendered())
            &&& data_query(replies[i]) matches Some(q) ==> occurs(all[2 * i + 2].content, q)
        }),
    decreases n,
{
    let m = (n - 1) as nat;
    lemma_turn_count(context, replies, recalls, m);
    if i < n - 1 {
        law_searches_go_on_the_conversation(context, replies, recalls, m, i);
    } else {
        law_search_shows_what_it_found(data_query(replies[i])->0, recalls[i]);
    }
}

proof fn lemma_turn_count(
    context: Seq<char>,
    replies: Seq<Seq<char>>,
    recalls: Seq<ProgressiveModel>,
    n: nat,
)
    ensures
        why_messages(context, replies, recalls, n).len() == 2 * n + 1,
    decreases n,
{
    if n > 0 {
        lemma_turn_count(context, replies, recalls, (n - 1) as nat);
    }
}

/// Every search of an analysis asks memory for its own query; a recorded analysis
/// keeps what each one found.
pub proof fn law_searches_are_recorded(
    id: TaskId,
    replies: Seq<Seq<char>>,
    recalls: Seq<ProgressiveModel>,
    n: nat,
    i: int,
)
    requires
        0 <= i < n,
    ensures
        ({
            let kept = why_ops(id, replies, recalls, true, n);
            let left = why_ops(id, replies, recalls, false, n);
            &&& kept.len() == 2 * n && left.len() == n
            &&& kept[2 * i] matches MemoryOp::Recall { query, memory, .. } && Some(query)
                == Some(data_query(replies[i])->0) && memory == recalls[i]
            &&& kept[2 * i + 1] matches MemoryOp::Message { task_id, role, body } && task_id == id
                && role == "data-fetch"@ && body == recalls[i].rendered()
            &&& left[i] == kept[2 * i]
        }),
    decreases n,
{
    let m = (n - 1) as nat;
    lemma_search_count(id, replies, recalls, m);
    if i < n - 1 {
        law_searches_are_recorded(id, replies, recalls, m, i);
    }
}

proof fn lemma_search_count(
    id: TaskId,
    replies: Seq<Seq<char>>,
    recalls: Seq<ProgressiveModel>,
    n: nat,
)
    ensures
        why_ops(id, replies, recalls, true, n).len() == 2 * n,
        why_ops(id, replies, recalls, false, n).len() == n,
    decreases n,
{
    if n > 0 {
        lemma_search_count(id, replies, recalls, (n - 1) as nat);
    }
}

/// A recorded execution keeps its commands, in order, and behind them its answer;
/// one that is not recorded keeps nothing.
pub proof fn law_executions_are_recorded(id: TaskId, h: HowModel, answer: Seq<char>)
    ensures
        how_ops(id, h, false).len() == 0,
        how_ops(id, h, true).take(h.execs.len() as int) == exec_ops(id, h.execs),
        h.output == Some(answer) ==> how_ops(id, h, true).len() == h.execs.len() + 1 && (how_ops(
            id,
            h,
            true,
        ).last() matches MemoryOp::Message { task_id, body, .. } && task_id == id && body
            == answer),
        h.output is None ==> how_ops(id, h, true).len() == h.execs.len(),
{
    assert(how_ops(id, h, true).take(h.execs.len() as int) =~= exec_ops(id, h.execs));
}

/// What an agent answered goes back as it is, and what it failed with is marked as an
/// error.
pub proof fn law_failures_of_agents_are_marked(t: Seq<char>)
    ensures
        outcome_text(Ok(t)) == t,
        stands_at(outcome_text(Err(t)), "error: "@, 0),
        stands_at(outcome_text(Err(t)), t, 7),
        outcome_text(Err(t)).len() == t.len() + 7,
{
    reveal_strlit("error: ");
    let whole = outcome_text(Err(t));
    assert(whole.subrange(0, 7) =~= "error: "@);
    assert(whole.subrange(7, 7 + t.len() as int) =~= t);
}

/// A session that ran out of steps tells how many it had.
pub proof fn law_limits_are_told(n: nat)
    ensures
        occurs(how_limit(n), numbers::decimal(n)),
        occurs(why_limit(n), numbers::decimal(n)),
{
    lemma_part("Session reached step limit ("@, numbers::decimal(n), ")."@);
    lemma_part("Analysis reached step limit ("@, numbers::decimal(n), ")."@);
}

/// The commands of one state are the first commands of another.
pub open spec fn starts_as(a: Seq<ExecModel>, b: Seq<ExecModel>) -> bool {
    a.len() <= b.len() && b.take(a.len() as int) == a
}

proof fn lemma_commands_stay(
    t: TurnModel,
    reply: Seq<char>,
    ds: Seq<Seq<char>>,
    results: Seq<Seq<char>>,
    m: nat,
    n: nat,
)
    requires
        m <= n,
    ensures
        starts_as(
            after_directives(t, reply, ds, results, m).execs,
            after_directives(t, reply, ds, results, n).execs,
        ),
    decreases n,
{
    let a = after_directives(t, reply, ds, results, m).execs;
    if m == n {
        assert(a.take(a.len() as int) =~= a);
    } else {
        let k = (n - 1) as nat;
        lemma_commands_stay(t, reply, ds, results, m, k);
        let u = after_directives(t, reply, ds, results, k);
        let b = u.execs;
        let c = after_directive(u, reply, ds[n - 1], results).execs;
        assert(c == b || c.drop_last() =~= b);
        assert(c.take(a.len() as int) =~= b.take(a.len() as int));
    }
}

/// However a reply ends, the commands that ran before it and the first command that
/// it gives stay on the list, each with its result.
pub proof fn law_commands_stay_on_the_list(
    h: HowModel,
    reply: Seq<char>,
    results: Seq<Seq<char>>,
    command: Seq<char>,
)
    requires
        directives(reply).len() > 0,
        directives(reply)[0] == "EXEC:"@ + command,
        !repeats(h.last, chars::trim(command)),
    ensures
        ({
            let e = after_reply(h, reply, results).execs;
            let n = h.execs.len() as int;
            &&& starts_as(h.execs, e)
            &&& n < e.len()
            &&& e[n].cmd == chars::trim(command)
            &&& e[n].result == results[n]
        }),
{
    let ds = directives(reply);
    let t = turn_start(h);
    let d = ds[0];
    reveal_strlit("EXEC:");
    reveal_strlit("DONE:");
    assert(d[0] == 'E');
    assert(d.take(5) =~= "EXEC:"@);
    assert(d.skip(5) =~= command);
    assert(!chars::starts_with(d, "DONE:"@)) by {
        if chars::starts_with(d, "DONE:"@) {
            assert(d.take(5)[0] == 'D');
        }
    }
    let one = after_directives(t, reply, ds, results, 1);
    assert(after_directives(t, reply, ds, results, 0) == t);
    assert(one == after_directive(t, reply, d, results));
    assert(one.execs.len() == h.execs.len() + 1);
    lemma_commands_stay(t, reply, ds, results, 1, ds.len());
    lemma_commands_stay(t, reply, ds, results, 0, ds.len());
    let e = after_directives(t, reply, ds, results, ds.len()).execs;
    assert(e.take(one.execs.len() as int)[h.execs.len() as int] == one.execs[h.execs.len() as int]);
}

}
