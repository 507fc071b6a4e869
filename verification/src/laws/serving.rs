//! Promises of the core about who serves a message, how answers are compared, and
//! what the advisor's suggestions lead to.
use vstd::prelude::*;

use crate::adjustments::{applied, directive_of, AdjustmentDirective, DirectiveModel};
use crate::advisor::{shared_words, total_words, verdict_on, DivergenceRecord};
use crate::channels::AgentHandler;
use crate::chars;
use crate::config::{routed, Routing};
use crate::laws::texts::{
    law_find_is_first_occurrence, law_replaced_character_is_gone, lemma_part, occurs, stands_at,
};
use crate::llm::{ChatCall, LlmClient, Turn};
use crate::memory::{performed, MemoryOp, MemoryStore, ProgressiveModel};
use crate::minicore::{
    adds_skill, adjustment_ops, answer_status, coach_call, context_key, counts_as_rule, log_text,
    meta_vars, other_of, prior_task, report_ops, restart_ops, rule_count, steps_setting, task_ops,
    Adjustment, IncomingMessage, MiniCore, Opening, SessionReport, ShadowRun,
};
use crate::numbers;
use crate::prompt_texts::SOUL;
use crate::prompts::{substituted, StoreModel};
use crate::session::{data_query, TraceModel};
use crate::skills::skill_index;
use crate::table::Row;
use crate::types::{AdvisorMode, AgentChoice, MessageClass, Task, TaskId, TaskStatus};

verus! {

// ---------------------------------------------------------------------------
// Who serves
// ---------------------------------------------------------------------------

/// A rule that is set for a class holds for that class and for no other; what is
/// not set is served by the primary.
pub proof fn law_rules_hold_for_their_class(
    routing: Routing,
    class: MessageClass,
    other: MessageClass,
    choice: AgentChoice,
)
    ensures
        routing.with(class, Some(choice)).rule(class) == Some(choice),
        other != class ==> routing.with(class, Some(choice)).rule(other) == routing.rule(other),
        routed(routing.with(class, Some(choice)).rule(class)) == choice,
        routed(routing.with(class, None).rule(class)) == AgentChoice::Primary,
        Routing::none().rule(class) is None,
{
}

/// Outside of training, a class is served by the model of its rule, and by the
/// primary where it has none; trial is shadowed.
pub proof fn law_rules_decide_outside_training<M: MemoryStore, L: LlmClient, A: AgentHandler>(
    core: MiniCore<M, L, A>,
    class: MessageClass,
    choice: AgentChoice,
)
    requires
        core.advisor is Some,
        core.advisor_mode != AdvisorMode::Training,
    ensures
        core.routing.rule(class) == Some(choice) ==> core.executor_of(class) == choice,
        core.routing.rule(class) is None ==> core.executor_of(class) == AgentChoice::Primary,
        core.advisor_mode == AdvisorMode::Trial ==> core.shadows(),
{
}

/// The other model is another one, and its other is the first.
pub proof fn law_other_model(who: AgentChoice)
    ensures
        other_of(who) != who,
        other_of(other_of(who)) == who,
{
}

/// A comparison puts each answer with the model that gave it: the one that served
/// and the other one.
pub proof fn law_answers_are_put_with_their_models<M: MemoryStore, L: LlmClient, A: AgentHandler>(
    pre: MiniCore<M, L, A>,
    post: MiniCore<M, L, A>,
    run: ShadowRun,
    trace: TraceModel,
    r: Option<DivergenceRecord>,
)
    requires
        MiniCore::<M, L, A>::shadowed(pre, post, run, trace, r),
    ensures
        r is None == (chars::trim(trace.output).len() == 0),
        r matches Some(record) ==> record.served_by == run.executor && record.class == run.class,
        r matches Some(record) ==> (run.executor == AgentChoice::Primary ==> record.primary@
            == run.trace.output@ && record.advisor@ == chars::trim(trace.output)),
        r matches Some(record) ==> (run.executor == AgentChoice::Advisor ==> record.advisor@
            == run.trace.output@ && record.primary@ == chars::trim(trace.output)),
        r matches Some(record) ==> record.shared == shared_words(record.primary@, record.advisor@)
            && record.total == total_words(record.primary@, record.advisor@) && record.verdict
            == verdict_on(record.shared as nat, record.total as nat),
{
}

/// A query is asked once, of the context alone; its answer is the reply without
/// white space around it.
pub proof fn law_query_is_asked_once<M: MemoryStore, L: LlmClient, A: AgentHandler>(
    pre: MiniCore<M, L, A>,
    post: MiniCore<M, L, A>,
    who: AgentChoice,
    task_id: TaskId,
    context: Seq<char>,
    record: bool,
    memory: ProgressiveModel,
    reply: Seq<char>,
    trace: TraceModel,
)
    requires
        MiniCore::<M, L, A>::what_ran(
            pre,
            post,
            who,
            task_id,
            context,
            record,
            memory,
            reply,
            trace,
        ),
    ensures
        trace.output == chars::trim(reply),
        trace.steps == 1,
        trace.execs.len() == 0,
        MiniCore::<M, L, A>::talked(
            pre,
            post,
            who,
            seq![
                ChatCall {
                    system: pre.what_system(memory),
                    messages: seq![Turn { role: "user"@, content: context }],
                    reply,
                },
            ],
        ),
{
}

/// An analysis answers with the first reply that is no search, without white space
/// around it; every reply before it was one.
pub proof fn law_analysis_answers_with_the_first_other_reply<
    M: MemoryStore,
    L: LlmClient,
    A: AgentHandler,
>(
    pre: MiniCore<M, L, A>,
    post: MiniCore<M, L, A>,
    who: AgentChoice,
    task_id: TaskId,
    context: Seq<char>,
    record: bool,
    replies: Seq<Seq<char>>,
    recalls: Seq<ProgressiveModel>,
    trace: TraceModel,
)
    requires
        MiniCore::<M, L, A>::why_ran(
            pre,
            post,
            who,
            task_id,
            context,
            record,
            replies,
            recalls,
            trace,
        ),
        replies.len() > 0,
        data_query(replies.last()) is None,
    ensures
        trace.output == chars::trim(replies.last()),
        forall|k: int| 0 <= k < replies.len() - 1 ==> data_query(#[trigger] replies[k]) is Some,
        trace.steps == replies.len(),
        recalls.len() == replies.len() - 1,
{
    if recalls.len() == replies.len() {
        assert(data_query(replies[replies.len() - 1]) is Some);
    }
}

/// An execution that answers within its steps gives that answer; it runs no
/// longer.
pub proof fn law_execution_ends_with_its_answer<M: MemoryStore, L: LlmClient, A: AgentHandler>(
    pre: MiniCore<M, L, A>,
    post: MiniCore<M, L, A>,
    who: AgentChoice,
    task_id: TaskId,
    context: Seq<char>,
    record: bool,
    subclass: Option<Seq<char>>,
    replies: Seq<Seq<char>>,
    trace: TraceModel,
    answer: Seq<char>,
)
    requires
        MiniCore::<M, L, A>::how_ran(
            pre,
            post,
            who,
            task_id,
            context,
            record,
            subclass,
            replies,
            trace,
        ),
        crate::session::how_after(
            context,
            replies,
            crate::session::results_of(trace.execs),
            replies.len(),
        ).output == Some(answer),
    ensures
        trace.output == answer,
        trace.steps == replies.len(),
        replies.len() <= pre.max_steps,
{
}

// ---------------------------------------------------------------------------
// Settings and conversations
// ---------------------------------------------------------------------------

/// A positive number sets the steps of a session; anything else leaves the
/// default.
pub proof fn law_positive_numbers_set_the_steps(n: nat)
    requires
        n <= usize::MAX,
    ensures
        n > 0 ==> steps_setting(Some(numbers::decimal(n))) == n,
        n == 0 ==> steps_setting(Some(numbers::decimal(n))) == 16,
        steps_setting(None) == 16,
{
    numbers::law_decimal_round_trip(n, usize::MAX as nat);
}

/// A message without a conversation goes on with no task, and a conversation goes
/// on with the task whose number was kept for it.
pub proof fn law_conversations_keep_their_task(cid: Seq<char>, fact: Option<Seq<char>>, n: u64)
    ensures
        prior_task(None, fact) is None,
        prior_task(Some(cid), None) is None,
        prior_task(Some(cid), Some(numbers::decimal(n as nat))) == Some(TaskId(n)),
{
    numbers::law_decimal_round_trip(n as nat, u64::MAX as nat);
}

/// Different conversations are kept apart.
pub proof fn law_conversations_are_kept_apart(a: Seq<char>, b: Seq<char>)
    requires
        a != b,
    ensures
        context_key(a) != context_key(b),
{
    let p = "ctx:"@;
    if context_key(a) == context_key(b) {
        assert(context_key(a).skip(p.len() as int) =~= a);
        assert(context_key(b).skip(p.len() as int) =~= b);
    }
}

/// A new task is created under the message, and kept for its conversation where it
/// has one; a conversation that has a task gets no other.
pub proof fn law_new_task_is_kept_for_its_conversation(
    body: Seq<char>,
    cid: Seq<char>,
    prior: TaskId,
    task: Task,
)
    ensures
        task_ops(body, Some(cid), Some(prior), task).len() == 0,
        task_ops(body, None, None, task) == seq![MemoryOp::Create { title: body, task }],
        task_ops(body, Some(cid), None, task).len() == 2,
        task_ops(body, Some(cid), None, task)[0] == (MemoryOp::Create { title: body, task }),
        task_ops(body, Some(cid), None, task)[1] == (MemoryOp::SetFact {
            key: context_key(cid),
            value: numbers::decimal(task.id.0 as nat),
        }),
{
}

/// A new conversation forgets its task before anything else and leaves a task of
/// its own that is done.
pub proof fn law_restart_forgets_first(cid: Seq<char>, task: Task)
    ensures
        restart_ops(Some(cid), task)[0] == (MemoryOp::DeleteFact { key: context_key(cid) }),
        restart_ops(Some(cid), task).last() == (MemoryOp::Status {
            id: task.id,
            status: TaskStatus::Done,
        }),
        restart_ops(None, task) == restart_ops(Some(cid), task).skip(1),
        restart_ops(None, task).len() == 4,
{
    assert(restart_ops(None, task) =~= restart_ops(Some(cid), task).skip(1));
}

/// Only an answer that starts as an error fails its task.
pub proof fn law_errors_fail_the_task(output: Seq<char>)
    ensures
        answer_status(output) == TaskStatus::Failed <==> stands_at(output, "error:"@, 0),
        answer_status(output) == TaskStatus::Failed || answer_status(output) == TaskStatus::Done,
{
    crate::laws::texts::law_prefix_stands_first(output, "error:"@);
}

// ---------------------------------------------------------------------------
// Suggestions of the advisor
// ---------------------------------------------------------------------------

/// The advisor sees everything there is to see, each part under its own name.
pub proof fn law_coach_sees_every_part(
    class: MessageClass,
    subclass: Seq<char>,
    task: Seq<char>,
    primary_output: Seq<char>,
    advisor_output: Seq<char>,
    current_prompt: Seq<char>,
    available_skills: Seq<char>,
    prior_attempts: Seq<char>,
    rubric: Seq<char>,
)
    ensures
        ({
            let vars = meta_vars(
                class,
                subclass,
                task,
                primary_output,
                advisor_output,
                current_prompt,
                available_skills,
                prior_attempts,
                rubric,
            );
            &&& vars.contains(("class"@, class.name()))
            &&& vars.contains(("subclass"@, subclass))
            &&& vars.contains(("task"@, task))
            &&& vars.contains(("primary_output"@, primary_output))
            &&& vars.contains(("advisor_output"@, advisor_output))
            &&& vars.contains(("current_prompt"@, current_prompt))
            &&& vars.contains(("available_skills"@, available_skills))
            &&& vars.contains(("prior_attempts"@, prior_attempts))
            &&& vars.contains(("rubric"@, rubric))
            &&& vars.len() == 9
        }),
{
    let vars = meta_vars(
        class,
        subclass,
        task,
        primary_output,
        advisor_output,
        current_prompt,
        available_skills,
        prior_attempts,
        rubric,
    );
    assert(vars[0] == ("class"@, class.name()));
    assert(vars[1] == ("subclass"@, subclass));
    assert(vars[2] == ("task"@, task));
    assert(vars[3] == ("primary_output"@, primary_output));
    assert(vars[4] == ("advisor_output"@, advisor_output));
    assert(vars[5] == ("current_prompt"@, current_prompt));
    assert(vars[6] == ("available_skills"@, available_skills));
    assert(vars[7] == ("prior_attempts"@, prior_attempts));
    assert(vars[8] == ("rubric"@, rubric));
}

/// What the coach is shown of a class is its whole prompt, with the rules of the
/// subclass behind it where it has any.
pub proof fn law_coach_sees_the_whole_prompt<M: MemoryStore, L: LlmClient, A: AgentHandler>(
    core: MiniCore<M, L, A>,
    class: MessageClass,
    subclass: Seq<char>,
)
    ensures
        stands_at(
            core.layered_prompt(class, subclass),
            core.prompts@.class_text(class),
            0,
        ),
        core.prompts@.overlay(class, subclass) is None ==> core.layered_prompt(class, subclass)
            == core.prompts@.class_text(class),
        core.prompts@.overlay(class, subclass) matches Some(o) ==> occurs(
            core.layered_prompt(class, subclass),
            o,
        ),
{
    let t = core.prompts@.class_text(class);
    let all = core.layered_prompt(class, subclass);
    assert(all.subrange(0, t.len() as int) =~= t);
    if let Some(o) = core.prompts@.overlay(class, subclass) {
        lemma_part(t + "\n\n[per-subclass overlay "@ + subclass + "]\n"@, o, seq![]);
        assert(t + "\n\n[per-subclass overlay "@ + subclass + "]\n"@ + o + Seq::<char>::empty()
            =~= all);
    }
}

/// A suggestion is applied at once in training only, and kept as a proposal in
/// trial; a class with its full number of rules takes no more. Where nothing was
/// suggested, or nothing that can be read, nothing changes.
pub proof fn law_suggestions_are_taken_by_mode<M: MemoryStore, L: LlmClient, A: AgentHandler>(
    pre: MiniCore<M, L, A>,
    post: MiniCore<M, L, A>,
    task_id: TaskId,
    class: MessageClass,
    reply: Seq<char>,
    a: Adjustment,
)
    requires
        MiniCore::<M, L, A>::adjusted(pre, post, task_id, class, reply, a),
    ensures
        directive_of(class, reply) is None || directive_of(class, reply) == Some(
            DirectiveModel::NoChange,
        ) ==> post.prompts@ == pre.prompts@,
        a is Applied ==> pre.advisor_mode == AdvisorMode::Training,
        a is Proposed ==> pre.advisor_mode != AdvisorMode::Training && post.prompts@.prompts
            == pre.prompts@.prompts && post.prompts@.skills == pre.prompts@.skills,
        !(a is Applied) && !(a is Proposed) ==> post.prompts@ == pre.prompts@,
        a matches Adjustment::Applied { directive, .. } ==> directive_of(class, reply) == Some(
            directive@,
        ) && post.prompts@ == applied(pre.prompts@, directive@, None),
        a matches Adjustment::Proposed { directive, .. } ==> directive_of(class, reply) == Some(
            directive@,
        ),
        rule_count(pre.prompts@.class_text(class)) >= 24 ==> post.prompts@.prompts
            == pre.prompts@.prompts,
{
}

/// A line with a number, a dot and a space counts as a rule.
pub proof fn law_rule_lines_count(n: nat, rest: Seq<char>)
    ensures
        counts_as_rule()(numbers::decimal(n) + ". "@ + rest),
{
    let d = numbers::decimal(n);
    let line = d + ". "@ + rest;
    numbers::lemma_decimal_digits(n);
    assert(line[0] == d[0]);
    chars::lemma_drop_leading_is(line, chars::CharSet::White, 0);
    assert(line.skip(0) =~= line);
    lemma_part(d, ". "@, rest);
    law_find_is_first_occurrence(line, ". "@);
}

/// What was done about a suggestion is recorded with its summary, and where it is
/// kept; nothing else is.
pub proof fn law_adjustments_are_recorded(task_id: TaskId, a: Adjustment)
    ensures
        a matches Adjustment::Applied { directive, .. } ==> (adjustment_ops(task_id, a).len() == 1
            && (adjustment_ops(task_id, a)[0] matches MemoryOp::Message { task_id: t, body, .. } && t
            == task_id && occurs(body, directive@.summary_text()))),
        a matches Adjustment::Proposed { directive, path } ==> (adjustment_ops(task_id, a).len() == 1
            && (adjustment_ops(task_id, a)[0] matches MemoryOp::Message { task_id: t, body, .. } && t
            == task_id && occurs(body, directive@.summary_text()) && occurs(body, path@))),
        !(a is Applied) && !(a is Proposed) ==> adjustment_ops(task_id, a).len() == 0,
        adds_skill(a) == (a is Applied && a->Applied_directive@ is SkillNew),
{
    match a {
        Adjustment::Applied { directive, .. } => {
            let s = directive@.summary_text();
            lemma_part("[advisor adjust applied] "@, s, seq![]);
            assert("[advisor adjust applied] "@ + s + Seq::<char>::empty()
                =~= "[advisor adjust applied] "@ + s);
        },
        Adjustment::Proposed { directive, path } => {
            let s = directive@.summary_text();
            let h = "[advisor proposal] "@;
            let m = " → "@;
            lemma_part(h, s, m + path@);
            assert(h + s + (m + path@) =~= h + s + m + path@);
            lemma_part(h + s + m, path@, seq![]);
            assert(h + s + m + path@ + Seq::<char>::empty() =~= h + s + m + path@);
        },
        _ => {},
    }
}

/// A text in the log stands on one line, whole where it is short.
pub proof fn law_log_text_stands_on_one_line(s: Seq<char>, max: nat)
    ensures
        !log_text(s, max).contains('\n'),
        chars::byte_len(s) <= max && !s.contains('\n') ==> log_text(s, max) == s,
{
    reveal_strlit("↵");
    reveal_strlit("…");
    law_replaced_character_is_gone(s, '\n', "↵"@);
    let p = chars::prefix_within(s, max);
    law_replaced_character_is_gone(p, '\n', "↵"@);
    let r = log_text(s, max);
    if r.contains('\n') {
        let i = r.index_of('\n');
        let a = chars::replace_char(p, '\n', "↵"@);
        if chars::byte_len(s) > max {
            if i < a.len() {
                assert(a[i] == '\n');
            } else {
                assert("…"@[i - a.len()] == '\n');
            }
        }
    }
}

/// After a divergence the coach sees both answers, each under its own name, what
/// was asked, the prompt of the class and the skills.
pub proof fn law_coach_is_asked_about_the_divergence<
    M: MemoryStore,
    L: LlmClient,
    A: AgentHandler,
>(
    core: MiniCore<M, L, A>,
    context: Seq<char>,
    class: MessageClass,
    primary: Seq<char>,
    advisor: Seq<char>,
) -> (vars: Seq<Row>)
    ensures
        core.divergence_meta(context, class, primary, advisor) == substituted(
            core.prompts@.adjust_meta(),
            vars,
        ),
        vars.len() == 9,
        vars[0] == ("class"@, class.name()),
        vars[2] == ("task"@, context),
        vars[3] == ("primary_output"@, primary),
        vars[4] == ("advisor_output"@, advisor),
        vars[5] == ("current_prompt"@, core.prompts@.class_text(class)),
        vars[6] == ("available_skills"@, skill_index(core.skills@)),
{
    let unused = "(not used in legacy advisor mode)"@;
    meta_vars(
        class,
        unused,
        context,
        primary,
        advisor,
        core.prompts@.class_text(class),
        skill_index(core.skills@),
        unused,
        "(not used in legacy advisor mode — train command provides rubric)"@,
    )
}

/// In training the coach sees the case, both answers, the prompt with the rules of
/// the subclass, the skills, the attempts and the rubric, each under its own name.
pub proof fn law_coach_is_asked_about_the_case<M: MemoryStore, L: LlmClient, A: AgentHandler>(
    core: MiniCore<M, L, A>,
    task: Seq<char>,
    primary: Seq<char>,
    advisor: Seq<char>,
    class: MessageClass,
    subclass: Seq<char>,
    attempts: Seq<char>,
    rubric: Seq<char>,
) -> (vars: Seq<Row>)
    ensures
        core.training_meta(task, primary, advisor, class, subclass, attempts, rubric)
            == substituted(core.prompts@.adjust_meta(), vars),
        vars.len() == 9,
        vars[0] == ("class"@, class.name()),
        vars[1] == ("subclass"@, subclass),
        vars[2] == ("task"@, task),
        vars[3] == ("primary_output"@, primary),
        vars[4] == ("advisor_output"@, advisor),
        vars[5] == ("current_prompt"@, core.layered_prompt(class, subclass)),
        vars[6] == ("available_skills"@, skill_index(core.skills@)),
        vars[7] == ("prior_attempts"@, attempts),
        vars[8] == ("rubric"@, rubric),
{
    meta_vars(
        class,
        subclass,
        task,
        primary,
        advisor,
        core.layered_prompt(class, subclass),
        skill_index(core.skills@),
        attempts,
        rubric,
    )
}

/// The coach gets its instructions as one message of the user.
pub proof fn law_coach_gets_one_message(meta: Seq<char>, reply: Seq<char>)
    ensures
        coach_call(meta, reply).messages == seq![Turn { role: "user"@, content: meta }],
        coach_call(meta, reply).reply == reply,
{
}

/// The prompts of sessions know the machine, the workspace and the skills where
/// something is executed, and what memory holds where something is recalled.
pub proof fn law_prompts_know_their_surroundings<M: MemoryStore, L: LlmClient, A: AgentHandler>(
    core: MiniCore<M, L, A>,
    subclass: Option<Seq<char>>,
    memory: ProgressiveModel,
) -> (r: (Seq<Row>, Seq<Row>))
    ensures
        core.how_system(subclass) == core.prompts@.rendered_with(
            MessageClass::MiniHow,
            subclass,
            r.0,
        ),
        r.0.contains(("os"@, core.os_info@)),
        r.0.contains(("workspace"@, core.tools.policy.workspace@)),
        r.0.contains(("skills"@, skill_index(core.skills@))),
        core.what_system(memory) == core.prompts@.rendered(MessageClass::MiniWhat, r.1),
        r.1.contains(("memory"@, memory.rendered())),
{
    let a = seq![
        ("soul"@, SOUL@),
        ("os"@, core.os_info@),
        ("workspace"@, core.tools.policy.workspace@),
        ("skills"@, skill_index(core.skills@)),
    ];
    let b = seq![("soul"@, SOUL@), ("memory"@, memory.rendered())];
    assert(a[1] == ("os"@, core.os_info@));
    assert(a[2] == ("workspace"@, core.tools.policy.workspace@));
    assert(a[3] == ("skills"@, skill_index(core.skills@)));
    assert(b[1] == ("memory"@, memory.rendered()));
    (a, b)
}

/// A session that is not shadowed serves the message with the model of its class,
/// on the context that was read, and reports what that gave.
pub proof fn law_report_is_of_the_serving_model<M: MemoryStore, L: LlmClient, A: AgentHandler>(
    pre: MiniCore<M, L, A>,
    post: MiniCore<M, L, A>,
    msg: IncomingMessage,
    report: SessionReport,
    w: Opening,
    opened: MiniCore<M, L, A>,
    ran: MiniCore<M, L, A>,
    context: Seq<char>,
    trace: TraceModel,
)
    requires
        MiniCore::<M, L, A>::served(pre, post, msg, report, w, opened, ran, context, trace),
    ensures
        report.output@ == trace.output,
        report.steps == trace.steps,
        MiniCore::<M, L, A>::session_ran(
            opened,
            ran,
            opened.executor_of(report.class),
            report.class,
            report.task_id,
            context,
            true,
            chars::opt_text(msg.subclass),
            trace,
        ),
        performed(ran.memory, report_ops(report.task_id, report.output@), post.memory),
{
}

}
