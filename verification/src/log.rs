//! The log of sessions: one line for every message that is taken up, every
//! command that is carried out, and every end of a session.
use vstd::prelude::*;

use crate::advisor::DivergenceRecord;
use crate::chars;
use crate::chars::CharSet;
use crate::cli::{complain, line_models, say, Line, LineModel};
use crate::foreign;
use crate::foreign::debug_quoted;
use crate::llm::{turns, ChatMessage, Turn};
use crate::memory::ProgressiveModel;
use crate::minicore::{
    addressed, is_addressed, resolve_skill_invocation, resolved, Adjustment,
};
use crate::numbers;
use crate::session::{
    after_directives, after_reply, data_query, directives, how_after, refused_query, turn_start,
    ExecModel, ExecRecord, TurnModel,
};
use crate::session::{
    lemma_results_prefix, lemma_session_execs_grow, lemma_session_prefix,
};
use crate::skills::{SkillModel, SkillRegistry};
use crate::text;
use crate::types::{AdvisorMode, AgentChoice, MessageClass, TaskId};

verus! {

/// How many bytes of a result the log shows.
pub const LOG_RESULT_BYTES: usize = 120;

// ---------------------------------------------------------------------------
// Messages
// ---------------------------------------------------------------------------

/// The lines for a message that is taken up: whether a skill decided its class,
/// and how it is served.
pub open spec fn opening_lines(
    picked: MessageClass,
    class: MessageClass,
    task_id: TaskId,
    source: Seq<char>,
    resumed: bool,
    mode: AdvisorMode,
    executor: AgentChoice,
) -> Seq<LineModel> {
    (if picked != class {
        seq![
            LineModel::Printed("classify class="@ + class.name() + " (skill-override)"@),
        ]
    } else {
        seq![]
    }).push(
        LineModel::Printed(
            "minicore task="@ + task_id.name() + " class="@ + class.name() + " source="@ + source
                + " resumed="@ + chars::bool_text(resumed) + " mode="@ + mode.name()
                + " executor="@ + executor.name(),
        ),
    )
}

/// Logs that a message is taken up.
pub fn log_opening(
    log: &mut Vec<Line>,
    picked: MessageClass,
    class: MessageClass,
    task_id: TaskId,
    source: &str,
    resumed: bool,
    mode: AdvisorMode,
    executor: AgentChoice,
)
    ensures
        line_models(final(log)@) == line_models(old(log)@) + opening_lines(
            picked,
            class,
            task_id,
            source@,
            resumed,
            mode,
            executor,
        ),
{
    let ghost before = line_models(log@);
    if picked != class {
        let mut line = "classify class=".to_owned();
        line.append(class.label());
        line.append(" (skill-override)");
        say(log, line);
    }
    let mut line = "minicore task=".to_owned();
    line.append(task_id.label().as_str());
    line.append(" class=");
    line.append(class.label());
    line.append(" source=");
    line.append(source);
    line.append(" resumed=");
    line.append(text::bool_text(resumed));
    line.append(" mode=");
    line.append(mode.label());
    line.append(" executor=");
    line.append(executor.label());
    say(log, line);
    assert(line_models(log@) =~= before + opening_lines(
        picked,
        class,
        task_id,
        source@,
        resumed,
        mode,
        executor,
    ));
}

// ---------------------------------------------------------------------------
// Execution sessions
// ---------------------------------------------------------------------------

/// The word in front of an execution session's lines. That of a shadow is
/// another one, so that its commands are not taken for the served session's.
pub open spec fn tag(record: bool) -> Seq<char> {
    if record {
        "minihow"@
    } else {
        "shadow"@
    }
}

/// The first word of a command.
pub open spec fn head_word(command: Seq<char>) -> Seq<char> {
    let t = chars::trim(command);
    t.take(chars::until(t, CharSet::White) as int)
}

/// The line for a command that starts with the name of a skill.
pub open spec fn skill_lines(skills: Seq<SkillModel>, command: Seq<char>) -> Seq<LineModel> {
    match (addressed(command), resolved(skills, command)) {
        (None, Some(target)) => seq![
            LineModel::Printed(
                "minicore skill-resolve from="@ + debug_quoted(head_word(command)) + " to="@
                    + debug_quoted(target),
            ),
        ],
        _ => seq![],
    }
}

/// The line for a command. A shadow's shows nothing of the result.
pub open spec fn step_line(record: bool, step: nat, e: ExecModel) -> LineModel {
    let line = tag(record) + " step="@ + numbers::decimal(step) + " exec="@ + debug_quoted(e.cmd)
        + " ok="@ + chars::bool_text(e.ok);
    LineModel::Printed(
        if record {
            line + " out="@ + debug_quoted(chars::prefix_within(e.result, LOG_RESULT_BYTES as nat))
        } else {
            line
        },
    )
}

/// The lines for the commands of one reply.
pub open spec fn step_lines(
    skills: Seq<SkillModel>,
    record: bool,
    step: nat,
    execs: Seq<ExecModel>,
) -> Seq<LineModel>
    decreases execs.len(),
{
    if execs.len() == 0 {
        seq![]
    } else {
        step_lines(skills, record, step, execs.drop_last()) + skill_lines(
            skills,
            execs.last().cmd,
        ).push(step_line(record, step, execs.last()))
    }
}

/// The line that says how a session ended.
pub open spec fn end_line(who: Seq<char>, how: Seq<char>, id: TaskId, steps: nat) -> LineModel {
    LineModel::Printed(
        who + " "@ + how + " task="@ + id.name() + " steps="@ + numbers::decimal(steps),
    )
}

/// The line for a session that runs out of steps.
pub open spec fn limit_line(who: Seq<char>, id: TaskId) -> LineModel {
    LineModel::Complaint(who + " step-limit task="@ + id.name())
}

/// The line for the end that a reply brings, where it brings one. A command that
/// repeats the one before it ends the session without a line.
pub open spec fn turn_end_lines(
    record: bool,
    id: TaskId,
    directives: nat,
    t: TurnModel,
    step: nat,
) -> Seq<LineModel> {
    if directives == 0 {
        seq![end_line(tag(record), "free-form"@, id, step)]
    } else if t.done is Some {
        if t.told {
            seq![end_line(tag(record), "done"@, id, step)]
        } else {
            seq![]
        }
    } else if t.combined.len() == 0 {
        seq![end_line(tag(record), "no-exec"@, id, step)]
    } else {
        seq![]
    }
}

/// The lines for the first `n` replies of an execution session.
pub open spec fn how_log(
    skills: Seq<SkillModel>,
    record: bool,
    id: TaskId,
    first: Seq<char>,
    replies: Seq<Seq<char>>,
    results: Seq<Seq<char>>,
    n: nat,
) -> Seq<LineModel>
    decreases n,
{
    if n == 0 {
        seq![]
    } else {
        let k = (n - 1) as nat;
        let h = how_after(first, replies, results, k);
        let after = after_reply(h, replies[n - 1], results);
        let ds = directives(replies[n - 1]);
        let t = after_directives(turn_start(h), replies[n - 1], ds, results, ds.len());
        how_log(skills, record, id, first, replies, results, k) + step_lines(
            skills,
            record,
            n,
            after.execs.skip(h.execs.len() as int),
        ) + turn_end_lines(record, id, ds.len(), t, n)
    }
}

/// The same replies give the same lines whatever results follow the ones that
/// were used.
pub proof fn lemma_log_prefix(
    skills: Seq<SkillModel>,
    record: bool,
    id: TaskId,
    first: Seq<char>,
    replies: Seq<Seq<char>>,
    more: Seq<Seq<char>>,
    a: Seq<Seq<char>>,
    b: Seq<Seq<char>>,
    n: nat,
)
    requires
        n <= replies.len() <= more.len(),
        more.take(replies.len() as int) == replies,
        how_after(first, replies, a, n).execs.len() <= a.len() <= b.len(),
        b.take(a.len() as int) == a,
    ensures
        how_log(skills, record, id, first, replies, a, n) == how_log(
            skills,
            record,
            id,
            first,
            more,
            b,
            n,
        ),
    decreases n,
{
    if n > 0 {
        let k = (n - 1) as nat;
        let h = how_after(first, replies, a, k);
        let reply = replies[n - 1];
        let ds = directives(reply);
        assert(more.take(replies.len() as int)[n - 1] == more[n - 1]);
        lemma_session_execs_grow(first, replies, a, k, n);
        lemma_log_prefix(skills, record, id, first, replies, more, a, b, k);
        lemma_session_prefix(first, replies, more, a, b, k);
        lemma_session_prefix(first, replies, more, a, b, n);
        if ds.len() > 0 {
            lemma_results_prefix(turn_start(h), reply, ds, a, b, ds.len());
        }
    }
}

/// Lines added in three steps are the lines of the steps one after the other.
pub proof fn lemma_lines_join(
    x: Seq<LineModel>,
    a: Seq<LineModel>,
    b: Seq<LineModel>,
    c: Seq<LineModel>,
)
    ensures
        x + a + b + c == x + (a + b + c),
        x + (a + b + c) == x + ((a + b + c) + Seq::<LineModel>::empty()),
{
    assert(x + a + b + c =~= x + (a + b + c));
    assert((a + b + c) + Seq::<LineModel>::empty() =~= a + b + c);
}

/// The line does not start with the word of a served session.
pub open spec fn told_apart(line: LineModel) -> bool {
    match line {
        LineModel::Printed(t) => !chars::starts_with(t, "minihow"@),
        LineModel::Complaint(t) => !chars::starts_with(t, "minihow"@),
    }
}

proof fn lemma_start_apart(t: Seq<char>, n: int)
    requires
        0 <= n < "minihow"@.len(),
        n < t.len(),
        t[n] != "minihow"@[n],
    ensures
        !chars::starts_with(t, "minihow"@),
{
    if chars::starts_with(t, "minihow"@) {
        assert(t.take("minihow"@.len() as int)[n] == t[n]);
    }
}

proof fn lemma_steps_apart(
    skills: Seq<SkillModel>,
    step: nat,
    execs: Seq<ExecModel>,
)
    ensures
        forall|i: int|
            0 <= i < step_lines(skills, false, step, execs).len() ==> told_apart(
                #[trigger] step_lines(skills, false, step, execs)[i],
            ),
    decreases execs.len(),
{
    if execs.len() > 0 {
        lemma_steps_apart(skills, step, execs.drop_last());
        let e = execs.last();
        let more = skill_lines(skills, e.cmd).push(step_line(false, step, e));
        reveal_strlit("minihow");
        reveal_strlit("shadow");
        reveal_strlit("minicore skill-resolve from=");
        assert forall|i: int| 0 <= i < more.len() implies told_apart(#[trigger] more[i]) by {
            let t = more[i]->Printed_0;
            if i == more.len() - 1 {
                assert(t[0] == 's');
                lemma_start_apart(t, 0);
            } else {
                assert(t[4] == 'c');
                lemma_start_apart(t, 4);
            }
        }
        let before = step_lines(skills, false, step, execs.drop_last());
        let all = step_lines(skills, false, step, execs);
        assert(all == before + more);
        assert forall|i: int| 0 <= i < all.len() implies told_apart(#[trigger] all[i]) by {
            if i < before.len() {
                assert(all[i] == before[i]);
            } else {
                assert(all[i] == more[i - before.len()]);
            }
        }
    }
}

/// No line of a session that only shadows another one starts as the lines of
/// served sessions do, whatever the model replies.
pub proof fn law_shadow_lines_are_told_apart(
    skills: Seq<SkillModel>,
    id: TaskId,
    first: Seq<char>,
    replies: Seq<Seq<char>>,
    results: Seq<Seq<char>>,
    n: nat,
)
    ensures
        forall|i: int|
            0 <= i < how_log(skills, false, id, first, replies, results, n).len() ==> told_apart(
                #[trigger] how_log(skills, false, id, first, replies, results, n)[i],
            ),
        told_apart(limit_line(tag(false), id)),
    decreases n,
{
    reveal_strlit("minihow");
    reveal_strlit("shadow");
    let limit = limit_line(tag(false), id)->Complaint_0;
    assert(limit[0] == 's');
    lemma_start_apart(limit, 0);
    if n > 0 {
        let k = (n - 1) as nat;
        law_shadow_lines_are_told_apart(skills, id, first, replies, results, k);
        let h = how_after(first, replies, results, k);
        let after = after_reply(h, replies[n - 1], results);
        let ds = directives(replies[n - 1]);
        let t = after_directives(turn_start(h), replies[n - 1], ds, results, ds.len());
        let execs = after.execs.skip(h.execs.len() as int);
        lemma_steps_apart(skills, n, execs);
        let before = how_log(skills, false, id, first, replies, results, k);
        let steps = step_lines(skills, false, n, execs);
        let end = turn_end_lines(false, id, ds.len(), t, n);
        assert forall|i: int| 0 <= i < end.len() implies told_apart(#[trigger] end[i]) by {
            let line = end[i]->Printed_0;
            assert(line[0] == 's');
            lemma_start_apart(line, 0);
        }
        let all = how_log(skills, false, id, first, replies, results, n);
        assert(all == before + steps + end);
        assert forall|i: int| 0 <= i < all.len() implies told_apart(#[trigger] all[i]) by {
            if i < before.len() {
                assert(all[i] == before[i]);
            } else if i < before.len() + steps.len() {
                assert(all[i] == steps[i - before.len()]);
            } else {
                assert(all[i] == end[i - before.len() - steps.len()]);
            }
        }
    }
}

fn tag_of(record: bool) -> (r: &'static str)
    ensures
        r@ == tag(record),
{
    if record {
        "minihow"
    } else {
        "shadow"
    }
}

/// The line for a command that starts with the name of a skill.
pub fn skill_note(skills: &SkillRegistry, command: &str) -> (r: Option<Line>)
    ensures
        match r {
            Some(line) => skill_lines(skills@, command@) == seq![line@],
            None => skill_lines(skills@, command@).len() == 0,
        },
{
    if is_addressed(command) {
        return None;
    }
    match resolve_skill_invocation(skills, command) {
        Some(target) => {
            let t = text::trim(command);
            let v = text::chars_of(t);
            let i: usize = text::until(&v, 0, CharSet::White);
            proof {
                assert(t@.skip(0) =~= t@);
                chars::lemma_until(t@, CharSet::White);
            }
            let head = t.substring_char(0, i);
            assert(head@ =~= head_word(command@));
            let mut line = "minicore skill-resolve from=".to_owned();
            line.append(foreign::debug_text(head).as_str());
            line.append(" to=");
            line.append(foreign::debug_text(target.as_str()).as_str());
            Some(Line::Printed(line))
        },
        None => None,
    }
}

/// Logs a command that was carried out.
pub fn log_step(
    log: &mut Vec<Line>,
    skills: &SkillRegistry,
    record: bool,
    step: usize,
    e: &ExecRecord,
)
    ensures
        line_models(final(log)@) == line_models(old(log)@) + skill_lines(skills@, e.cmd@).push(
            step_line(record, step as nat, e@),
        ),
{
    let ghost before = line_models(log@);
    match skill_note(skills, e.cmd.as_str()) {
        Some(line) => {
            let ghost x = line@;
            log.push(line);
            assert(line_models(log@) =~= before.push(x));
        },
        None => {},
    }
    let mut line = tag_of(record).to_owned();
    line.append(" step=");
    line.append(numbers::usize_text(step).as_str());
    line.append(" exec=");
    line.append(foreign::debug_text(e.cmd.as_str()).as_str());
    line.append(" ok=");
    line.append(text::bool_text(e.ok));
    if record {
        line.append(" out=");
        line.append(
            foreign::debug_text(text::prefix_within(e.result.as_str(), LOG_RESULT_BYTES)).as_str(),
        );
    }
    say(log, line);
    assert(line_models(log@) =~= before + skill_lines(skills@, e.cmd@).push(
        step_line(record, step as nat, e@),
    ));
}

/// Logs how a session ended.
pub fn log_end(log: &mut Vec<Line>, who: &str, how: &str, id: TaskId, steps: usize)
    ensures
        line_models(final(log)@) == line_models(old(log)@).push(
            end_line(who@, how@, id, steps as nat),
        ),
{
    let mut line = who.to_owned();
    line.append(" ");
    line.append(how);
    line.append(" task=");
    line.append(id.label().as_str());
    line.append(" steps=");
    line.append(numbers::usize_text(steps).as_str());
    say(log, line);
}

/// Logs how an execution session ended.
pub fn log_how_end(log: &mut Vec<Line>, record: bool, how: &str, id: TaskId, steps: usize)
    ensures
        line_models(final(log)@) == line_models(old(log)@).push(
            end_line(tag(record), how@, id, steps as nat),
        ),
{
    log_end(log, tag_of(record), how, id, steps);
}

fn log_limit(log: &mut Vec<Line>, who: &str, id: TaskId)
    ensures
        line_models(final(log)@) == line_models(old(log)@).push(limit_line(who@, id)),
{
    let mut line = who.to_owned();
    line.append(" step-limit task=");
    line.append(id.label().as_str());
    complain(log, line);
}

/// Logs that an execution session ran out of steps.
pub fn log_how_limit(log: &mut Vec<Line>, record: bool, id: TaskId)
    ensures
        line_models(final(log)@) == line_models(old(log)@).push(limit_line(tag(record), id)),
{
    log_limit(log, tag_of(record), id);
}

// ---------------------------------------------------------------------------
// Analysis and query sessions
// ---------------------------------------------------------------------------

/// The line for a reply that an analysis session asks for.
pub open spec fn why_step_line(id: TaskId, step: nat) -> LineModel {
    LineModel::Printed("miniwhy step="@ + numbers::decimal(step) + " task="@ + id.name())
}

/// The line for a search.
pub open spec fn search_line(id: TaskId, query: Seq<char>, data: Seq<char>) -> LineModel {
    LineModel::Printed(
        "miniwhy data-fetch task="@ + id.name() + " query="@ + debug_quoted(query) + " bytes="@
            + numbers::decimal(chars::byte_len(data)),
    )
}

/// The lines for the end of an analysis session by an answer, which may hold a
/// search that is refused.
pub open spec fn why_end_line(id: TaskId, reply: Seq<char>, steps: nat) -> LineModel {
    match refused_query(reply) {
        Some(query) => LineModel::Printed(
            "miniwhy data-rejected task="@ + id.name() + " query="@ + debug_quoted(query),
        ),
        None => end_line("miniwhy"@, "done"@, id, steps),
    }
}

/// The lines for the first `n` replies of an analysis session.
pub open spec fn why_log(
    id: TaskId,
    replies: Seq<Seq<char>>,
    recalls: Seq<ProgressiveModel>,
    n: nat,
) -> Seq<LineModel>
    decreases n,
{
    if n == 0 {
        seq![]
    } else {
        let k = n - 1;
        why_log(id, replies, recalls, k as nat).push(why_step_line(id, n)).push(
            match data_query(replies[k]) {
                Some(query) => search_line(id, query, recalls[k].rendered()),
                None => why_end_line(id, replies[k], n),
            },
        )
    }
}

/// The same replies and searches give the same lines whatever follows them.
pub proof fn lemma_why_log_prefix(
    id: TaskId,
    replies: Seq<Seq<char>>,
    more: Seq<Seq<char>>,
    recalls: Seq<ProgressiveModel>,
    found: Seq<ProgressiveModel>,
    n: nat,
)
    requires
        n <= replies.len() <= more.len(),
        n <= recalls.len() <= found.len(),
        more.take(replies.len() as int) == replies,
        found.take(recalls.len() as int) == recalls,
    ensures
        why_log(id, replies, recalls, n) == why_log(id, more, found, n),
    decreases n,
{
    if n > 0 {
        lemma_why_log_prefix(id, replies, more, recalls, found, (n - 1) as nat);
        assert(more.take(replies.len() as int)[n - 1] == more[n - 1]);
        assert(found.take(recalls.len() as int)[n - 1] == found[n - 1]);
    }
}

/// Logs that an analysis session asks for a reply.
pub fn log_why_step(log: &mut Vec<Line>, id: TaskId, step: usize)
    ensures
        line_models(final(log)@) == line_models(old(log)@).push(why_step_line(id, step as nat)),
{
    let mut line = "miniwhy step=".to_owned();
    line.append(numbers::usize_text(step).as_str());
    line.append(" task=");
    line.append(id.label().as_str());
    say(log, line);
}

/// Logs a search.
pub fn log_search(log: &mut Vec<Line>, id: TaskId, query: &str, data: &str)
    ensures
        line_models(final(log)@) == line_models(old(log)@).push(search_line(id, query@, data@)),
{
    let mut line = "miniwhy data-fetch task=".to_owned();
    line.append(id.label().as_str());
    line.append(" query=");
    line.append(foreign::debug_text(query).as_str());
    line.append(" bytes=");
    line.append(numbers::usize_text(text::byte_len(data)).as_str());
    say(log, line);
}

/// Logs the end of an analysis session by an answer.
pub fn log_why_end(log: &mut Vec<Line>, id: TaskId, reply: &str, steps: usize)
    ensures
        line_models(final(log)@) == line_models(old(log)@).push(
            why_end_line(id, reply@, steps as nat),
        ),
{
    match crate::session::refused_data(reply) {
        Some(query) => {
            let mut line = "miniwhy data-rejected task=".to_owned();
            line.append(id.label().as_str());
            line.append(" query=");
            line.append(foreign::debug_text(query.as_str()).as_str());
            say(log, line);
        },
        None => {
            log_end(log, "miniwhy", "done", id, steps);
        },
    }
}

/// Logs that an analysis session ran out of steps.
pub fn log_why_limit(log: &mut Vec<Line>, id: TaskId)
    ensures
        line_models(final(log)@) == line_models(old(log)@).push(limit_line("miniwhy"@, id)),
{
    log_limit(log, "miniwhy", id);
}

/// The line for a query session.
pub open spec fn what_line(id: TaskId) -> LineModel {
    LineModel::Printed("miniwhat task="@ + id.name())
}

/// Logs a query session.
pub fn log_what(log: &mut Vec<Line>, id: TaskId)
    ensures
        line_models(final(log)@) == line_models(old(log)@).push(what_line(id)),
{
    say(log, "miniwhat task=".to_owned().concat(id.label().as_str()));
}

// ---------------------------------------------------------------------------
// The advisor
// ---------------------------------------------------------------------------

/// The line for two answers that were compared.
pub open spec fn divergence_text(
    id: TaskId,
    record: DivergenceRecord,
    similarity: Seq<char>,
) -> Seq<char> {
    "advisor divergence task="@ + id.name() + " class="@ + record.class.name() + " verdict="@
        + record.verdict.name() + " similarity="@ + similarity
}

/// The line for two answers that were compared, with their similarity as a
/// decimal.
pub fn divergence_line(id: TaskId, record: &DivergenceRecord, similarity: &str) -> (r: Line)
    ensures
        r@ == LineModel::Printed(divergence_text(id, *record, similarity@)),
{
    let mut line = "advisor divergence task=".to_owned();
    line.append(id.label().as_str());
    line.append(" class=");
    line.append(record.class.label());
    line.append(" verdict=");
    line.append(record.verdict.label());
    line.append(" similarity=");
    line.append(similarity);
    Line::Printed(line)
}

/// What is told of an adjustment, where the advisor was asked for one.
pub open spec fn adjustment_text(
    id: TaskId,
    class: MessageClass,
    a: Adjustment,
) -> Option<Seq<char>> {
    let head = "advisor adjust task="@ + id.name();
    match a {
        Adjustment::Skipped => None,
        Adjustment::Unparsed(raw) => Some(
            head + " class="@ + class.name() + " parsed=none raw="@ + debug_quoted(raw@),
        ),
        Adjustment::NoChange => Some(head + " class="@ + class.name() + " kind=no-change"@),
        Adjustment::RuleCap => Some(
            head + " class="@ + class.name() + " skipped: rule cap reached"@,
        ),
        Adjustment::Applied { outcome, .. } => Some(head + " mode=training applied: "@ + outcome@),
        Adjustment::Proposed { path, .. } => Some(head + " mode=trial proposal="@ + path@),
    }
}

/// The line for an adjustment, where the advisor was asked for one.
pub fn adjustment_line(id: TaskId, class: MessageClass, a: &Adjustment) -> (r: Option<Line>)
    ensures
        match r {
            Some(line) => adjustment_text(id, class, *a) matches Some(t) && line@
                == LineModel::Printed(t),
            None => adjustment_text(id, class, *a) is None,
        },
{
    let mut line = "advisor adjust task=".to_owned();
    line.append(id.label().as_str());
    match a {
        Adjustment::Skipped => {
            return None;
        },
        Adjustment::Unparsed(raw) => {
            line.append(" class=");
            line.append(class.label());
            line.append(" parsed=none raw=");
            line.append(foreign::debug_text(raw.as_str()).as_str());
        },
        Adjustment::NoChange => {
            line.append(" class=");
            line.append(class.label());
            line.append(" kind=no-change");
        },
        Adjustment::RuleCap => {
            line.append(" class=");
            line.append(class.label());
            line.append(" skipped: rule cap reached");
        },
        Adjustment::Applied { directive: _, outcome } => {
            line.append(" mode=training applied: ");
            line.append(outcome.as_str());
        },
        Adjustment::Proposed { directive: _, path } => {
            line.append(" mode=trial proposal=");
            line.append(path.as_str());
        },
    }
    Some(Line::Printed(line))
}

// ---------------------------------------------------------------------------
// Models
// ---------------------------------------------------------------------------

/// A text on one line, with its line breaks marked.
pub open spec fn marked(s: Seq<char>) -> Seq<char> {
    chars::replace_char(s, '\n', "↵"@)
}

/// The line for a request to a model: how many messages it holds, the system
/// prompt among them, and the beginning of the last one.
pub open spec fn request_text(system: Seq<char>, messages: Seq<Turn>) -> Seq<char> {
    let last = if messages.len() > 0 {
        messages.last().content
    } else {
        ""@
    };
    let count = if system.len() > 0 {
        messages.len() + 1
    } else {
        messages.len()
    };
    "llm >> ("@ + numbers::decimal(count) + " msgs, "@ + numbers::decimal(chars::byte_len(last))
        + " chars) "@ + chars::prefix_within(marked(last), 300)
}

/// The line for a request to a model.
pub fn request_line(system: &str, messages: &[ChatMessage]) -> (r: String)
    requires
        messages@.len() < usize::MAX,
    ensures
        r@ == request_text(system@, turns(messages@)),
{
    let last = if messages.len() > 0 {
        assert(turns(messages@).last() == messages@.last()@);
        messages[messages.len() - 1].content.as_str()
    } else {
        ""
    };
    let count: usize = if system.unicode_len() > 0 {
        messages.len() + 1
    } else {
        messages.len()
    };
    let mut line = "llm >> (".to_owned();
    line.append(numbers::usize_text(count).as_str());
    line.append(" msgs, ");
    line.append(numbers::usize_text(text::byte_len(last)).as_str());
    line.append(" chars) ");
    line.append(text::prefix_within(text::replace_char(last, '\n', "↵").as_str(), 300));
    line
}

/// The line for the response of a server: its length and its beginning.
pub fn response_line(response: &str) -> (r: String)
    ensures
        r@ == "llm << raw ("@ + numbers::decimal(chars::byte_len(response@)) + " chars) "@
            + chars::prefix_within(marked(response@), 500),
{
    let mut line = "llm << raw (".to_owned();
    line.append(numbers::usize_text(text::byte_len(response)).as_str());
    line.append(" chars) ");
    line.append(text::prefix_within(text::replace_char(response, '\n', "↵").as_str(), 500));
    line
}

/// The line for what a model said.
pub fn content_line(content: &str) -> (r: String)
    ensures
        r@ == "llm << content: "@ + marked(content@),
{
    "llm << content: ".to_owned().concat(text::replace_char(content, '\n', "↵").as_str())
}

}
