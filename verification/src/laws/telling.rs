//! Promises of the reports of a training and of the log.
use vstd::prelude::*;

use crate::advisor::DivergenceRecord;
use crate::chars;
use crate::cli::LineModel;
use crate::json;
use crate::laws::running::lemma_four;
use crate::laws::terminal::said;
use crate::laws::texts::{
    law_joined_parts_stand_in_whole, law_occurrence_carries_over, law_replaced_character_is_gone,
    lemma_concat_part, lemma_part, lemma_within, occurs, stands_at,
};
use crate::llm::Turn;
use crate::log::{
    adjustment_text, divergence_text, end_line, limit_line, marked, opening_lines, request_text,
    search_line, step_line, step_lines, tag, what_line, why_end_line, why_log, why_step_line,
};
use crate::memory::ProgressiveModel;
use crate::minicore::Adjustment;
use crate::numbers;
use crate::rubric::CaseModel;
use crate::session::{data_query, ExecModel};
use crate::skills::SkillModel;
use crate::train::{
    counts_text, listed_or_none, outcome_models, pointed, record_line, records_text,
    report_escape_char, report_escaped, rubric_text, summary_row, summary_text, OutcomeModel,
    TrainingReport,
};
use crate::types::{AdvisorMode, AgentChoice, MessageClass, TaskId};

verus! {

// ---------------------------------------------------------------------------
// Reports
// ---------------------------------------------------------------------------

proof fn lemma_six(
    p1: Seq<char>,
    s1: Seq<char>,
    p2: Seq<char>,
    s2: Seq<char>,
    p3: Seq<char>,
    s3: Seq<char>,
    p4: Seq<char>,
    s4: Seq<char>,
    p5: Seq<char>,
    s5: Seq<char>,
    p6: Seq<char>,
    s6: Seq<char>,
    p7: Seq<char>,
)
    ensures
        occurs(p1 + s1 + p2 + s2 + p3 + s3 + p4 + s4 + p5 + s5 + p6 + s6 + p7, s1),
        occurs(p1 + s1 + p2 + s2 + p3 + s3 + p4 + s4 + p5 + s5 + p6 + s6 + p7, s2),
        occurs(p1 + s1 + p2 + s2 + p3 + s3 + p4 + s4 + p5 + s5 + p6 + s6 + p7, s3),
        occurs(p1 + s1 + p2 + s2 + p3 + s3 + p4 + s4 + p5 + s5 + p6 + s6 + p7, s4),
        occurs(p1 + s1 + p2 + s2 + p3 + s3 + p4 + s4 + p5 + s5 + p6 + s6 + p7, s5),
        occurs(p1 + s1 + p2 + s2 + p3 + s3 + p4 + s4 + p5 + s5 + p6 + s6 + p7, s6),
{
    let all = p1 + s1 + p2 + s2 + p3 + s3 + p4 + s4 + p5 + s5 + p6 + s6 + p7;
    let end = p5 + s5 + p6 + s6 + p7;
    lemma_four(p1, s1, p2, s2, p3, s3, p4, s4, end);
    assert(p1 + s1 + p2 + s2 + p3 + s3 + p4 + s4 + end =~= all);
    let head = p1 + s1 + p2 + s2 + p3 + s3 + p4 + s4;
    lemma_part(head + p5, s5, p6 + s6 + p7);
    assert(head + p5 + s5 + (p6 + s6 + p7) =~= all);
    lemma_part(head + p5 + s5 + p6, s6, p7);
}

/// A row of a summary has the case, its subclass, both verdicts, the number of
/// attempts and, where a suggestion was kept, the suggestion.
pub proof fn law_rows_tell_the_outcome(o: OutcomeModel)
    ensures
        occurs(summary_row(o), o.case_id),
        occurs(summary_row(o), o.subclass),
        occurs(summary_row(o), o.baseline_verdict.name()),
        occurs(summary_row(o), o.final_verdict.name()),
        occurs(summary_row(o), numbers::decimal(o.attempts.len())),
        o.promoted_directive matches Some(d) ==> occurs(summary_row(o), d),
{
    lemma_six(
        "| "@,
        o.case_id,
        " | "@,
        o.subclass,
        " | "@,
        o.baseline_verdict.name(),
        " | "@,
        o.final_verdict.name(),
        " | "@,
        numbers::decimal(o.attempts.len()),
        " | "@,
        crate::train::action_of(o),
        " |\n"@,
    );
}

/// A record has the same, the suggestion escaped.
pub proof fn law_records_tell_the_outcome(o: OutcomeModel)
    ensures
        occurs(record_line(o), o.case_id),
        occurs(record_line(o), o.subclass),
        occurs(record_line(o), o.baseline_verdict.name()),
        occurs(record_line(o), o.final_verdict.name()),
        occurs(record_line(o), numbers::decimal(o.attempts.len())),
        o.promoted_directive matches Some(d) ==> occurs(record_line(o), report_escaped(d)),
        o.promoted_directive is None ==> occurs(record_line(o), "null"@),
{
    let p = match o.promoted_directive {
        Some(d) => "\""@ + report_escaped(d) + "\""@,
        None => "null"@,
    };
    lemma_six(
        "{\"id\":\""@,
        o.case_id,
        "\",\"subclass\":\""@,
        o.subclass,
        "\",\"baseline\":\""@,
        o.baseline_verdict.name(),
        "\",\"final\":\""@,
        o.final_verdict.name(),
        "\",\"attempts\":"@,
        numbers::decimal(o.attempts.len()),
        ",\"promoted\":"@,
        p,
        "}\n"@,
    );
    if let Some(d) = o.promoted_directive {
        lemma_part("\""@, report_escaped(d), "\""@);
        lemma_within(record_line(o), p, report_escaped(d));
    }
}

/// Both reports have every case.
pub proof fn law_reports_have_every_case(r: TrainingReport, i: int)
    requires
        0 <= i < r.cases@.len(),
    ensures
        occurs(summary_text(r), summary_row(outcome_models(r.cases@)[i])),
        occurs(records_text(r), record_line(outcome_models(r.cases@)[i])),
        occurs(summary_text(r), numbers::decimal(r.total_promoted as nat)),
{
    let cases = outcome_models(r.cases@);
    let rows = cases.map_values(|o: OutcomeModel| summary_row(o));
    let lines = cases.map_values(|o: OutcomeModel| record_line(o));
    lemma_concat_part(rows, i);
    lemma_concat_part(lines, i);
    assert(lines[i] == record_line(cases[i]));
    assert(rows[i] == summary_row(cases[i]));
    let all = summary_text(r);
    let table = chars::concat(rows);
    let head = all.take(all.len() - table.len());
    assert(head + table + Seq::<char>::empty() =~= all) by {
        assert(all.skip(all.len() - table.len()) =~= table);
    }
    law_occurrence_carries_over(head, table, seq![], rows[i]);
    let a = "# Training report\n\n"@ + "- baseline: "@ + counts_text(
        r.baseline_pass as nat,
        r.baseline_partial as nat,
        r.baseline_fail as nat,
    ) + "- final:    "@ + counts_text(
        r.final_pass as nat,
        r.final_partial as nat,
        r.final_fail as nat,
    ) + "- promoted: "@;
    let n = numbers::decimal(r.total_promoted as nat);
    lemma_behind(
        a,
        n,
        " directive(s)\n\n"@,
        "| Case | Subclass | Baseline | Final | Attempts | Action |\n|---|---|---|---|---|---|\n"@,
        table,
    );
}

proof fn lemma_behind(a: Seq<char>, n: Seq<char>, b: Seq<char>, c: Seq<char>, d: Seq<char>)
    ensures
        occurs(a + n + b + c + d, n),
{
    lemma_part(a, n, b + c + d);
    assert(a + n + (b + c + d) =~= a + n + b + c + d);
}

/// Counts are told in the order of the verdicts, the best first.
pub proof fn law_counts_are_told_in_order(pass: nat, partial: nat, fail: nat)
    ensures
        stands_at(counts_text(pass, partial, fail), numbers::decimal(pass) + "P"@, 0),
        occurs(counts_text(pass, partial, fail), numbers::decimal(partial) + "Par"@),
        occurs(counts_text(pass, partial, fail), numbers::decimal(fail) + "F"@),
{
    let a = numbers::decimal(pass);
    let b = numbers::decimal(partial);
    let c = numbers::decimal(fail);
    let all = counts_text(pass, partial, fail);
    reveal_strlit("P / ");
    reveal_strlit("Par / ");
    reveal_strlit("F\n");
    reveal_strlit("P");
    reveal_strlit("Par");
    reveal_strlit("F");
    let none = Seq::<char>::empty();
    let end = "Par / "@ + c + "F\n"@;
    assert("P / "@ =~= "P"@ + seq![' ', '/', ' ']);
    assert("Par / "@ =~= "Par"@ + seq![' ', '/', ' ']);
    assert("F\n"@ =~= "F"@ + seq!['\n']);
    assert(all.subrange(0, (a + "P"@).len() as int) =~= a + "P"@);
    lemma_part(a + "P / "@, b + "Par"@, seq![' ', '/', ' '] + c + "F\n"@);
    assert(a + "P / "@ + (b + "Par"@) + (seq![' ', '/', ' '] + c + "F\n"@) =~= all);
    lemma_part(a + "P / "@ + b + "Par / "@, c + "F"@, seq!['\n']);
    assert(a + "P / "@ + b + "Par / "@ + (c + "F"@) + seq!['\n'] =~= all);
}

/// The advisor is told everything that a case asks for, and everything that was
/// missed.
pub proof fn law_rubric_is_told_whole(case: CaseModel, failures: Seq<Seq<char>>)
    ensures
        occurs(rubric_text(case, failures), numbers::decimal(case.min_tool_calls)),
        forall|i: int|
            0 <= i < case.must_tools.len() ==> occurs(
                rubric_text(case, failures),
                #[trigger] case.must_tools[i],
            ),
        forall|i: int|
            0 <= i < case.must_in_output.len() ==> occurs(
                rubric_text(case, failures),
                #[trigger] case.must_in_output[i],
            ),
        forall|i: int|
            0 <= i < case.must_in_exec.len() ==> occurs(
                rubric_text(case, failures),
                #[trigger] case.must_in_exec[i],
            ),
        forall|i: int|
            0 <= i < failures.len() ==> occurs(
                rubric_text(case, failures),
                #[trigger] failures[i],
            ),
{
    let all = rubric_text(case, failures);
    let t = listed_or_none(case.must_tools);
    let o = listed_or_none(case.must_in_output);
    let e = listed_or_none(case.must_in_exec);
    let f = if failures.len() == 0 {
        "(none — primary already met the rubric on this run)"@
    } else {
        chars::join(pointed(failures), "\n"@)
    };
    lemma_six(
        "Pawbench grades this case on EXACT token/tool matches. Your rule MUST target the gaps below; semantic equivalents (e.g. \"threats\" vs \"contacts\") do NOT count.\nmin_tool_calls: "@,
        numbers::decimal(case.min_tool_calls),
        "\nmust_tools (each must appear at least once in EXEC): "@,
        t,
        "\nmust_in_output (each token must appear in primary's DONE answer): "@,
        o,
        "\nmust_in_exec (each token must appear in some EXEC result): "@,
        e,
        "\n\ncurrent_failures (what primary missed on its last run):\n"@,
        f,
        seq![],
        seq![],
        seq![],
    );
    let none = Seq::<char>::empty();
    assert(all + none + none + none =~= all);
    assert forall|i: int| 0 <= i < case.must_tools.len() implies occurs(
        all,
        #[trigger] case.must_tools[i],
    ) by {
        law_joined_parts_stand_in_whole(case.must_tools, ", "@, i);
        lemma_within(all, t, case.must_tools[i]);
    }
    assert forall|i: int| 0 <= i < case.must_in_output.len() implies occurs(
        all,
        #[trigger] case.must_in_output[i],
    ) by {
        law_joined_parts_stand_in_whole(case.must_in_output, ", "@, i);
        lemma_within(all, o, case.must_in_output[i]);
    }
    assert forall|i: int| 0 <= i < case.must_in_exec.len() implies occurs(
        all,
        #[trigger] case.must_in_exec[i],
    ) by {
        law_joined_parts_stand_in_whole(case.must_in_exec, ", "@, i);
        lemma_within(all, e, case.must_in_exec[i]);
    }
    assert forall|i: int| 0 <= i < failures.len() implies occurs(all, #[trigger] failures[i]) by {
        let lines = pointed(failures);
        law_joined_parts_stand_in_whole(lines, "\n"@, i);
        lemma_part("- "@, failures[i], none);
        assert("- "@ + failures[i] + none =~= lines[i]);
        lemma_within(f, lines[i], failures[i]);
        lemma_within(all, f, failures[i]);
    }
}

proof fn lemma_report_first(s: Seq<char>)
    requires
        s.len() > 0,
    ensures
        report_escaped(s) == report_escape_char(s[0]) + report_escaped(s.skip(1)),
    decreases s.len(),
{
    let init = s.drop_last();
    if init.len() == 0 {
        assert(s.skip(1) =~= seq![]);
        assert(init =~= seq![]);
        assert(report_escaped(s) =~= report_escape_char(s[0]) + report_escaped(s.skip(1)));
    } else {
        lemma_report_first(init);
        assert(init.skip(1) =~= s.skip(1).drop_last());
        assert(report_escaped(s) =~= report_escape_char(s[0]) + report_escaped(s.skip(1)));
    }
}

/// A suggestion in a record reads back as it was, whatever follows it.
pub proof fn law_recorded_suggestion_reads_back(s: Seq<char>, rest: Seq<char>)
    requires
        forall|i: int|
            0 <= i < s.len() ==> #[trigger] s[i] > '\u{1f}' || s[i] == '\n' || s[i] == '\r' || s[i]
                == '\t',
    ensures
        json::quoted(report_escaped(s) + seq!['"'] + rest) == Some(s),
    decreases s.len(),
{
    let all = report_escaped(s) + seq!['"'] + rest;
    if s.len() == 0 {
        assert(all[0] == '"');
        assert(s =~= seq![]);
    } else {
        let more = s.skip(1);
        let tail = report_escaped(more) + seq!['"'] + rest;
        lemma_report_first(s);
        assert forall|i: int| 0 <= i < more.len() implies #[trigger] more[i] > '\u{1f}' || more[i]
            == '\n' || more[i] == '\r' || more[i] == '\t' by {
            assert(more[i] == s[i + 1]);
        }
        law_recorded_suggestion_reads_back(more, rest);
        let e = report_escape_char(s[0]);
        assert(all =~= e + tail);
        assert(all.skip(e.len() as int) =~= tail);
        assert(all[0] == e[0]);
        if e.len() == 2 {
            assert(all[1] == e[1]);
        }
        assert(seq![s[0]] + more =~= s);
    }
}

// ---------------------------------------------------------------------------
// The log
// ---------------------------------------------------------------------------

/// A message that is taken up is logged with its task, its class, where it comes
/// from and who serves it; a class that a skill has changed has a line of its own.
pub proof fn law_opening_is_logged(
    picked: MessageClass,
    class: MessageClass,
    task_id: TaskId,
    source: Seq<char>,
    resumed: bool,
    mode: AdvisorMode,
    executor: AgentChoice,
)
    ensures
        ({
            let lines = opening_lines(picked, class, task_id, source, resumed, mode, executor);
            &&& lines.len() == (if picked != class {
                2int
            } else {
                1
            })
            &&& occurs(said(lines.last()), task_id.name())
            &&& occurs(said(lines.last()), class.name())
            &&& occurs(said(lines.last()), source)
            &&& occurs(said(lines.last()), chars::bool_text(resumed))
            &&& occurs(said(lines.last()), mode.name())
            &&& occurs(said(lines.last()), executor.name())
            &&& picked != class ==> occurs(said(lines[0]), class.name())
        }),
{
    let lines = opening_lines(picked, class, task_id, source, resumed, mode, executor);
    lemma_six(
        "minicore task="@,
        task_id.name(),
        " class="@,
        class.name(),
        " source="@,
        source,
        " resumed="@,
        chars::bool_text(resumed),
        " mode="@,
        mode.name(),
        " executor="@,
        executor.name(),
        seq![],
    );
    assert(said(lines.last()) + Seq::<char>::empty() =~= said(lines.last()));
    lemma_part("classify class="@, class.name(), " (skill-override)"@);
}

/// Every reply of an analysis has two lines, its step and what came of it.
pub proof fn law_analysis_is_logged(
    id: TaskId,
    replies: Seq<Seq<char>>,
    recalls: Seq<ProgressiveModel>,
    n: nat,
    i: int,
)
    requires
        0 <= i < n,
    ensures
        ({
            let lines = why_log(id, replies, recalls, n);
            &&& lines.len() == 2 * n
            &&& lines[2 * i] == why_step_line(id, (i + 1) as nat)
            &&& data_query(replies[i]) matches Some(q) ==> lines[2 * i + 1] == search_line(
                id,
                q,
                recalls[i].rendered(),
            )
            &&& data_query(replies[i]) is None ==> lines[2 * i + 1] == why_end_line(
                id,
                replies[i],
                (i + 1) as nat,
            )
        }),
    decreases n,
{
    let m = (n - 1) as nat;
    lemma_why_count(id, replies, recalls, m);
    if i < n - 1 {
        law_analysis_is_logged(id, replies, recalls, m, i);
    }
}

proof fn lemma_why_count(
    id: TaskId,
    replies: Seq<Seq<char>>,
    recalls: Seq<ProgressiveModel>,
    n: nat,
)
    ensures
        why_log(id, replies, recalls, n).len() == 2 * n,
    decreases n,
{
    if n > 0 {
        lemma_why_count(id, replies, recalls, (n - 1) as nat);
    }
}

/// Every command of a reply has its line, in order, under the number of the reply.
pub proof fn law_commands_are_logged(
    skills: Seq<SkillModel>,
    record: bool,
    step: nat,
    execs: Seq<ExecModel>,
    i: int,
)
    requires
        0 <= i < execs.len(),
    ensures
        step_lines(skills, record, step, execs).contains(step_line(record, step, execs[i])),
        step_lines(skills, record, step, execs).last() == step_line(record, step, execs.last()),
        occurs(said(step_line(record, step, execs[i])), numbers::decimal(step)),
        occurs(said(step_line(record, step, execs[i])), " ok="@ + chars::bool_text(execs[i].ok)),
        stands_at(said(step_line(record, step, execs[i])), tag(record), 0),
    decreases execs.len(),
{
    let all = step_lines(skills, record, step, execs);
    let before = step_lines(skills, record, step, execs.drop_last());
    let want = step_line(record, step, execs[i]);
    if i < execs.len() - 1 {
        law_commands_are_logged(skills, record, step, execs.drop_last(), i);
        let k = before.index_of(want);
        assert(all[k] == want);
    } else {
        assert(all[all.len() - 1] == want);
    }
    let e = execs[i];
    let a = tag(record) + " step="@;
    let n = numbers::decimal(step);
    let q = crate::foreign::debug_quoted(e.cmd);
    let ok = chars::bool_text(e.ok);
    let out = if record {
        " out="@ + crate::foreign::debug_quoted(
            chars::prefix_within(e.result, crate::log::LOG_RESULT_BYTES as nat),
        )
    } else {
        seq![]
    };
    lemma_step_parts(tag(record), " step="@, n, " exec="@ + q, " ok="@, ok, out);
    assert(said(want) =~= tag(record) + " step="@ + n + (" exec="@ + q) + " ok="@ + ok + out);
}

proof fn lemma_step_parts(
    t: Seq<char>,
    a: Seq<char>,
    n: Seq<char>,
    b: Seq<char>,
    c: Seq<char>,
    ok: Seq<char>,
    out: Seq<char>,
)
    ensures
        occurs(t + a + n + b + c + ok + out, n),
        occurs(t + a + n + b + c + ok + out, c + ok),
        stands_at(t + a + n + b + c + ok + out, t, 0),
{
    let all = t + a + n + b + c + ok + out;
    lemma_part(t + a, n, b + c + ok + out);
    assert(t + a + n + (b + c + ok + out) =~= all);
    lemma_part(t + a + n + b, c + ok, out);
    assert(t + a + n + b + (c + ok) + out =~= all);
    assert(all.subrange(0, t.len() as int) =~= t);
}

/// The end of a session is logged with its task and its steps, running out of
/// steps as a complaint.
pub proof fn law_ends_are_logged(who: Seq<char>, how: Seq<char>, id: TaskId, steps: nat)
    ensures
        occurs(said(end_line(who, how, id, steps)), how),
        occurs(said(end_line(who, how, id, steps)), id.name()),
        occurs(said(end_line(who, how, id, steps)), numbers::decimal(steps)),
        limit_line(who, id) is Complaint,
        occurs(said(limit_line(who, id)), id.name()),
        occurs(said(what_line(id)), id.name()),
{
    let none = Seq::<char>::empty();
    lemma_four(
        none,
        who,
        " "@,
        how,
        " task="@,
        id.name(),
        " steps="@,
        numbers::decimal(steps),
        none,
    );
    assert(none + who + " "@ + how + " task="@ + id.name() + " steps="@ + numbers::decimal(steps)
        + none =~= said(end_line(who, how, id, steps)));
    lemma_part(who + " step-limit task="@, id.name(), none);
    assert(who + " step-limit task="@ + id.name() + none =~= said(limit_line(who, id)));
    lemma_part("miniwhat task="@, id.name(), none);
    assert("miniwhat task="@ + id.name() + none =~= said(what_line(id)));
}

/// A comparison is logged with its task, its class, its verdict and the
/// similarity.
pub proof fn law_comparisons_are_logged(
    id: TaskId,
    record: DivergenceRecord,
    similarity: Seq<char>,
)
    ensures
        occurs(divergence_text(id, record, similarity), id.name()),
        occurs(divergence_text(id, record, similarity), record.class.name()),
        occurs(divergence_text(id, record, similarity), record.verdict.name()),
        occurs(divergence_text(id, record, similarity), similarity),
{
    lemma_four(
        "advisor divergence task="@,
        id.name(),
        " class="@,
        record.class.name(),
        " verdict="@,
        record.verdict.name(),
        " similarity="@,
        similarity,
        seq![],
    );
    let all = divergence_text(id, record, similarity);
    assert(all + Seq::<char>::empty() =~= all);
}

/// What became of a suggestion is logged, unless none was asked for: with what was
/// done, or where it is kept.
pub proof fn law_adjustments_are_logged(id: TaskId, class: MessageClass, a: Adjustment)
    ensures
        adjustment_text(id, class, a) is None == (a is Skipped),
        adjustment_text(id, class, a) matches Some(t) ==> occurs(t, id.name()),
        a matches Adjustment::Applied { outcome, .. } ==> (adjustment_text(
            id,
            class,
            a,
        ) matches Some(t) && occurs(t, outcome@)),
        a matches Adjustment::Proposed { path, .. } ==> (adjustment_text(
            id,
            class,
            a,
        ) matches Some(t) && occurs(t, path@)),
{
    let h = "advisor adjust task="@;
    let none = Seq::<char>::empty();
    let head = h + id.name();
    match a {
        Adjustment::Skipped => {},
        Adjustment::Unparsed(raw) => {
            let q = crate::foreign::debug_quoted(raw@);
            lemma_part(h, id.name(), " class="@ + class.name() + " parsed=none raw="@ + q);
            assert(h + id.name() + (" class="@ + class.name() + " parsed=none raw="@ + q) =~= head
                + " class="@ + class.name() + " parsed=none raw="@ + q);
        },
        Adjustment::NoChange => {
            lemma_part(h, id.name(), " class="@ + class.name() + " kind=no-change"@);
            assert(h + id.name() + (" class="@ + class.name() + " kind=no-change"@) =~= head
                + " class="@ + class.name() + " kind=no-change"@);
        },
        Adjustment::RuleCap => {
            lemma_part(h, id.name(), " class="@ + class.name() + " skipped: rule cap reached"@);
            assert(h + id.name() + (" class="@ + class.name() + " skipped: rule cap reached"@)
                =~= head + " class="@ + class.name() + " skipped: rule cap reached"@);
        },
        Adjustment::Applied { outcome, .. } => {
            let m = " mode=training applied: "@;
            lemma_part(h, id.name(), m + outcome@);
            assert(h + id.name() + (m + outcome@) =~= head + m + outcome@);
            lemma_part(head + m, outcome@, none);
            assert(head + m + outcome@ + none =~= head + m + outcome@);
        },
        Adjustment::Proposed { path, .. } => {
            let m = " mode=trial proposal="@;
            lemma_part(h, id.name(), m + path@);
            assert(h + id.name() + (m + path@) =~= head + m + path@);
            lemma_part(head + m, path@, none);
            assert(head + m + path@ + none =~= head + m + path@);
        },
    }
}

/// A request is logged with how many messages it has, the system prompt among
/// them, and with the size of the last one.
pub proof fn law_requests_are_logged(system: Seq<char>, messages: Seq<Turn>)
    requires
        messages.len() > 0,
    ensures
        system.len() > 0 ==> occurs(
            request_text(system, messages),
            numbers::decimal(messages.len() + 1),
        ),
        system.len() == 0 ==> occurs(
            request_text(system, messages),
            numbers::decimal(messages.len()),
        ),
        occurs(
            request_text(system, messages),
            numbers::decimal(chars::byte_len(messages.last().content)),
        ),
        !marked(messages.last().content).contains('\n'),
{
    let last = messages.last().content;
    let count = if system.len() > 0 {
        messages.len() + 1
    } else {
        messages.len()
    };
    reveal_strlit("↵");
    law_replaced_character_is_gone(last, '\n', "↵"@);
    lemma_four(
        "llm >> ("@,
        numbers::decimal(count),
        " msgs, "@,
        numbers::decimal(chars::byte_len(last)),
        " chars) "@,
        chars::prefix_within(marked(last), 300),
        seq![],
        seq![],
        seq![],
    );
    let all = request_text(system, messages);
    let none = Seq::<char>::empty();
    assert(all + none + none + none =~= all);
}

}
