//! Promises of the rubric and of case manifests.
use vstd::prelude::*;

use crate::chars;
use crate::chars::CharSet;
use crate::json;
use crate::laws::texts::{
    blank, law_find_is_first_occurrence, law_lower_of_parts, law_occurrence_carries_over,
    lemma_filter_has, lemma_filter_none, occurs, stands_at,
};
use crate::numbers;
use crate::rubric::{
    all_results, array_strings, case_in, case_number, case_string, case_strings, cases_from,
    half_points, interchangeable, judged, manifest_cases, measured, tools_called, tools_in,
    CaseModel, Verdict,
};
use crate::session::{ExecModel, TraceModel};

verus! {

/// A text shows another one, up to case.
pub open spec fn shows(body: Seq<char>, t: Seq<char>) -> bool {
    occurs(chars::lower(body), chars::lower(t))
}

// ---------------------------------------------------------------------------
// Texts that must be shown
// ---------------------------------------------------------------------------

proof fn lemma_result_in_all(execs: Seq<ExecModel>, i: int, p: Seq<char>)
    requires
        0 <= i < execs.len(),
        occurs(chars::lower(execs[i].result), p),
    ensures
        occurs(chars::lower(all_results(execs)), p),
    decreases execs.len(),
{
    let before = all_results(execs.drop_last());
    let last = execs.last().result;
    let nl = "\n"@;
    law_lower_of_parts(before + last, nl);
    law_lower_of_parts(before, last);
    let a = chars::lower(before);
    let b = chars::lower(last);
    let c = chars::lower(nl);
    if i < execs.len() - 1 {
        lemma_result_in_all(execs.drop_last(), i, p);
        law_occurrence_carries_over(seq![], a, b + c, p);
        assert(Seq::<char>::empty() + a + (b + c) =~= a + b + c);
    } else {
        law_occurrence_carries_over(a, b, c, p);
    }
}

/// An occurrence without a line break lies on one side of one.
proof fn lemma_one_side(a: Seq<char>, b: Seq<char>, p: Seq<char>)
    requires
        occurs(a + seq!['\n'] + b, p),
        !p.contains('\n'),
    ensures
        occurs(a, p) || occurs(b, p),
{
    let s = a + seq!['\n'] + b;
    let i = choose|i: int| stands_at(s, p, i);
    let n = a.len() as int;
    if i + p.len() <= n {
        assert(a.subrange(i, i + p.len()) =~= s.subrange(i, i + p.len()));
        assert(stands_at(a, p, i));
    } else if i > n {
        assert(b.subrange(i - n - 1, i - n - 1 + p.len()) =~= s.subrange(i, i + p.len()));
        assert(stands_at(b, p, i - n - 1));
    } else {
        assert(s[n] == '\n');
        assert(s.subrange(i, i + p.len())[n - i] == '\n');
        assert(p[n - i] == '\n');
    }
}

proof fn lemma_all_in_result(execs: Seq<ExecModel>, output: Seq<char>, p: Seq<char>)
    requires
        occurs(chars::lower(all_results(execs) + output), p),
        !p.contains('\n'),
    ensures
        occurs(chars::lower(output), p) || exists|i: int|
            0 <= i < execs.len() && occurs(chars::lower((#[trigger] execs[i]).result), p),
    decreases execs.len(),
{
    if execs.len() == 0 {
        assert(all_results(execs) + output =~= output);
    } else {
        let init = execs.drop_last();
        let before = all_results(init);
        let last = execs.last().result;
        reveal_strlit("\n");
        assert("\n"@ =~= seq!['\n']);
        law_lower_of_parts(before + last + "\n"@, output);
        law_lower_of_parts(before + last, "\n"@);
        assert(chars::lower("\n"@) =~= seq!['\n']);
        lemma_one_side(chars::lower(before + last), chars::lower(output), p);
        if !occurs(chars::lower(output), p) {
            lemma_all_in_result(init, last, p);
            if occurs(chars::lower(last), p) {
                assert(occurs(chars::lower(execs[execs.len() - 1].result), p));
            } else {
                let i = choose|i: int|
                    0 <= i < init.len() && occurs(chars::lower((#[trigger] init[i]).result), p);
                assert(execs[i] == init[i]);
            }
        }
    }
}

/// A text that commands must show counts as shown wherever the result of some
/// command shows it, or the final answer does; and as missing, unless it has a
/// line break, wherever none of them does.
pub proof fn law_results_show_what_is_asked_for(case: CaseModel, trace: TraceModel, t: Seq<char>)
    requires
        case.must_in_exec.contains(t),
    ensures
        shows(trace.output, t) ==> !measured(case, trace).missing_in_exec.contains(t),
        forall|i: int|
            0 <= i < trace.execs.len() && shows((#[trigger] trace.execs[i]).result, t)
                ==> !measured(case, trace).missing_in_exec.contains(t),
        !t.contains('\n') && !measured(case, trace).missing_in_exec.contains(t) ==> shows(
            trace.output,
            t,
        ) || exists|i: int|
            0 <= i < trace.execs.len() && shows((#[trigger] trace.execs[i]).result, t),
{
    let body = all_results(trace.execs) + trace.output;
    let p = chars::lower(t);
    let a = chars::lower(all_results(trace.execs));
    let b = chars::lower(trace.output);
    lemma_filter_has(case.must_in_exec, crate::rubric::absent(body), t);
    law_find_is_first_occurrence(chars::lower(body), p);
    law_lower_of_parts(all_results(trace.execs), trace.output);
    if occurs(b, p) {
        law_occurrence_carries_over(a, b, seq![], p);
        assert(a + b + Seq::<char>::empty() =~= a + b);
    }
    assert forall|i: int| 0 <= i < trace.execs.len() && shows((#[trigger] trace.execs[i]).result, t)
        implies !measured(case, trace).missing_in_exec.contains(t) by {
        lemma_result_in_all(trace.execs, i, p);
        law_occurrence_carries_over(seq![], a, b, p);
        assert(Seq::<char>::empty() + a + b =~= a + b);
    }
    if !t.contains('\n') && occurs(chars::lower(body), p) {
        assert(!p.contains('\n')) by {
            if p.contains('\n') {
                let k = choose|k: int| 0 <= k < p.len() && p[k] == '\n';
                assert(chars::lower_char(t[k]) == '\n');
                assert(t[k] == '\n');
            }
        }
        lemma_all_in_result(trace.execs, trace.output, p);
    }
}

/// Only texts that a case asks for are missing, and one that the final answer has
/// to show is missing exactly where the final answer does not show it.
pub proof fn law_output_shows_what_is_asked_for(case: CaseModel, trace: TraceModel, t: Seq<char>)
    ensures
        measured(case, trace).missing_in_output.contains(t) == (case.must_in_output.contains(t)
            && !shows(trace.output, t)),
        measured(case, trace).missing_in_exec.contains(t) ==> case.must_in_exec.contains(t),
{
    lemma_filter_has(case.must_in_output, crate::rubric::absent(trace.output), t);
    law_find_is_first_occurrence(chars::lower(trace.output), chars::lower(t));
    lemma_filter_has(
        case.must_in_exec,
        crate::rubric::absent(all_results(trace.execs) + trace.output),
        t,
    );
}

/// What commands are called does not matter for the texts that must be shown:
/// two sessions with the same results and the same answer miss the same texts.
pub proof fn law_command_texts_show_nothing(case: CaseModel, a: TraceModel, b: TraceModel)
    requires
        a.output == b.output,
        a.execs.len() == b.execs.len(),
        forall|i: int|
            0 <= i < a.execs.len() ==> (#[trigger] a.execs[i]).result == b.execs[i].result,
    ensures
        measured(case, a).missing_in_exec == measured(case, b).missing_in_exec,
        measured(case, a).missing_in_output == measured(case, b).missing_in_output,
        measured(case, a).exec_step_count == measured(case, b).exec_step_count,
        measured(case, a).exec_step_count == a.execs.len(),
{
    lemma_same_results(a.execs, b.execs);
}

proof fn lemma_same_results(a: Seq<ExecModel>, b: Seq<ExecModel>)
    requires
        a.len() == b.len(),
        forall|i: int| 0 <= i < a.len() ==> (#[trigger] a[i]).result == b[i].result,
    ensures
        all_results(a) == all_results(b),
    decreases a.len(),
{
    if a.len() > 0 {
        assert forall|i: int| 0 <= i < a.drop_last().len() implies (
        #[trigger] a.drop_last()[i]).result == b.drop_last()[i].result by {
            assert(a[i].result == b[i].result);
        }
        lemma_same_results(a.drop_last(), b.drop_last());
        assert(a[a.len() - 1].result == b[b.len() - 1].result);
    }
}

// ---------------------------------------------------------------------------
// Tools
// ---------------------------------------------------------------------------

/// A text without `paw.py` calls no tool.
pub proof fn law_no_call_without_the_program(s: Seq<char>)
    requires
        !occurs(s, "paw.py"@),
    ensures
        tools_in(s).len() == 0,
    decreases s.len(),
{
    if s.len() > 0 {
        if chars::starts_with(s, "paw.py"@) {
            assert(s.subrange(0, "paw.py"@.len() as int) =~= s.take("paw.py"@.len() as int));
            assert(stands_at(s, "paw.py"@, 0));
        }
        if occurs(s.skip(1), "paw.py"@) {
            let p = "paw.py"@;
            let i = choose|i: int| stands_at(s.skip(1), p, i);
            assert(s.subrange(i + 1, i + 1 + p.len()) =~= s.skip(1).subrange(i, i + p.len()));
            assert(stands_at(s, p, i + 1));
        }
        law_no_call_without_the_program(s.skip(1));
    }
}

/// An identifier: a letter or `_`, then letters, digits and `_`.
pub open spec fn is_identifier(t: Seq<char>) -> bool {
    &&& t.len() > 0
    &&& chars::is_letter(t[0]) || t[0] == '_'
    &&& forall|i: int|
        0 <= i < t.len() ==> chars::is_alphanumeric(#[trigger] t[i]) || t[i] == '_'
}

/// The tool behind the first `paw.py` of a text, and what separates the two, is
/// called; what follows it is read on its own.
pub proof fn law_call_behind_the_program(
    a: Seq<char>,
    sep: Seq<char>,
    tool: Seq<char>,
    rest: Seq<char>,
)
    requires
        forall|j: int| 0 <= j < a.len() ==> !#[trigger] stands_at(
            a + "paw.py"@ + sep + tool + rest,
            "paw.py"@,
            j,
        ),
        sep.len() > 0,
        forall|i: int|
            0 <= i < sep.len() ==> !chars::is_letter(#[trigger] sep[i]) && sep[i] != '_',
        is_identifier(tool),
        rest.len() > 0 ==> !chars::is_alphanumeric(rest[0]) && rest[0] != '_',
    ensures
        tools_in(a + "paw.py"@ + sep + tool + rest) == seq![tool] + tools_in(rest),
    decreases a.len(),
{
    let p = "paw.py"@;
    reveal_strlit("paw.py");
    let s = a + p + sep + tool + rest;
    if a.len() == 0 {
        assert(s.take(6) =~= p);
        let tail = s.skip(6);
        assert(tail =~= sep + tool + rest);
        let n = sep.len() as int;
        assert forall|j: int| 0 <= j < n implies !CharSet::IdentStart.has(#[trigger] tail[j]) by {
            assert(tail[j] == sep[j]);
        }
        assert(tail[n] == tool[0]);
        chars::lemma_until_is(tail, CharSet::IdentStart, n);
        let m = tool.len() as int;
        let after = tail.skip(n);
        assert(after =~= tool + rest);
        assert forall|j: int| 0 <= j < m implies !CharSet::NotIdent.has(#[trigger] after[j]) by {
            assert(after[j] == tool[j]);
        }
        if rest.len() > 0 {
            assert(after[m] == rest[0]);
        }
        chars::lemma_until_is(after, CharSet::NotIdent, m);
        assert(tail.subrange(n, n + m) =~= tool);
        assert(tail.skip(n + m) =~= rest);
    } else {
        assert(!stands_at(s, p, 0));
        assert(s.subrange(0, 6) =~= s.take(6));
        let b = a.skip(1);
        let t = b + p + sep + tool + rest;
        assert(s.skip(1) =~= t);
        assert forall|j: int| 0 <= j < b.len() implies !#[trigger] stands_at(t, p, j) by {
            assert(!stands_at(s, p, j + 1));
            if stands_at(t, p, j) {
                assert(s.subrange(j + 1, j + 1 + p.len()) =~= t.subrange(j, j + p.len()));
            }
        }
        law_call_behind_the_program(b, sep, tool, rest);
    }
}

/// The calls of commands are those of each command, one after the other.
pub proof fn law_calls_of_commands(a: Seq<ExecModel>, e: ExecModel, b: Seq<ExecModel>)
    ensures
        tools_called(a + seq![e] + b) == tools_called(a) + tools_in(e.cmd) + tools_called(b),
        tools_called(Seq::<ExecModel>::empty()).len() == 0,
    decreases b.len(),
{
    let all = a + seq![e] + b;
    if b.len() == 0 {
        assert(all =~= a.push(e));
        assert(all.drop_last() =~= a);
        assert(tools_called(a) + tools_in(e.cmd) + tools_called(b) =~= tools_called(a) + tools_in(
            e.cmd,
        ));
    } else {
        law_calls_of_commands(a, e, b.drop_last());
        assert(all.drop_last() =~= a + seq![e] + b.drop_last());
        assert(all.last() == b.last());
        assert(tools_called(a) + tools_in(e.cmd) + tools_called(b.drop_last()) + tools_in(
            b.last().cmd,
        ) =~= tools_called(a) + tools_in(e.cmd) + (tools_called(b.drop_last()) + tools_in(
            b.last().cmd,
        )));
    }
}

/// A session's calls are counted, counted once each, and kept in order; a tool of
/// the case is missing exactly where neither it nor a stand-in was called.
pub proof fn law_metrics_follow_the_calls(case: CaseModel, trace: TraceModel, tool: Seq<char>)
    ensures
        measured(case, trace).tool_call_sequence == tools_called(trace.execs),
        measured(case, trace).tool_calls_total == tools_called(trace.execs).len(),
        measured(case, trace).tool_calls_distinct <= measured(case, trace).tool_calls_total,
        tools_called(trace.execs).no_duplicates() ==> measured(case, trace).tool_calls_distinct
            == measured(case, trace).tool_calls_total,
        tools_called(trace.execs).len() > 0 && (forall|i: int|
            0 <= i < tools_called(trace.execs).len() ==> #[trigger] tools_called(trace.execs)[i]
                == tools_called(trace.execs)[0]) ==> measured(case, trace).tool_calls_distinct == 1,
        measured(case, trace).missing_tools.contains(tool) == (case.must_tools.contains(tool)
            && forall|i: int|
            0 <= i < tools_called(trace.execs).len() ==> !interchangeable(
                tool,
                #[trigger] tools_called(trace.execs)[i],
            )),
{
    let calls = tools_called(trace.execs);
    calls.lemma_cardinality_of_set();
    if calls.no_duplicates() {
        calls.unique_seq_to_set();
    }
    if calls.len() > 0 && (forall|i: int| 0 <= i < calls.len() ==> #[trigger] calls[i] == calls[0]) {
        assert(calls.to_set() =~= set![calls[0]]) by {
            assert(calls.contains(calls[0]));
        }
    }
    lemma_filter_has(case.must_tools, crate::rubric::unused(calls), tool);
}

/// Standing in goes both ways, every tool stands in for itself, and otherwise only
/// the two tools that read the battery do, the two that tell where the robot is,
/// and the two that tell how busy it is.
pub proof fn law_stand_ins(a: Seq<char>, b: Seq<char>)
    ensures
        interchangeable(a, a),
        interchangeable(a, b) == interchangeable(b, a),
        interchangeable("self_battery_level"@, "robot_charge_status"@),
        interchangeable("robot_move_status"@, "robot_map_locate"@),
        interchangeable("self_load_avg"@, "self_diagnostics_summary"@),
        interchangeable(a, b) && a != b ==> {
            ||| a == "self_battery_level"@ && b == "robot_charge_status"@
            ||| b == "self_battery_level"@ && a == "robot_charge_status"@
            ||| a == "robot_move_status"@ && b == "robot_map_locate"@
            ||| b == "robot_move_status"@ && a == "robot_map_locate"@
            ||| a == "self_load_avg"@ && b == "self_diagnostics_summary"@
            ||| b == "self_load_avg"@ && a == "self_diagnostics_summary"@
        },
{
}

// ---------------------------------------------------------------------------
// Verdicts
// ---------------------------------------------------------------------------

/// The verdict and its reasons: a session passes where nothing keeps it from
/// passing, and there is a reason for each thing that does. One that does not
/// pass is partial exactly where it made enough calls and at least seven tenths
/// of the tools were used.
pub proof fn law_verdicts(case: CaseModel, trace: TraceModel)
    ensures
        ({
            let m = measured(case, trace);
            let (verdict, reasons) = judged(case, trace);
            let enough = m.tool_calls_total >= case.min_tool_calls && m.tool_calls_total >= 1;
            let count = (if enough {
                0nat
            } else {
                1nat
            }) + (if m.missing_tools.len() == 0 {
                0nat
            } else {
                1nat
            }) + (if m.missing_in_output.len() == 0 {
                0nat
            } else {
                1nat
            }) + (if m.missing_in_exec.len() == 0 {
                0nat
            } else {
                1nat
            }) + (if occurs(trace.output, "Session reached step limit"@) {
                1nat
            } else {
                0nat
            });
            &&& reasons.len() == count
            &&& (verdict == Verdict::Pass) == (count == 0)
            &&& (verdict == Verdict::Partial) == (count > 0 && enough && case.must_tools.len() > 0
                && 10 * (case.must_tools.len() - m.missing_tools.len()) >= 7
                * case.must_tools.len())
        }),
{
    law_find_is_first_occurrence(trace.output, "Session reached step limit"@);
}

/// A pass is worth more than a partial, and a partial more than a fail, by the
/// same amount; a fail is worth nothing.
pub proof fn law_scores_of_verdicts()
    ensures
        half_points(Verdict::Fail) == 0,
        half_points(Verdict::Partial) == 1,
        half_points(Verdict::Pass) == 2,
{
}

/// Showing more never makes a verdict worse: a session whose answer holds the
/// answer of another one, with the same commands, misses no text that the other
/// one shows.
pub proof fn law_longer_answers_show_more(
    case: CaseModel,
    a: TraceModel,
    before: Seq<char>,
    behind: Seq<char>,
    t: Seq<char>,
)
    ensures
        ({
            let b = TraceModel { output: before + a.output + behind, ..a };
            measured(case, b).missing_in_output.contains(t) ==> measured(
                case,
                a,
            ).missing_in_output.contains(t)
        }),
{
    let b = TraceModel { output: before + a.output + behind, ..a };
    law_output_shows_what_is_asked_for(case, a, t);
    law_output_shows_what_is_asked_for(case, b, t);
    if shows(a.output, t) {
        law_lower_of_parts(before + a.output, behind);
        law_lower_of_parts(before, a.output);
        law_occurrence_carries_over(
            chars::lower(before),
            chars::lower(a.output),
            chars::lower(behind),
            chars::lower(t),
        );
    }
}

// ---------------------------------------------------------------------------
// Manifests
// ---------------------------------------------------------------------------

/// A text without quotes and backslashes.
pub open spec fn is_plain(t: Seq<char>) -> bool {
    forall|i: int| 0 <= i < t.len() ==> #[trigger] t[i] != '"' && t[i] != '\\'
}

/// The quoted name stands first where the part before it ends.
pub open spec fn named_first(s: Seq<char>, a: Seq<char>, key: Seq<char>) -> bool {
    forall|j: int| 0 <= j < a.len() ==> !#[trigger] stands_at(s, json::marker(key), j)
}

proof fn lemma_value_behind(a: Seq<char>, key: Seq<char>, value: Seq<char>)
    requires
        named_first(a + json::marker(key) + ":"@ + value, a, key),
    ensures
        json::after_colon(a + json::marker(key) + ":"@ + value, key) == Some(value),
{
    let k = json::marker(key);
    reveal_strlit(":");
    let s = a + k + ":"@ + value;
    let n = a.len() as int;
    assert(s.subrange(n, n + k.len()) =~= k);
    assert(stands_at(s, k, n));
    law_find_is_first_occurrence(s, k);
    let i = chars::find(s, k)->0 as int;
    if i < n {
        assert(stands_at(s, k, i));
    } else if i > n {
        assert(!stands_at(s, k, n));
    }
    let rest = s.skip(n + k.len());
    assert(rest =~= ":"@ + value);
    assert(rest.subrange(0, 1) =~= ":"@);
    assert(stands_at(rest, ":"@, 0));
    law_find_is_first_occurrence(rest, ":"@);
    let j = chars::find(rest, ":"@)->0 as int;
    if j > 0 {
        assert(!stands_at(rest, ":"@, 0));
    }
    assert(rest.skip(1) =~= value);
}

proof fn lemma_gap(gap: Seq<char>, v: Seq<char>)
    requires
        blank(gap),
        v.len() > 0,
        !chars::is_white(v[0]),
    ensures
        chars::trim_start(gap + v) == v,
{
    let s = gap + v;
    assert forall|j: int| 0 <= j < gap.len() implies CharSet::White.has(#[trigger] s[j]) by {
        assert(s[j] == gap[j]);
    }
    assert(s[gap.len() as int] == v[0]);
    chars::lemma_drop_leading_is(s, CharSet::White, gap.len() as int);
    assert(s.skip(gap.len() as int) =~= v);
}

proof fn lemma_plain_quoted(v: Seq<char>, rest: Seq<char>)
    requires
        is_plain(v),
    ensures
        crate::rubric::case_quoted(v + seq!['"'] + rest) == Some(v),
        json::quoted(v + seq!['"'] + rest) == Some(v),
    decreases v.len(),
{
    let s = v + seq!['"'] + rest;
    if v.len() == 0 {
        assert(s[0] == '"');
        assert(v =~= seq![]);
    } else {
        let w = v.skip(1);
        assert forall|i: int| 0 <= i < w.len() implies #[trigger] w[i] != '"' && w[i] != '\\' by {
            assert(v[i + 1] != '"');
        }
        lemma_plain_quoted(w, rest);
        assert(s.skip(1) =~= w + seq!['"'] + rest);
        assert(s[0] == v[0]);
        assert(seq![v[0]] + w =~= v);
    }
}

/// A string of a case is read where its name stands first, as it is written
/// between its quotes.
pub proof fn law_case_string_is_read(
    a: Seq<char>,
    key: Seq<char>,
    gap: Seq<char>,
    v: Seq<char>,
    rest: Seq<char>,
)
    requires
        named_first(
            a + json::marker(key) + ":"@ + (gap + "\""@ + v + "\""@ + rest),
            a,
            key,
        ),
        blank(gap),
        is_plain(v),
    ensures
        case_string(
            a + json::marker(key) + ":"@ + (gap + "\""@ + v + "\""@ + rest),
            key,
        ) == Some(v),
        json::string_value(
            a + json::marker(key) + ":"@ + (gap + "\""@ + v + "\""@ + rest),
            key,
        ) == Some(v),
{
    reveal_strlit("\"");
    let value = gap + "\""@ + v + "\""@ + rest;
    lemma_value_behind(a, key, value);
    let body = "\""@ + v + "\""@ + rest;
    assert(value =~= gap + body);
    lemma_gap(gap, body);
    assert(body.take(1) =~= "\""@);
    assert(body.skip(1) =~= v + seq!['"'] + rest);
    lemma_plain_quoted(v, rest);
}

/// A number of a case is read where its name stands first, as it is written.
pub proof fn law_case_number_is_read(
    a: Seq<char>,
    key: Seq<char>,
    gap: Seq<char>,
    n: nat,
    rest: Seq<char>,
)
    requires
        named_first(a + json::marker(key) + ":"@ + (gap + numbers::decimal(n) + rest), a, key),
        blank(gap),
        n <= usize::MAX,
        rest.len() > 0 ==> !chars::is_digit(rest[0]),
    ensures
        case_number(a + json::marker(key) + ":"@ + (gap + numbers::decimal(n) + rest), key) == Some(
            n,
        ),
{
    let digits = numbers::decimal(n);
    let value = gap + digits + rest;
    lemma_value_behind(a, key, value);
    numbers::lemma_decimal_digits(n);
    let body = digits + rest;
    assert(value =~= gap + body);
    assert(chars::is_digit(digits[0]));
    lemma_gap(gap, body);
    assert forall|j: int| 0 <= j < digits.len() implies !CharSet::NotDigit.has(
        #[trigger] body[j],
    ) by {
        assert(body[j] == digits[j]);
    }
    if rest.len() > 0 {
        assert(body[digits.len() as int] == rest[0]);
    }
    chars::lemma_until_is(body, CharSet::NotDigit, digits.len() as int);
    assert(body.take(digits.len() as int) =~= digits);
    numbers::law_decimal_round_trip(n, usize::MAX as nat);
}

/// Strings in quotes, with commas between them.
pub open spec fn listed(items: Seq<Seq<char>>) -> Seq<char>
    decreases items.len(),
{
    if items.len() == 0 {
        seq![]
    } else {
        seq!['"'] + items[0] + seq!['"'] + (if items.len() > 1 {
            seq![',']
        } else {
            seq![]
        }) + listed(items.skip(1))
    }
}

proof fn lemma_item(cur: Seq<char>, v: Seq<char>, rest: Seq<char>)
    requires
        is_plain(v),
    ensures
        array_strings(v + seq!['"'] + rest, Some(cur)) == seq![cur + v] + array_strings(rest, None),
    decreases v.len(),
{
    let s = v + seq!['"'] + rest;
    if v.len() == 0 {
        assert(s[0] == '"');
        assert(s.skip(1) =~= rest);
        assert(cur + v =~= cur);
    } else {
        let w = v.skip(1);
        assert forall|i: int| 0 <= i < w.len() implies #[trigger] w[i] != '"' && w[i] != '\\' by {
            assert(v[i + 1] != '"');
        }
        assert(s[0] == v[0]);
        assert(s.skip(1) =~= w + seq!['"'] + rest);
        lemma_item(cur.push(v[0]), w, rest);
        assert(cur.push(v[0]) + w =~= cur + v);
    }
}

proof fn lemma_array(items: Seq<Seq<char>>, rest: Seq<char>)
    requires
        forall|i: int| 0 <= i < items.len() ==> is_plain(#[trigger] items[i]),
    ensures
        array_strings(listed(items) + seq![']'] + rest, None) == items,
    decreases items.len(),
{
    let s = listed(items) + seq![']'] + rest;
    if items.len() == 0 {
        assert(s[0] == ']');
        assert(items =~= seq![]);
    } else {
        let more = items.skip(1);
        assert forall|i: int| 0 <= i < more.len() implies is_plain(#[trigger] more[i]) by {
            assert(is_plain(items[i + 1]));
        }
        lemma_array(more, rest);
        let tail = listed(more) + seq![']'] + rest;
        let comma: Seq<char> = if items.len() > 1 {
            seq![',']
        } else {
            seq![]
        };
        assert(is_plain(items[0]));
        assert(s[0] == '"');
        assert(s.skip(1) =~= items[0] + seq!['"'] + (comma + tail));
        lemma_item(seq![], items[0], comma + tail);
        assert(Seq::<char>::empty() + items[0] =~= items[0]);
        if items.len() > 1 {
            assert((comma + tail)[0] == ',');
            assert((comma + tail).skip(1) =~= tail);
        } else {
            assert(comma + tail =~= tail);
        }
        assert(seq![items[0]] + more =~= items);
    }
}

/// An array of a case is read where its name stands first: every string, in the
/// order in which they are written.
pub proof fn law_case_array_is_read(
    a: Seq<char>,
    key: Seq<char>,
    gap: Seq<char>,
    items: Seq<Seq<char>>,
    rest: Seq<char>,
)
    requires
        named_first(
            a + json::marker(key) + ":"@ + (gap + "["@ + listed(items) + seq![']'] + rest),
            a,
            key,
        ),
        blank(gap),
        forall|i: int| 0 <= i < items.len() ==> is_plain(#[trigger] items[i]),
    ensures
        case_strings(
            a + json::marker(key) + ":"@ + (gap + "["@ + listed(items) + seq![']'] + rest),
            key,
        ) == items,
{
    reveal_strlit("[");
    let value = gap + "["@ + listed(items) + seq![']'] + rest;
    lemma_value_behind(a, key, value);
    let body = "["@ + listed(items) + seq![']'] + rest;
    assert(value =~= gap + body);
    lemma_gap(gap, body);
    assert(body.take(1) =~= "["@);
    assert(body.skip(1) =~= listed(items) + seq![']'] + rest);
    lemma_array(items, rest);
}

/// A case needs a name and an input. Its subclass is its category where it has no
/// subclass of its own; eight calls are asked for where it says nothing.
pub proof fn law_case_fields(line: Seq<char>)
    ensures
        case_in(line) is Some == (case_string(line, "id"@) is Some && case_string(
            line,
            "input"@,
        ) is Some),
        case_in(line) matches Some(c) ==> {
            &&& case_string(line, "id"@) == Some(c.id)
            &&& case_string(line, "input"@) == Some(c.task)
            &&& case_string(line, "subclass"@) matches Some(x) ==> c.subclass == x
            &&& case_string(line, "subclass"@) is None ==> (case_string(
                line,
                "category"@,
            ) matches Some(x) ==> c.subclass == x)
            &&& case_string(line, "subclass"@) is None && case_string(line, "category"@) is None
                ==> c.subclass == "general"@
            &&& c.must_tools == case_strings(line, "must_tools"@)
            &&& c.must_in_output == case_strings(line, "must_in_output"@)
            &&& c.must_in_exec == case_strings(line, "must_in_exec"@)
            &&& case_number(line, "min_tool_calls"@) matches Some(n) ==> c.min_tool_calls == n
            &&& case_number(line, "min_tool_calls"@) is None ==> c.min_tool_calls == 8
        },
{
}

/// The lines that are not blank, trimmed.
pub open spec fn filled(lines: Seq<Seq<char>>) -> Seq<Seq<char>> {
    lines.map_values(|l: Seq<char>| chars::trim(l)).filter(chars::at_least(1))
}

proof fn lemma_cases_from(lines: Seq<Seq<char>>, from: int, before: Seq<CaseModel>)
    requires
        0 <= from <= lines.len(),
    ensures
        cases_from(lines, from, before) matches Ok(v) ==> {
            &&& v.len() == before.len() + filled(lines.skip(from)).len()
            &&& v.take(before.len() as int) == before
            &&& forall|k: int|
                0 <= k < filled(lines.skip(from)).len() ==> case_in(
                    #[trigger] filled(lines.skip(from))[k],
                ) == Some(v[before.len() + k])
        },
        cases_from(lines, from, before) is Ok == forall|i: int|
            from <= i < lines.len() ==> (chars::trim(#[trigger] lines[i]).len() > 0 ==> case_in(
                chars::trim(lines[i]),
            ) is Some),
    decreases lines.len() - from,
{
    let rest = lines.skip(from);
    let f = filled(rest);
    if from == lines.len() {
        lemma_filter_none(
            rest.map_values(|l: Seq<char>| chars::trim(l)),
            chars::at_least(1),
        );
        assert(before.take(before.len() as int) =~= before);
    } else {
        let t = chars::trim(lines[from]);
        let more = lines.skip(from + 1);
        let g = filled(more);
        let one = seq![t];
        assert(rest.map_values(|l: Seq<char>| chars::trim(l)) =~= one + more.map_values(
            |l: Seq<char>| chars::trim(l),
        ));
        crate::laws::texts::lemma_filter_concat(
            one,
            more.map_values(|l: Seq<char>| chars::trim(l)),
            chars::at_least(1),
        );
        if t.len() == 0 {
            lemma_filter_none(one, chars::at_least(1));
            assert(f =~= g);
            lemma_cases_from(lines, from + 1, before);
        } else {
            crate::laws::texts::lemma_filter_all(one, chars::at_least(1));
            assert(f == one + g);
            match case_in(t) {
                Some(c) => {
                    lemma_cases_from(lines, from + 1, before.push(c));
                    if let Ok(v) = cases_from(lines, from, before) {
                        assert(v.take(before.len() as int) =~= before) by {
                            assert(v.take((before.len() + 1) as int) == before.push(c));
                            assert forall|k: int| 0 <= k < before.len() implies v[k]
                                == before[k] by {
                                assert(v.take((before.len() + 1) as int)[k] == before.push(c)[k]);
                            }
                        }
                        assert forall|k: int| 0 <= k < f.len() implies case_in(#[trigger] f[k])
                            == Some(v[before.len() + k]) by {
                            if k == 0 {
                                assert(v.take((before.len() + 1) as int)[before.len() as int]
                                    == before.push(c)[before.len() as int]);
                            } else {
                                assert(f[k] == g[k - 1]);
                            }
                        }
                    }
                },
                None => {
                    assert(case_in(chars::trim(lines[from])) is None);
                },
            }
        }
    }
}

/// A manifest gives one case for each line that is not blank, in order, and is
/// refused exactly where one of those lines holds no case.
pub proof fn law_manifest_gives_every_case(s: Seq<char>)
    ensures
        manifest_cases(s) matches Ok(v) ==> {
            &&& v.len() == filled(chars::lines(s)).len()
            &&& forall|k: int|
                0 <= k < v.len() ==> case_in(#[trigger] filled(chars::lines(s))[k]) == Some(v[k])
        },
        manifest_cases(s) is Ok == forall|i: int|
            0 <= i < chars::lines(s).len() ==> (chars::trim(
                #[trigger] chars::lines(s)[i],
            ).len() > 0 ==> case_in(chars::trim(chars::lines(s)[i])) is Some),
{
    lemma_cases_from(chars::lines(s), 0, seq![]);
    assert(chars::lines(s).skip(0) =~= chars::lines(s));
}

/// The line that a refused manifest is refused for is the first one that is not
/// blank and holds no case.
pub proof fn law_manifest_names_the_line(s: Seq<char>, n: int)
    requires
        0 <= n < chars::lines(s).len(),
        chars::trim(chars::lines(s)[n]).len() > 0,
        case_in(chars::trim(chars::lines(s)[n])) is None,
        forall|i: int|
            0 <= i < n ==> (chars::trim(#[trigger] chars::lines(s)[i]).len() > 0 ==> case_in(
                chars::trim(chars::lines(s)[i]),
            ) is Some),
    ensures
        manifest_cases(s) matches Err(e) && e == "manifest line "@ + numbers::decimal(
            (n + 1) as nat,
        ) + ": failed to parse"@,
{
    lemma_refused(chars::lines(s), 0, n, seq![]);
}

proof fn lemma_refused(lines: Seq<Seq<char>>, from: int, n: int, before: Seq<CaseModel>)
    requires
        0 <= from <= n < lines.len(),
        chars::trim(lines[n]).len() > 0,
        case_in(chars::trim(lines[n])) is None,
        forall|i: int|
            from <= i < n ==> (chars::trim(#[trigger] lines[i]).len() > 0 ==> case_in(
                chars::trim(lines[i]),
            ) is Some),
    ensures
        cases_from(lines, from, before) matches Err(e) && e == "manifest line "@ + numbers::decimal(
            (n + 1) as nat,
        ) + ": failed to parse"@,
    decreases n - from,
{
    if from < n {
        let t = chars::trim(lines[from]);
        if t.len() == 0 {
            lemma_refused(lines, from + 1, n, before);
        } else {
            match case_in(t) {
                Some(c) => {
                    lemma_refused(lines, from + 1, n, before.push(c));
                },
                None => {},
            }
        }
    }
}

}
