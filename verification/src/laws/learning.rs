//! Promises of the training: what decides about a suggestion, what is run for it,
//! and what is told of it.
use vstd::prelude::*;

use crate::adjustments::DirectiveModel;
use crate::chars;
use crate::laws::running::lemma_four;
use crate::laws::texts::{law_occurrence_carries_over, lemma_part, occurs};
use crate::numbers;
use crate::rubric::{half_points, judged, CaseModel, Verdict};
use crate::session::TraceModel;
use crate::table;
use crate::table::Row;
use crate::train::{
    attempt_line, attempt_lines, baseline_verdict_of, count_verdicts, cross_cases, cross_sample,
    final_verdicts, firsts_of, is_latest, latest_verdicts, other_subclasses, prior_text, promotions,
    rubric_text, total_points, ActionModel, AttemptModel, OutcomeModel, TrainActionModel,
    TrainModel,
};
use crate::training::RunModel;
use crate::types::AgentChoice;

verus! {

// ---------------------------------------------------------------------------
// Scores
// ---------------------------------------------------------------------------

/// Two for each pass and one for each partial.
pub open spec fn worth(v: Seq<Verdict>) -> nat {
    2 * v.filter(|x: Verdict| x == Verdict::Pass).len() + v.filter(
        |x: Verdict| x == Verdict::Partial,
    ).len()
}

/// The rubric's verdicts on runs of a case.
pub open spec fn graded(case: CaseModel, traces: Seq<TraceModel>) -> Seq<Verdict> {
    traces.map_values(|t: TraceModel| judged(case, t).0)
}

/// A training after runs of a model, one after the other.
pub open spec fn after_runs(m: TrainModel, traces: Seq<TraceModel>) -> TrainModel
    decreases traces.len(),
{
    if traces.len() == 0 {
        m
    } else {
        after_runs(m, traces.drop_last()).after_run(traces.last())
    }
}

proof fn lemma_worth_push(v: Seq<Verdict>, x: Verdict)
    ensures
        worth(v.push(x)) == worth(v) + (match x {
            Verdict::Pass => 2nat,
            Verdict::Partial => 1nat,
            Verdict::Fail => 0nat,
        }),
{
    reveal(Seq::filter);
    assert(v.push(x).drop_last() =~= v);
}

proof fn lemma_graded_push(case: CaseModel, traces: Seq<TraceModel>)
    requires
        traces.len() > 0,
    ensures
        graded(case, traces) == graded(case, traces.drop_last()).push(
            judged(case, traces.last()).0,
        ),
{
    assert(graded(case, traces) =~= graded(case, traces.drop_last()).push(
        judged(case, traces.last()).0,
    ));
}

/// The number of verdicts of a kind is how many of them there are.
pub proof fn law_verdicts_are_counted(v: Seq<Verdict>, kind: Verdict)
    ensures
        count_verdicts(v, kind) == v.filter(|x: Verdict| x == kind).len(),
        count_verdicts(v, Verdict::Pass) + count_verdicts(v, Verdict::Partial) + count_verdicts(
            v,
            Verdict::Fail,
        ) == v.len(),
    decreases v.len(),
{
    reveal(Seq::filter);
    if v.len() > 0 {
        law_verdicts_are_counted(v.drop_last(), kind);
    }
}

/// A single run under a suggestion is judged by the rubric and by nothing else:
/// its verdict is the rubric's, and its score is what that verdict is worth.
pub proof fn law_retest_is_judged_by_the_rubric(m: TrainModel, trace: TraceModel)
    requires
        m.stage is Retest,
    ensures
        m.after_run(trace).test_verdict == judged(m.case, trace).0,
        m.after_run(trace).points == half_points(judged(m.case, trace).0),
        m.after_run(trace).points == worth(seq![judged(m.case, trace).0]),
        m.after_run(trace).runs == 1,
        m.after_run(trace).base_points == m.base_points,
        m.after_run(trace).promoted == m.promoted,
        m.retest_runs <= 1 ==> m.after_run(trace).stage is Show,
{
    let v = judged(m.case, trace).0;
    lemma_worth_push(seq![], v);
    reveal(Seq::filter);
    assert(Seq::<Verdict>::empty().push(v) =~= seq![v]);
    assert(worth(seq![]) == 0);
}

/// Runs under a suggestion add up: after as many as are asked for, the score is
/// what the rubric's verdicts on them are worth together.
pub proof fn law_retests_add_up(m: TrainModel, traces: Seq<TraceModel>)
    requires
        m.stage is Retest,
        traces.len() > 0,
        traces.len() <= m.retest_runs || traces.len() == 1,
    ensures
        after_runs(m, traces).points == worth(graded(m.case, traces)),
        after_runs(m, traces).runs == traces.len(),
        after_runs(m, traces).base_points == m.base_points,
        after_runs(m, traces).case == m.case,
        after_runs(m, traces).retest_runs == m.retest_runs,
        after_runs(m, traces).others == m.others,
        traces.len() >= m.retest_runs ==> after_runs(m, traces).stage is Show,
        traces.len() < m.retest_runs ==> after_runs(m, traces).stage is Resample,
    decreases traces.len(),
{
    let t = traces.last();
    let init = traces.drop_last();
    lemma_graded_push(m.case, traces);
    lemma_worth_push(graded(m.case, init), judged(m.case, t).0);
    if traces.len() == 1 {
        assert(init =~= seq![]);
        assert(after_runs(m, init) == m);
        assert(graded(m.case, init) =~= seq![]);
        reveal(Seq::filter);
    } else {
        law_retests_add_up(m, init);
    }
}

/// Runs for the baseline add up too: the score that a suggestion has to beat is
/// what the rubric's verdicts on them are worth together, and what the verdict of
/// the first pass is worth where only one run is asked for.
pub proof fn law_baselines_add_up(m: TrainModel, traces: Seq<TraceModel>)
    requires
        m.stage is Reference,
        traces.len() > 0,
        traces.len() <= m.retest_runs || traces.len() == 1,
    ensures
        m.retest_runs > 1 ==> after_runs(m, traces).points == worth(graded(m.case, traces)),
        m.retest_runs > 1 ==> after_runs(m, traces).runs == traces.len(),
        m.retest_runs > 1 && traces.len() == m.retest_runs ==> after_runs(m, traces).base_points
            == worth(graded(m.case, traces)),
        m.retest_runs > 1 && traces.len() < m.retest_runs ==> after_runs(m, traces).stage is Sample,
        m.retest_runs <= 1 ==> after_runs(m, traces).base_points == half_points(
            m.baseline_verdict,
        ),
        after_runs(m, traces).case == m.case,
        after_runs(m, traces).retest_runs == m.retest_runs,
        after_runs(m, traces).output == traces[0].output,
        after_runs(m, traces).reasons == judged(m.case, traces[0]).1,
    decreases traces.len(),
{
    let t = traces.last();
    let init = traces.drop_last();
    lemma_graded_push(m.case, traces);
    lemma_worth_push(graded(m.case, init), judged(m.case, t).0);
    if traces.len() == 1 {
        assert(init =~= seq![]);
        assert(after_runs(m, init) == m);
        assert(graded(m.case, init) =~= seq![]);
        reveal(Seq::filter);
    } else {
        law_baselines_add_up(m, init);
        assert(init[0] == traces[0]);
    }
}

// ---------------------------------------------------------------------------
// Keeping a suggestion
// ---------------------------------------------------------------------------

/// Where single runs are compared and no other case is checked, a suggestion is
/// kept exactly where the rubric's verdict on the run under it is worth more than
/// the verdict of the first pass, and that verdict is then the final one. If it is
/// not kept it is reverted, and the verdict of the first pass stays.
pub proof fn law_better_verdict_is_kept(
    m: TrainModel,
    trace: TraceModel,
    short: Seq<char>,
    long: Seq<char>,
)
    requires
        m.wf(),
        m.stage is Retest,
        m.retest_runs <= 1,
        m.others.len() == 0,
        m.promoted is None,
    ensures
        ({
            let verdict = judged(m.case, trace).0;
            let r = m.after_run(trace).after_showing(short, long);
            &&& r.promoted is Some == (half_points(verdict) > half_points(m.baseline_verdict))
            &&& r.promoted is Some ==> r.final_verdict == verdict && r.stage is Over
            &&& r.promoted is Some ==> r.promoted == Some(m.directive.summary_text())
            &&& r.promoted is None ==> r.final_verdict == m.baseline_verdict && r.stage is Revert
        }),
{
}

/// With any number of runs, a suggestion that does not raise the score is
/// reverted; one that does goes on to the cases of other subclasses, or is kept
/// where there are none.
pub proof fn law_score_decides(m: TrainModel, short: Seq<char>, long: Seq<char>)
    requires
        m.wf(),
        m.stage is Show,
        m.promoted is None,
    ensures
        m.points <= m.base_points ==> m.after_showing(short, long).stage is Revert && m.after_showing(
            short,
            long,
        ).promoted is None,
        m.points > m.base_points && m.others.len() > 0 ==> m.after_showing(
            short,
            long,
        ).stage is Cross && m.after_showing(short, long).at == 0 && m.after_showing(
            short,
            long,
        ).regressions.len() == 0,
        m.points > m.base_points && m.others.len() == 0 ==> m.after_showing(
            short,
            long,
        ).promoted is Some,
        m.after_showing(short, long).delta_score == short,
{
}

/// The case got worse: the rubric's verdict on its run is worth less than its
/// verdict in the first pass.
pub open spec fn got_worse(case: CaseModel, before: Verdict, trace: TraceModel) -> bool {
    half_points(judged(case, trace).0) < half_points(before)
}

proof fn lemma_checked(m: TrainModel, traces: Seq<TraceModel>)
    requires
        m.stage is Cross,
        m.at == 0,
        m.regressions.len() == 0,
        m.promoted is None,
        m.others.len() == m.other_baselines.len(),
        traces.len() < m.others.len(),
    ensures
        after_runs(m, traces).stage is Cross,
        after_runs(m, traces).at == traces.len(),
        after_runs(m, traces).others == m.others,
        after_runs(m, traces).other_baselines == m.other_baselines,
        after_runs(m, traces).promoted is None,
        after_runs(m, traces).directive == m.directive,
        after_runs(m, traces).test_verdict == m.test_verdict,
        after_runs(m, traces).final_verdict == m.final_verdict,
        (after_runs(m, traces).regressions.len() == 0) == (forall|i: int|
            0 <= i < traces.len() ==> !got_worse(
                m.others[i],
                m.other_baselines[i],
                #[trigger] traces[i],
            )),
    decreases traces.len(),
{
    if traces.len() > 0 {
        let init = traces.drop_last();
        lemma_checked(m, init);
        let n = traces.len() - 1;
        assert(traces[n] == traces.last());
        if forall|i: int|
            0 <= i < traces.len() ==> !got_worse(
                m.others[i],
                m.other_baselines[i],
                #[trigger] traces[i],
            ) {
            assert forall|i: int| 0 <= i < init.len() implies !got_worse(
                m.others[i],
                m.other_baselines[i],
                #[trigger] init[i],
            ) by {
                assert(init[i] == traces[i]);
            }
            assert(!got_worse(m.others[n], m.other_baselines[n], traces[n]));
        }
        if after_runs(m, traces).regressions.len() == 0 {
            assert forall|i: int| 0 <= i < traces.len() implies !got_worse(
                m.others[i],
                m.other_baselines[i],
                #[trigger] traces[i],
            ) by {
                if i < n {
                    assert(init[i] == traces[i]);
                }
            }
        }
    }
}

/// A suggestion that raised the score is kept exactly where none of the checked
/// cases of other subclasses got worse; else it is reverted, and nothing of the
/// verdict changes.
pub proof fn law_no_other_case_gets_worse(m: TrainModel, traces: Seq<TraceModel>)
    requires
        m.stage is Cross,
        m.at == 0,
        m.regressions.len() == 0,
        m.promoted is None,
        m.others.len() == m.other_baselines.len(),
        traces.len() == m.others.len(),
        traces.len() > 0,
    ensures
        ({
            let r = after_runs(m, traces);
            let fine = forall|i: int|
                0 <= i < traces.len() ==> !got_worse(
                    m.others[i],
                    m.other_baselines[i],
                    #[trigger] traces[i],
                );
            &&& r.promoted is Some == fine
            &&& fine ==> r.stage is Over && r.final_verdict == m.test_verdict
            &&& !fine ==> r.stage is Revert && r.final_verdict == m.final_verdict
        }),
{
    let init = traces.drop_last();
    lemma_checked(m, init);
    let n = traces.len() - 1;
    let before = after_runs(m, init);
    let r = after_runs(m, traces);
    assert(traces[n] == traces.last());
    let fine = forall|i: int|
        0 <= i < traces.len() ==> !got_worse(
            m.others[i],
            m.other_baselines[i],
            #[trigger] traces[i],
        );
    if fine {
        assert forall|i: int| 0 <= i < init.len() implies !got_worse(
            m.others[i],
            m.other_baselines[i],
            #[trigger] init[i],
        ) by {
            assert(init[i] == traces[i]);
        }
        assert(!got_worse(m.others[n], m.other_baselines[n], traces[n]));
    } else if before.regressions.len() == 0 && !got_worse(
        m.others[n],
        m.other_baselines[n],
        traces[n],
    ) {
        assert forall|i: int| 0 <= i < traces.len() implies !got_worse(
            m.others[i],
            m.other_baselines[i],
            #[trigger] traces[i],
        ) by {
            if i < n {
                assert(init[i] == traces[i]);
            }
        }
    }
}

/// A reverted suggestion leaves an attempt and nothing else: the verdict stays,
/// nothing is kept, and the next attempt follows where one is left.
pub proof fn law_revert_leaves_an_attempt(m: TrainModel)
    ensures
        ({
            let r = m.after_reverting();
            &&& r.attempts.len() == m.attempts.len() + 1
            &&& r.attempts.take(m.attempts.len() as int) == m.attempts
            &&& r.attempts.last().directive_summary == m.directive.summary_text()
            &&& r.attempts.last().new_verdict == m.test_verdict
            &&& r.attempts.last().half_points == m.points - m.base_points
            &&& r.attempts.last().runs == m.runs
            &&& r.attempts.last().action == m.pending
            &&& r.final_verdict == m.final_verdict
            &&& r.promoted == m.promoted
            &&& r.stage is Advise == (m.attempts.len() + 1 < m.max_attempts)
            &&& r.stage is Over == (m.attempts.len() + 1 >= m.max_attempts)
        }),
{
    let r = m.after_reverting();
    assert(r.attempts.take(m.attempts.len() as int) =~= m.attempts);
}

/// A suggestion to be tried is staged; a declined one and one that cannot be read
/// are attempts that changed nothing.
pub proof fn law_suggestion_is_taken_up(m: TrainModel, d: Option<DirectiveModel>)
    ensures
        ({
            let r = m.after_suggestion(d);
            match d {
                Some(x) => if x is NoChange {
                    r.attempts.len() == m.attempts.len() + 1 && r.attempts.last().action
                        == ActionModel::NoChange && r.promoted == m.promoted && r.final_verdict
                        == m.final_verdict && r.attempts.last().half_points == 0
                } else {
                    r.stage is Stage && r.directive == x && r.attempts == m.attempts
                },
                None => r.attempts.len() == m.attempts.len() + 1 && r.attempts.last().action
                    == ActionModel::Unparseable && r.promoted == m.promoted && r.final_verdict
                    == m.final_verdict && r.attempts.last().half_points == 0,
            }
        }),
{
}

/// A staged suggestion is tested; one that could not be staged is an attempt that
/// says why.
pub proof fn law_staging_is_taken_up(m: TrainModel, error: Option<Seq<char>>)
    ensures
        ({
            let r = m.after_staging(error);
            match error {
                None => r.stage is Retest && r.attempts == m.attempts,
                Some(e) => r.attempts.len() == m.attempts.len() + 1 && (
                r.attempts.last().action matches ActionModel::Reverted { reason } && occurs(
                    reason,
                    e,
                )) && r.promoted == m.promoted && r.final_verdict == m.final_verdict,
            }
        }),
{
    match error {
        Some(e) => {
            lemma_part("apply error: "@, e, seq![]);
            assert("apply error: "@ + e + Seq::<char>::empty() =~= "apply error: "@ + e);
        },
        None => {},
    }
}

/// The outcome tells what the training came to.
pub proof fn law_outcome_tells_the_training(m: TrainModel)
    ensures
        m.outcome().case_id == m.case.id,
        m.outcome().subclass == m.case.subclass,
        m.outcome().baseline_verdict == m.baseline_verdict,
        m.outcome().baseline_reasons == m.reasons,
        m.outcome().final_verdict == m.final_verdict,
        m.outcome().attempts == m.attempts,
        m.outcome().promoted_directive == m.promoted,
{
}

/// Where several runs are asked for, their average decides: more than half of what
/// they could be worth is a pass, less is a fail.
pub proof fn law_several_retests_are_averaged(m: TrainModel, traces: Seq<TraceModel>)
    requires
        m.stage is Retest,
        traces.len() == m.retest_runs,
        traces.len() > 1,
    ensures
        ({
            let w = worth(graded(m.case, traces));
            let v = after_runs(m, traces).test_verdict;
            &&& w > traces.len() ==> v == Verdict::Pass
            &&& w < traces.len() ==> v == Verdict::Fail
            &&& w == traces.len() ==> v == Verdict::Partial
        }),
{
    let init = traces.drop_last();
    law_retests_add_up(m, traces);
    law_retests_add_up(m, init);
}

/// The points of verdicts are what they are worth together.
pub proof fn law_points_are_worths(v: Seq<Verdict>)
    ensures
        total_points(v) == worth(v),
    decreases v.len(),
{
    if v.len() == 0 {
        reveal(Seq::filter);
    } else {
        law_points_are_worths(v.drop_last());
        lemma_worth_push(v.drop_last(), v.last());
        assert(v.drop_last().push(v.last()) =~= v);
    }
}

/// A case that got worse is named with both verdicts, and one that did not leaves
/// no trace.
pub proof fn law_cases_that_got_worse_are_named(m: TrainModel, trace: TraceModel)
    requires
        m.stage is Cross,
        m.at + 1 < m.others.len(),
    ensures
        ({
            let case = m.others[m.at as int];
            let before = m.other_baselines[m.at as int];
            let r = m.after_run(trace);
            &&& r.at == m.at + 1
            &&& got_worse(case, before, trace) ==> r.regressions.len() == m.regressions.len() + 1
                && occurs(r.regressions.last(), case.id) && occurs(
                r.regressions.last(),
                before.name(),
            ) && occurs(r.regressions.last(), judged(case, trace).0.name())
            &&& !got_worse(case, before, trace) ==> r.regressions == m.regressions
        }),
{
    let case = m.others[m.at as int];
    let before = m.other_baselines[m.at as int];
    let none = Seq::<char>::empty();
    lemma_four(
        none,
        case.id,
        ":"@,
        before.name(),
        "→"@,
        judged(case, trace).0.name(),
        none,
        none,
        none,
    );
    let line = case.id + ":"@ + before.name() + "→"@ + judged(case, trace).0.name();
    assert(none + case.id + ":"@ + before.name() + "→"@ + judged(case, trace).0.name() + none
        + none + none =~= line);
}

// ---------------------------------------------------------------------------
// What is run
// ---------------------------------------------------------------------------

/// The primary is run on the case itself, for the reference, the averages and the
/// test, and on the other cases for the check; only the answer to learn from comes
/// from the advisor. The advisor is told the attempts and the rubric.
pub proof fn law_what_a_training_runs(m: TrainModel)
    ensures
        m.stage is Reference || m.stage is Sample || m.stage is Retest || m.stage is Resample
            ==> m.action() == (TrainActionModel::Run {
            executor: AgentChoice::Primary,
            task: m.case.task,
            subclass: m.case.subclass,
        }),
        m.stage is Advise ==> m.action() == (TrainActionModel::Run {
            executor: AgentChoice::Advisor,
            task: m.case.task,
            subclass: m.case.subclass,
        }),
        m.stage is Cross ==> m.action() == (TrainActionModel::Run {
            executor: AgentChoice::Primary,
            task: m.others[m.at as int].task,
            subclass: m.others[m.at as int].subclass,
        }),
        m.stage is Propose ==> (m.action() matches TrainActionModel::Ask { prior_attempts, rubric }
            && prior_attempts == prior_text(m.attempts) && rubric == rubric_text(
            m.case,
            m.reasons,
        )),
        m.stage is Stage ==> m.action() is Stage,
        m.stage is Revert ==> m.action() is Revert,
        m.stage is Over ==> m.action() is Finish,
        m.stage is Show ==> m.action() == (TrainActionModel::Show {
            half_points: m.points - m.base_points,
            runs: m.runs,
        }),
{
}

/// The first pass runs the primary on every case in turn and notes the rubric's
/// verdict under the case's name.
pub proof fn law_first_pass_judges_every_case(m: RunModel, trace: TraceModel)
    requires
        m.baseline.len() < m.cases.len(),
    ensures
        ({
            let case = m.cases[m.baseline.len() as int];
            &&& m.action() == (TrainActionModel::Run {
                executor: AgentChoice::Primary,
                task: case.task,
                subclass: case.subclass,
            })
            &&& m.baseline.len() + 1 < m.cases.len() ==> m.after_run(trace) == (RunModel {
                baseline: m.baseline.push((case.id, judged(case, trace).0)),
                ..m
            })
            &&& m.baseline.len() + 1 == m.cases.len() ==> m.after_run(trace) == (RunModel {
                baseline: m.baseline.push((case.id, judged(case, trace).0)),
                ..m
            }).at_next_case()
        }),
{
}

/// Behind the first pass, a case that passed has its outcome, unchanged and
/// without attempts, and the next case that did not is trained from its verdict.
pub proof fn law_failed_cases_are_trained(m: RunModel)
    requires
        m.outcomes.len() < m.cases.len(),
    ensures
        ({
            let case = m.cases[m.outcomes.len() as int];
            let verdict = baseline_verdict_of(m.baseline, case.id);
            &&& verdict != Verdict::Pass ==> (m.at_next_case().current matches Some(t) && t.case
                == case && t.baseline_verdict == verdict && t.final_verdict == verdict
                && t.stage is Reference && t.attempts.len() == 0 && t.promoted is None
                && t.max_attempts == m.cfg.max_attempts && t.retest_runs == m.cfg.retest_runs)
            &&& verdict == Verdict::Pass ==> m.at_next_case() == (RunModel {
                outcomes: m.outcomes.push(
                    OutcomeModel {
                        case_id: case.id,
                        subclass: case.subclass,
                        baseline_verdict: Verdict::Pass,
                        baseline_reasons: seq![],
                        final_verdict: Verdict::Pass,
                        attempts: seq![],
                        promoted_directive: None,
                    },
                ),
                ..m
            }).at_next_case()
        }),
{
}

/// A case's verdict of the first pass is the last one that was noted under its
/// name, and a fail where none was.
pub proof fn law_last_verdict_counts(list: Seq<(Seq<char>, Verdict)>, id: Seq<char>, i: int)
    requires
        0 <= i < list.len(),
        list[i].0 == id,
        forall|j: int| i < j < list.len() ==> (#[trigger] list[j]).0 != id,
    ensures
        baseline_verdict_of(list, id) == list[i].1,
    decreases list.len(),
{
    if i < list.len() - 1 {
        assert(list[list.len() - 1].0 != id);
        law_last_verdict_counts(list.drop_last(), id, i);
    }
}

/// A case that was never judged counts as failed.
pub proof fn law_unjudged_case_failed(list: Seq<(Seq<char>, Verdict)>, id: Seq<char>)
    requires
        forall|j: int| 0 <= j < list.len() ==> (#[trigger] list[j]).0 != id,
    ensures
        baseline_verdict_of(list, id) == Verdict::Fail,
    decreases list.len(),
{
    if list.len() > 0 {
        assert(list[list.len() - 1].0 != id);
        law_unjudged_case_failed(list.drop_last(), id);
    }
}

// ---------------------------------------------------------------------------
// Cases of other subclasses
// ---------------------------------------------------------------------------

proof fn lemma_firsts(cases: Seq<CaseModel>, sub: Seq<char>, limit: nat, n: nat)
    requires
        n <= cases.len(),
    ensures
        firsts_of(cases, sub, limit, n).len() <= limit,
        forall|k: int|
            0 <= k < firsts_of(cases, sub, limit, n).len() ==> 0 <= #[trigger] firsts_of(
                cases,
                sub,
                limit,
                n,
            )[k] < n && cases[firsts_of(cases, sub, limit, n)[k]].subclass == sub,
        firsts_of(cases, sub, limit, n).len() < limit ==> forall|i: int|
            0 <= i < n && (#[trigger] cases[i]).subclass == sub ==> firsts_of(
                cases,
                sub,
                limit,
                n,
            ).contains(i),
    decreases n,
{
    if n > 0 {
        let m = (n - 1) as nat;
        let before = firsts_of(cases, sub, limit, m);
        let all = firsts_of(cases, sub, limit, n);
        lemma_firsts(cases, sub, limit, m);
        assert forall|k: int| 0 <= k < all.len() implies 0 <= #[trigger] all[k] < n
            && cases[all[k]].subclass == sub by {
            if k < before.len() {
                assert(all[k] == before[k]);
            }
        }
        if all.len() < limit {
            assert forall|i: int| 0 <= i < n && (#[trigger] cases[i]).subclass
                == sub implies all.contains(i) by {
                if i < m {
                    let k = before.index_of(i);
                    assert(before.contains(i));
                    assert(all[k] == i);
                } else {
                    assert(all[before.len() as int] == i);
                }
            }
        }
    }
}

/// A row has the key.
spec fn has_key(rows: Seq<Row>, k: Seq<char>) -> bool {
    exists|i: int| 0 <= i < rows.len() && (#[trigger] rows[i]).0 == k
}

/// One of the first cases is of the subclass.
spec fn has_subclass(cases: Seq<CaseModel>, n: nat, k: Seq<char>) -> bool {
    exists|i: int| 0 <= i < n && (#[trigger] cases[i]).subclass == k
}

proof fn lemma_rows_put(rows: Seq<Row>, key: Seq<char>, value: Seq<char>, k: Seq<char>)
    ensures
        has_key(table::put(rows, key, value), k) == (k == key || has_key(rows, k)),
    decreases rows.len(),
{
    let all = table::put(rows, key, value);
    if rows.len() == 0 {
        assert(all.len() == 1 && all[0].0 == key);
    } else if chars::precedes(rows[0].0, key) {
        let rest = rows.skip(1);
        let more = table::put(rest, key, value);
        lemma_rows_put(rest, key, value, k);
        assert(all =~= seq![rows[0]] + more);
        if exists|i: int| 0 <= i < all.len() && (#[trigger] all[i]).0 == k {
            let i = choose|i: int| 0 <= i < all.len() && (#[trigger] all[i]).0 == k;
            if i == 0 {
                assert(rows[0].0 == k);
            } else {
                assert(more[i - 1].0 == k);
                if k != key {
                    let j = choose|j: int| 0 <= j < rest.len() && (#[trigger] rest[j]).0 == k;
                    assert(rows[j + 1].0 == k);
                }
            }
        }
        if exists|i: int| 0 <= i < rows.len() && (#[trigger] rows[i]).0 == k {
            let i = choose|i: int| 0 <= i < rows.len() && (#[trigger] rows[i]).0 == k;
            if i == 0 {
                assert(all[0].0 == k);
            } else {
                assert(rest[i - 1].0 == k);
                let j = choose|j: int| 0 <= j < more.len() && (#[trigger] more[j]).0 == k;
                assert(all[j + 1].0 == k);
            }
        }
        if k == key {
            let j = choose|j: int| 0 <= j < more.len() && (#[trigger] more[j]).0 == k;
            assert(all[j + 1].0 == k);
        }
    } else {
        let rest = if rows[0].0 == key {
            rows.skip(1)
        } else {
            rows
        };
        assert(all =~= seq![(key, value)] + rest);
        assert(all[0].0 == key);
        if exists|i: int| 0 <= i < rows.len() && (#[trigger] rows[i]).0 == k {
            let i = choose|i: int| 0 <= i < rows.len() && (#[trigger] rows[i]).0 == k;
            if rows[0].0 == key {
                if i > 0 {
                    assert(all[i].0 == k);
                }
            } else {
                assert(all[i + 1].0 == k);
            }
        }
        if exists|i: int| 0 <= i < all.len() && (#[trigger] all[i]).0 == k {
            let i = choose|i: int| 0 <= i < all.len() && (#[trigger] all[i]).0 == k;
            if i > 0 {
                assert(rest[i - 1].0 == k);
                if rows[0].0 == key {
                    assert(rows[i].0 == k);
                } else {
                    assert(rows[i - 1].0 == k);
                }
            }
        }
    }
}

proof fn lemma_subclass_next(cases: Seq<CaseModel>, n: nat, k: Seq<char>)
    requires
        n > 0,
    ensures
        has_subclass(cases, n, k) == (cases[n - 1].subclass == k || has_subclass(
            cases,
            (n - 1) as nat,
            k,
        )),
{
    let m = (n - 1) as nat;
    if has_subclass(cases, n, k) {
        let i = choose|i: int| 0 <= i < n && (#[trigger] cases[i]).subclass == k;
        if i < m {
            assert(has_subclass(cases, m, k));
        }
    }
    if has_subclass(cases, m, k) {
        let i = choose|i: int| 0 <= i < m && (#[trigger] cases[i]).subclass == k;
        assert(0 <= i < n && cases[i].subclass == k);
    }
    if cases[n - 1].subclass == k {
        assert(0 <= n - 1 < n && cases[n - 1].subclass == k);
    }
}

proof fn lemma_other_rows(cases: Seq<CaseModel>, current: Seq<char>, n: nat, k: Seq<char>)
    requires
        n <= cases.len(),
    ensures
        has_key(other_subclasses(cases, current, n), k) == (k != current && has_subclass(
            cases,
            n,
            k,
        )),
    decreases n,
{
    if n > 0 {
        let m = (n - 1) as nat;
        lemma_other_rows(cases, current, m, k);
        lemma_rows_put(other_subclasses(cases, current, m), cases[n - 1].subclass, ""@, k);
        lemma_subclass_next(cases, n, k);
    }
}

proof fn lemma_sample(cases: Seq<CaseModel>, rows: Seq<Row>, limit: nat, k: nat)
    requires
        k <= rows.len(),
    ensures
        forall|x: int|
            0 <= x < cross_sample(cases, rows, limit, k).len() ==> {
                let p = #[trigger] cross_sample(cases, rows, limit, k)[x];
                0 <= p < cases.len() && exists|r: int|
                    0 <= r < k && (#[trigger] rows[r]).0 == cases[p].subclass
            },
        forall|r: int, x: int|
            0 <= r < k && 0 <= x < firsts_of(cases, (#[trigger] rows[r]).0, limit, cases.len()).len()
                ==> cross_sample(cases, rows, limit, k).contains(
                #[trigger] firsts_of(cases, rows[r].0, limit, cases.len())[x],
            ),
    decreases k,
{
    if k > 0 {
        let m = (k - 1) as nat;
        lemma_sample(cases, rows, limit, m);
        lemma_firsts(cases, rows[k - 1].0, limit, cases.len());
        let before = cross_sample(cases, rows, limit, m);
        let more = firsts_of(cases, rows[k - 1].0, limit, cases.len());
        let all = cross_sample(cases, rows, limit, k);
        assert forall|x: int| 0 <= x < all.len() implies ({
            let p = #[trigger] all[x];
            0 <= p < cases.len() && exists|r: int|
                0 <= r < k && (#[trigger] rows[r]).0 == cases[p].subclass
        }) by {
            if x < before.len() {
                assert(all[x] == before[x]);
                let r = choose|r: int|
                    0 <= r < m && (#[trigger] rows[r]).0 == cases[before[x]].subclass;
                assert(rows[r].0 == cases[all[x]].subclass);
            } else {
                assert(all[x] == more[x - before.len()]);
                assert(rows[k - 1].0 == cases[all[x]].subclass);
            }
        }
        assert forall|r: int, x: int|
            0 <= r < k && 0 <= x < firsts_of(
                cases,
                (#[trigger] rows[r]).0,
                limit,
                cases.len(),
            ).len() implies all.contains(
            #[trigger] firsts_of(cases, rows[r].0, limit, cases.len())[x],
        ) by {
            let p = firsts_of(cases, rows[r].0, limit, cases.len())[x];
            if r < k - 1 {
                assert(before.contains(p));
                let y = before.index_of(p);
                assert(all[y] == p);
            } else {
                assert(all[before.len() + x] == p);
            }
        }
    }
}

/// The cases that are checked before a suggestion is kept come from other
/// subclasses only, every other subclass that has a case is checked where any may
/// be, and where a subclass has fewer cases than may be checked they all are.
pub proof fn law_other_subclasses_are_checked(
    cases: Seq<CaseModel>,
    current: Seq<char>,
    limit: nat,
)
    ensures
        forall|x: int|
            0 <= x < cross_cases(cases, current, limit).len() ==> 0 <= #[trigger] cross_cases(
                cases,
                current,
                limit,
            )[x] < cases.len() && cases[cross_cases(cases, current, limit)[x]].subclass != current,
        forall|i: int|
            0 <= i < cases.len() && (#[trigger] cases[i]).subclass != current && firsts_of(
                cases,
                cases[i].subclass,
                limit,
                cases.len(),
            ).len() < limit ==> cross_cases(cases, current, limit).contains(i),
        limit == 0 ==> cross_cases(cases, current, limit).len() == 0,
        limit > 0 ==> forall|i: int|
            0 <= i < cases.len() && (#[trigger] cases[i]).subclass != current ==> exists|x: int|
                0 <= x < cross_cases(cases, current, limit).len() && cases[#[trigger] cross_cases(
                    cases,
                    current,
                    limit,
                )[x]].subclass == cases[i].subclass,
{
    let n = cases.len();
    let rows = other_subclasses(cases, current, n);
    let all = cross_cases(cases, current, limit);
    lemma_sample(cases, rows, limit, rows.len());
    assert forall|x: int| 0 <= x < all.len() implies 0 <= #[trigger] all[x] < cases.len()
        && cases[all[x]].subclass != current by {
        let p = all[x];
        lemma_other_rows(cases, current, n, cases[p].subclass);
        assert(has_key(rows, cases[p].subclass));
    }
    assert forall|i: int|
        0 <= i < cases.len() && (#[trigger] cases[i]).subclass != current && firsts_of(
            cases,
            cases[i].subclass,
            limit,
            cases.len(),
        ).len() < limit implies all.contains(i) by {
        let sub = cases[i].subclass;
        lemma_other_rows(cases, current, n, sub);
        assert(has_subclass(cases, n, sub));
        lemma_firsts(cases, sub, limit, n);
        let r = choose|r: int| 0 <= r < rows.len() && (#[trigger] rows[r]).0 == sub;
        let f = firsts_of(cases, rows[r].0, limit, cases.len());
        assert(f.contains(i));
        let x = f.index_of(i);
        assert(all.contains(f[x]));
    }
    if limit == 0 {
        if all.len() > 0 {
            lemma_nothing(cases, rows, rows.len());
        }
    }
    if limit > 0 {
        assert forall|i: int| 0 <= i < cases.len() && (#[trigger] cases[i]).subclass
            != current implies exists|x: int|
            0 <= x < all.len() && cases[#[trigger] all[x]].subclass == cases[i].subclass by {
            let sub = cases[i].subclass;
            lemma_other_rows(cases, current, n, sub);
            assert(has_subclass(cases, n, sub));
            lemma_firsts(cases, sub, limit, n);
            let r = choose|r: int| 0 <= r < rows.len() && (#[trigger] rows[r]).0 == sub;
            let f = firsts_of(cases, rows[r].0, limit, cases.len());
            if f.len() == 0 {
                assert(f.contains(i));
            }
            assert(all.contains(f[0]));
            let x = all.index_of(f[0]);
            assert(cases[all[x]].subclass == sub);
        }
    }
}

proof fn lemma_nothing(cases: Seq<CaseModel>, rows: Seq<Row>, k: nat)
    ensures
        cross_sample(cases, rows, 0, k).len() == 0,
    decreases k,
{
    if k > 0 {
        lemma_nothing(cases, rows, (k - 1) as nat);
        lemma_no_firsts(cases, rows[k - 1].0, cases.len());
    }
}

proof fn lemma_no_firsts(cases: Seq<CaseModel>, sub: Seq<char>, n: nat)
    ensures
        firsts_of(cases, sub, 0, n).len() == 0,
    decreases n,
{
    if n > 0 {
        lemma_no_firsts(cases, sub, (n - 1) as nat);
    }
}

/// Each of the cases that are checked comes with its own verdict of the first
/// pass.
pub proof fn law_checked_cases_come_with_their_verdicts(m: RunModel, k: int)
    requires
        m.outcomes.len() < m.cases.len(),
        0 <= k < cross_cases(
            m.cases,
            m.cases[m.outcomes.len() as int].subclass,
            m.cfg.cross_check_per_subclass as nat,
        ).len(),
    ensures
        ({
            let case = m.cases[m.outcomes.len() as int];
            let at = cross_cases(
                m.cases,
                case.subclass,
                m.cfg.cross_check_per_subclass as nat,
            );
            let t = m.case_training();
            &&& t.others.len() == at.len() && t.other_baselines.len() == at.len()
            &&& t.others[k] == m.cases[at[k]]
            &&& t.other_baselines[k] == baseline_verdict_of(m.baseline, m.cases[at[k]].id)
            &&& t.others[k].subclass != case.subclass
        }),
{
    let case = m.cases[m.outcomes.len() as int];
    law_other_subclasses_are_checked(
        m.cases,
        case.subclass,
        m.cfg.cross_check_per_subclass as nat,
    );
}

/// A case whose training is over has its outcome behind those before it, and the
/// next case follows; any other training goes on.
pub proof fn law_outcomes_come_one_by_one(m: RunModel, t: TrainModel)
    ensures
        t.stage is Over ==> m.with_case(t) == (RunModel {
            outcomes: m.outcomes.push(t.outcome()),
            current: None,
            ..m
        }).at_next_case(),
        !(t.stage is Over) ==> m.with_case(t) == (RunModel { current: Some(t), ..m }),
{
}

/// The entry stands for its name: no later one has it.
pub open spec fn stands_for(list: Seq<(Seq<char>, Verdict)>) -> spec_fn(int) -> bool {
    |i: int| is_latest(list, i)
}

/// The verdicts that count are those of the last entry of each name, in order.
pub proof fn law_last_entries_count(list: Seq<(Seq<char>, Verdict)>, n: nat)
    ensures
        latest_verdicts(list, n) == Seq::new(n, |i: int| i).filter(
            stands_for(list),
        ).map_values(|i: int| list[i].1),
    decreases n,
{
    reveal(Seq::filter);
    let f = stands_for(list);
    let read = |i: int| list[i].1;
    let all = Seq::new(n, |i: int| i);
    if n == 0 {
        assert(latest_verdicts(list, n) =~= all.filter(f).map_values(read));
    } else {
        let m = (n - 1) as nat;
        law_last_entries_count(list, m);
        let init = Seq::new(m, |i: int| i);
        assert(all.drop_last() =~= init);
        let kept = init.filter(f);
        if is_latest(list, n - 1) {
            assert(kept.push(n - 1).map_values(read) =~= kept.map_values(read).push(
                list[n - 1].1,
            ));
        }
    }
}

// ---------------------------------------------------------------------------
// What is told
// ---------------------------------------------------------------------------

/// The advisor is told every attempt so far: what was suggested, the verdict, and
/// by how much the score changed.
pub proof fn law_attempts_are_told(attempts: Seq<AttemptModel>, i: int)
    requires
        0 <= i < attempts.len(),
    ensures
        occurs(prior_text(attempts), attempts[i].directive_summary),
        occurs(prior_text(attempts), attempts[i].new_verdict.name()),
        occurs(prior_text(attempts), attempts[i].delta_score),
        occurs(prior_text(attempts), attempts[i].action.described()),
{
    let lines = attempt_lines(attempts);
    let end = "\nYour next proposal MUST take a different angle than the prior attempts above."@;
    lemma_attempt_told(attempts, i);
    let a = attempts[i];
    law_occurrence_carries_over(seq![], lines, end, a.directive_summary);
    law_occurrence_carries_over(seq![], lines, end, a.new_verdict.name());
    law_occurrence_carries_over(seq![], lines, end, a.delta_score);
    law_occurrence_carries_over(seq![], lines, end, a.action.described());
    assert(Seq::<char>::empty() + lines + end =~= lines + end);
}

proof fn lemma_attempt_told(attempts: Seq<AttemptModel>, i: int)
    requires
        0 <= i < attempts.len(),
    ensures
        occurs(attempt_lines(attempts), attempts[i].directive_summary),
        occurs(attempt_lines(attempts), attempts[i].new_verdict.name()),
        occurs(attempt_lines(attempts), attempts[i].delta_score),
        occurs(attempt_lines(attempts), attempts[i].action.described()),
    decreases attempts.len(),
{
    let a = attempts[i];
    let before = attempt_lines(attempts.drop_last());
    let last = attempt_line(attempts.len(), attempts.last());
    if i < attempts.len() - 1 {
        lemma_attempt_told(attempts.drop_last(), i);
        law_occurrence_carries_over(seq![], before, last, a.directive_summary);
        law_occurrence_carries_over(seq![], before, last, a.new_verdict.name());
        law_occurrence_carries_over(seq![], before, last, a.delta_score);
        law_occurrence_carries_over(seq![], before, last, a.action.described());
        assert(Seq::<char>::empty() + before + last =~= before + last);
    } else {
        let p1 = "Attempt "@ + numbers::decimal(attempts.len()) + ": "@;
        let p2 = " → verdict="@;
        let p3 = " Δscore="@;
        let p4 = " ("@;
        let p5 = ")\n"@;
        let s1 = a.directive_summary;
        let s2 = a.new_verdict.name();
        let s3 = a.delta_score;
        let s4 = a.action.described();
        lemma_four(p1, s1, p2, s2, p3, s3, p4, s4, p5);
        law_occurrence_carries_over(before, last, seq![], s1);
        law_occurrence_carries_over(before, last, seq![], s2);
        law_occurrence_carries_over(before, last, seq![], s3);
        law_occurrence_carries_over(before, last, seq![], s4);
        assert(before + last + Seq::<char>::empty() =~= before + last);
    }
}

/// The number of kept suggestions is how many outcomes have one.
pub proof fn law_promotions_are_counted(outcomes: Seq<OutcomeModel>)
    ensures
        promotions(outcomes) == outcomes.filter(
            |o: OutcomeModel| o.promoted_directive is Some,
        ).len(),
        final_verdicts(outcomes).len() == outcomes.len(),
        forall|i: int|
            0 <= i < outcomes.len() ==> final_verdicts(outcomes)[i] == (
            #[trigger] outcomes[i]).final_verdict,
    decreases outcomes.len(),
{
    reveal(Seq::filter);
    if outcomes.len() > 0 {
        law_promotions_are_counted(outcomes.drop_last());
    }
}

}
