//! Training: for each case that the primary does not pass, the advisor suggests
//! adjustments, each of which is staged, tested and then kept or reverted.
use vstd::prelude::*;

use crate::adjustments;
use crate::adjustments::{applied, opt_directive, AdjustmentDirective, DirectiveModel};
use crate::chars;
use crate::numbers;
use crate::prompts;
use crate::prompts::{PromptStore, StoreModel};
use crate::rubric;
use crate::rubric::{
    case_models, half_points, judged, CaseModel, CaseSpec, Verdict,
};
use crate::session::{SessionTrace, TraceModel};
use crate::table;
use crate::table::{Row, Table};
use crate::text;
use crate::types::{AgentChoice, MessageClass};

verus! {

/// How a training goes. `cross_check_per_subclass` cases of every other subclass
/// are run before an adjustment is kept, none where it is 0. `retest_runs` runs
/// are averaged.
#[derive(Debug, Clone, Copy)]
pub struct TrainingConfig {
    pub max_attempts: usize,
    pub cross_check_per_subclass: usize,
    pub retest_runs: usize,
    pub class: MessageClass,
}

impl Default for TrainingConfig {
    fn default() -> (r: Self)
        ensures
            r == (TrainingConfig {
                max_attempts: 5,
                cross_check_per_subclass: 2,
                retest_runs: 1,
                class: MessageClass::MiniHow,
            }),
    {
        TrainingConfig {
            max_attempts: 5,
            cross_check_per_subclass: 2,
            retest_runs: 1,
            class: MessageClass::MiniHow,
        }
    }
}

/// What became of an attempt.
#[derive(Debug)]
pub enum AttemptAction {
    NoChange,
    Promoted { summary: String },
    Reverted { reason: String },
    CrossCatRegressed { regressions: Vec<String> },
    Unparseable,
}

/// What became of an attempt, by its texts.
pub ghost enum ActionModel {
    NoChange,
    Promoted { summary: Seq<char> },
    Reverted { reason: Seq<char> },
    CrossCatRegressed { regressions: Seq<Seq<char>> },
    Unparseable,
}

impl View for AttemptAction {
    type V = ActionModel;

    open spec fn view(&self) -> ActionModel {
        match self {
            AttemptAction::NoChange => ActionModel::NoChange,
            AttemptAction::Promoted { summary } => ActionModel::Promoted { summary: summary@ },
            AttemptAction::Reverted { reason } => ActionModel::Reverted { reason: reason@ },
            AttemptAction::CrossCatRegressed { regressions } => ActionModel::CrossCatRegressed {
                regressions: chars::owned_texts(regressions@),
            },
            AttemptAction::Unparseable => ActionModel::Unparseable,
        }
    }
}

/// One attempt. The score changed by `half_points` over `runs` runs, none where
/// the suggestion was not tested; `delta_score` shows the change of the average
/// score as a signed decimal.
#[derive(Debug)]
pub struct AttemptRecord {
    pub directive_summary: String,
    pub new_verdict: Verdict,
    pub half_points: i128,
    pub runs: usize,
    pub delta_score: String,
    pub action: AttemptAction,
}

/// The contents of an attempt.
pub ghost struct AttemptModel {
    pub directive_summary: Seq<char>,
    pub new_verdict: Verdict,
    pub half_points: int,
    pub runs: nat,
    pub delta_score: Seq<char>,
    pub action: ActionModel,
}

impl View for AttemptRecord {
    type V = AttemptModel;

    open spec fn view(&self) -> AttemptModel {
        AttemptModel {
            directive_summary: self.directive_summary@,
            new_verdict: self.new_verdict,
            half_points: self.half_points as int,
            runs: self.runs as nat,
            delta_score: self.delta_score@,
            action: self.action@,
        }
    }
}

/// The contents of a list of attempts.
pub open spec fn attempt_models(v: Seq<AttemptRecord>) -> Seq<AttemptModel> {
    v.map_values(|a: AttemptRecord| a@)
}

#[derive(Debug)]
pub struct CaseOutcome {
    pub case_id: String,
    pub subclass: String,
    pub baseline_verdict: Verdict,
    pub baseline_reasons: Vec<String>,
    pub final_verdict: Verdict,
    pub attempts: Vec<AttemptRecord>,
    pub promoted_directive: Option<String>,
}

/// The contents of an outcome.
pub ghost struct OutcomeModel {
    pub case_id: Seq<char>,
    pub subclass: Seq<char>,
    pub baseline_verdict: Verdict,
    pub baseline_reasons: Seq<Seq<char>>,
    pub final_verdict: Verdict,
    pub attempts: Seq<AttemptModel>,
    pub promoted_directive: Option<Seq<char>>,
}

impl View for CaseOutcome {
    type V = OutcomeModel;

    open spec fn view(&self) -> OutcomeModel {
        OutcomeModel {
            case_id: self.case_id@,
            subclass: self.subclass@,
            baseline_verdict: self.baseline_verdict,
            baseline_reasons: chars::owned_texts(self.baseline_reasons@),
            final_verdict: self.final_verdict,
            attempts: attempt_models(self.attempts@),
            promoted_directive: chars::opt_text(self.promoted_directive),
        }
    }
}

#[derive(Debug)]
pub struct TrainingReport {
    pub cases: Vec<CaseOutcome>,
    pub baseline_pass: usize,
    pub baseline_partial: usize,
    pub baseline_fail: usize,
    pub final_pass: usize,
    pub final_partial: usize,
    pub final_fail: usize,
    pub total_promoted: usize,
}

/// The contents of a list of outcomes.
pub open spec fn outcome_models(v: Seq<CaseOutcome>) -> Seq<OutcomeModel> {
    v.map_values(|o: CaseOutcome| o@)
}

// ---------------------------------------------------------------------------
// What the advisor is told
// ---------------------------------------------------------------------------

impl ActionModel {
    pub open spec fn described(self) -> Seq<char> {
        match self {
            ActionModel::NoChange => "you declined to propose"@,
            ActionModel::Promoted { .. } => "promoted"@,
            ActionModel::Reverted { .. } => "reverted, did not help"@,
            ActionModel::CrossCatRegressed { .. } => "reverted, hurt other categories"@,
            ActionModel::Unparseable => "your response was unparseable"@,
        }
    }
}

pub fn describe_action(action: &AttemptAction) -> (r: &'static str)
    ensures
        r@ == action@.described(),
{
    match action {
        AttemptAction::NoChange => "you declined to propose",
        AttemptAction::Promoted { .. } => "promoted",
        AttemptAction::Reverted { .. } => "reverted, did not help",
        AttemptAction::CrossCatRegressed { .. } => "reverted, hurt other categories",
        AttemptAction::Unparseable => "your response was unparseable",
    }
}

/// The line of the attempt with number `n`.
pub open spec fn attempt_line(n: nat, a: AttemptModel) -> Seq<char> {
    "Attempt "@ + numbers::decimal(n) + ": "@ + a.directive_summary + " → verdict="@
        + a.new_verdict.name() + " Δscore="@ + a.delta_score + " ("@ + a.action.described()
        + ")\n"@
}

/// The lines of attempts.
pub open spec fn attempt_lines(attempts: Seq<AttemptModel>) -> Seq<char>
    decreases attempts.len(),
{
    if attempts.len() == 0 {
        seq![]
    } else {
        attempt_lines(attempts.drop_last()) + attempt_line(attempts.len(), attempts.last())
    }
}

/// What the advisor is told about its earlier attempts.
pub open spec fn prior_text(attempts: Seq<AttemptModel>) -> Seq<char> {
    if attempts.len() == 0 {
        "(none — this is your first attempt for this case)"@
    } else {
        attempt_lines(attempts)
            + "\nYour next proposal MUST take a different angle than the prior attempts above."@
    }
}

pub fn format_prior_attempts(attempts: &Vec<AttemptRecord>) -> (r: String)
    ensures
        r@ == prior_text(attempt_models(attempts@)),
{
    if attempts.len() == 0 {
        return "(none — this is your first attempt for this case)".to_owned();
    }
    let mut out = String::new();
    let ghost all = attempt_models(attempts@);
    let mut i: usize = 0;
    assert(all.take(0) =~= Seq::empty());
    while i < attempts.len()
        invariant
            i <= attempts.len(),
            all == attempt_models(attempts@),
            out@ == attempt_lines(all.take(i as int)),
        decreases attempts.len() - i,
    {
        let ghost before = out@;
        let a = &attempts[i];
        assert(all[i as int] == a@);
        assert(all.take(i + 1).drop_last() =~= all.take(i as int));
        out.append("Attempt ");
        out.append(numbers::usize_text(i + 1).as_str());
        out.append(": ");
        out.append(a.directive_summary.as_str());
        out.append(" → verdict=");
        out.append(a.new_verdict.label());
        out.append(" Δscore=");
        out.append(a.delta_score.as_str());
        out.append(" (");
        out.append(describe_action(&a.action));
        out.append(")\n");
        assert(out@ =~= before + attempt_line((i + 1) as nat, a@));
        i += 1;
    }
    assert(all.take(i as int) =~= all);
    out.append("\nYour next proposal MUST take a different angle than the prior attempts above.");
    out
}

/// The texts in a list, or that there are none.
pub open spec fn listed_or_none(list: Seq<Seq<char>>) -> Seq<char> {
    if list.len() == 0 {
        "(none)"@
    } else {
        chars::join(list, ", "@)
    }
}

/// The texts as a list of points.
pub open spec fn pointed(list: Seq<Seq<char>>) -> Seq<Seq<char>> {
    list.map_values(|t: Seq<char>| "- "@ + t)
}

/// What the advisor is told about how a case is graded and what was missed.
pub open spec fn rubric_text(case: CaseModel, failures: Seq<Seq<char>>) -> Seq<char> {
    "Pawbench grades this case on EXACT token/tool matches. Your rule MUST target the gaps below; semantic equivalents (e.g. \"threats\" vs \"contacts\") do NOT count.\nmin_tool_calls: "@
        + numbers::decimal(case.min_tool_calls)
        + "\nmust_tools (each must appear at least once in EXEC): "@ + listed_or_none(
        case.must_tools,
    ) + "\nmust_in_output (each token must appear in primary's DONE answer): "@ + listed_or_none(
        case.must_in_output,
    ) + "\nmust_in_exec (each token must appear in some EXEC result): "@ + listed_or_none(
        case.must_in_exec,
    ) + "\n\ncurrent_failures (what primary missed on its last run):\n"@ + (if failures.len()
        == 0 {
        "(none — primary already met the rubric on this run)"@
    } else {
        chars::join(pointed(failures), "\n"@)
    })
}

fn list_or_none(list: &Vec<String>) -> (r: String)
    ensures
        r@ == listed_or_none(chars::owned_texts(list@)),
{
    if list.len() == 0 {
        "(none)".to_owned()
    } else {
        text::join_owned(list, ", ")
    }
}

fn point_all(list: &Vec<String>) -> (r: Vec<String>)
    ensures
        chars::owned_texts(r@) == pointed(chars::owned_texts(list@)),
{
    let ghost want = pointed(chars::owned_texts(list@));
    let mut out: Vec<String> = Vec::new();
    let mut i: usize = 0;
    assert(chars::owned_texts(out@) =~= want.take(0));
    while i < list.len()
        invariant
            i <= list.len(),
            want == pointed(chars::owned_texts(list@)),
            chars::owned_texts(out@) == want.take(i as int),
        decreases list.len() - i,
    {
        let ghost before = chars::owned_texts(out@);
        out.push("- ".to_owned().concat(list[i].as_str()));
        assert(chars::owned_texts(out@) =~= before.push(want[i as int]));
        assert(want.take(i + 1) =~= before.push(want[i as int]));
        i += 1;
    }
    assert(want.take(i as int) =~= want);
    out
}

pub fn format_rubric(case: &CaseSpec, failures: &Vec<String>) -> (r: String)
    ensures
        r@ == rubric_text(case@, chars::owned_texts(failures@)),
{
    let mut out =
        "Pawbench grades this case on EXACT token/tool matches. Your rule MUST target the gaps below; semantic equivalents (e.g. \"threats\" vs \"contacts\") do NOT count.\nmin_tool_calls: ".to_owned();
    out.append(numbers::usize_text(case.min_tool_calls).as_str());
    out.append("\nmust_tools (each must appear at least once in EXEC): ");
    out.append(list_or_none(&case.must_tools).as_str());
    out.append("\nmust_in_output (each token must appear in primary's DONE answer): ");
    out.append(list_or_none(&case.must_in_output).as_str());
    out.append("\nmust_in_exec (each token must appear in some EXEC result): ");
    out.append(list_or_none(&case.must_in_exec).as_str());
    out.append("\n\ncurrent_failures (what primary missed on its last run):\n");
    if failures.len() == 0 {
        out.append("(none — primary already met the rubric on this run)");
    } else {
        out.append(text::join_owned(&point_all(failures), "\n").as_str());
    }
    out
}

// ---------------------------------------------------------------------------
// Scores
// ---------------------------------------------------------------------------

/// The verdict for an average of `points` half points over `runs`: a pass above
/// one half, a fail below it.
pub open spec fn verdict_of_average(points: nat, runs: nat) -> Verdict {
    if points > runs {
        Verdict::Pass
    } else if points < runs {
        Verdict::Fail
    } else {
        Verdict::Partial
    }
}

/// The half points of verdicts together.
pub open spec fn total_points(v: Seq<Verdict>) -> nat
    decreases v.len(),
{
    if v.len() == 0 {
        0
    } else {
        total_points(v.drop_last()) + half_points(v.last())
    }
}

pub fn verdict_from_avg_score(points: u128, runs: usize) -> (r: Verdict)
    requires
        points <= 2 * runs,
    ensures
        r == verdict_of_average(points as nat, runs as nat),
{
    let n: u128 = runs as u128;
    if points > n {
        Verdict::Pass
    } else if points < n {
        Verdict::Fail
    } else {
        Verdict::Partial
    }
}

/// A verdict is worse than the baseline.
pub fn regressed(baseline: Verdict, new: Verdict) -> (r: bool)
    ensures
        r == (half_points(new) < half_points(baseline)),
{
    rubric::score(new) < rubric::score(baseline)
}

/// How many verdicts of a kind there are.
pub open spec fn count_verdicts(v: Seq<Verdict>, kind: Verdict) -> nat
    decreases v.len(),
{
    if v.len() == 0 {
        0
    } else {
        count_verdicts(v.drop_last(), kind) + (if v.last() == kind {
            1nat
        } else {
            0nat
        })
    }
}

fn tally(v: &Vec<Verdict>, kind: Verdict) -> (r: usize)
    ensures
        r == count_verdicts(v@, kind),
        r <= v@.len(),
{
    let mut n: usize = 0;
    let mut i: usize = 0;
    assert(v@.take(0) =~= Seq::empty());
    while i < v.len()
        invariant
            n <= i <= v.len(),
            n == count_verdicts(v@.take(i as int), kind),
        decreases v.len() - i,
    {
        assert(v@.take(i + 1).drop_last() =~= v@.take(i as int));
        if v[i] == kind {
            n += 1;
        }
        i += 1;
    }
    assert(v@.take(i as int) =~= v@);
    n
}

// ---------------------------------------------------------------------------
// Baselines
// ---------------------------------------------------------------------------

/// The verdicts of a first pass, in the order of the cases.
pub open spec fn entries(v: Seq<(String, Verdict)>) -> Seq<(Seq<char>, Verdict)> {
    v.map_values(|e: (String, Verdict)| (e.0@, e.1))
}

/// The verdict of a case: the last one under its name, a fail where there is
/// none.
pub open spec fn baseline_verdict_of(
    list: Seq<(Seq<char>, Verdict)>,
    id: Seq<char>,
) -> Verdict
    decreases list.len(),
{
    if list.len() == 0 {
        Verdict::Fail
    } else if list.last().0 == id {
        list.last().1
    } else {
        baseline_verdict_of(list.drop_last(), id)
    }
}

/// No later entry has the name of entry `i`.
pub open spec fn is_latest(list: Seq<(Seq<char>, Verdict)>, i: int) -> bool {
    forall|j: int| i < j < list.len() ==> (#[trigger] list[j]).0 != list[i].0
}

/// The verdicts of the first `n` entries that no later entry replaces.
pub open spec fn latest_verdicts(list: Seq<(Seq<char>, Verdict)>, n: nat) -> Seq<Verdict>
    decreases n,
{
    if n == 0 {
        seq![]
    } else {
        let before = latest_verdicts(list, (n - 1) as nat);
        if is_latest(list, n - 1) {
            before.push(list[n - 1].1)
        } else {
            before
        }
    }
}

/// The entry of a case in the first pass.
pub fn baseline_entry(case: &CaseSpec, trace: &SessionTrace) -> (r: (String, Verdict))
    ensures
        r.0@ == case@.id,
        r.1 == judged(case@, trace@).0,
{
    let (verdict, _) = rubric::evaluate(case, trace);
    (case.id.clone(), verdict)
}

/// The verdict of a case in the first pass.
pub fn baseline_of(list: &Vec<(String, Verdict)>, id: &str) -> (r: Verdict)
    ensures
        r == baseline_verdict_of(entries(list@), id@),
{
    let ghost all = entries(list@);
    let mut i: usize = list.len();
    assert(all.take(i as int) =~= all);
    while i > 0
        invariant
            i <= list.len(),
            all == entries(list@),
            baseline_verdict_of(all, id@) == baseline_verdict_of(all.take(i as int), id@),
        decreases i,
    {
        assert(all.take(i as int).drop_last() =~= all.take(i - 1));
        i -= 1;
        assert(all[i as int] == (list@[i as int].0@, list@[i as int].1));
        if text::same(list[i].0.as_str(), id) {
            return list[i].1;
        }
    }
    Verdict::Fail
}

/// The verdicts of the first pass, one for each name.
pub fn baseline_verdicts(list: &Vec<(String, Verdict)>) -> (r: Vec<Verdict>)
    ensures
        r@ == latest_verdicts(entries(list@), list@.len()),
{
    let ghost all = entries(list@);
    let mut out: Vec<Verdict> = Vec::new();
    let mut i: usize = 0;
    while i < list.len()
        invariant
            i <= list.len(),
            all == entries(list@),
            out@ == latest_verdicts(all, i as nat),
        decreases list.len() - i,
    {
        let mut j: usize = i + 1;
        let mut latest = true;
        while j < list.len()
            invariant
                i < j <= list.len(),
                all == entries(list@),
                latest == (forall|k: int| i < k < j ==> (#[trigger] all[k]).0 != all[i as int].0),
            decreases list.len() - j,
        {
            assert(all[j as int].0 == list@[j as int].0@);
            assert(all[i as int].0 == list@[i as int].0@);
            if text::same(list[j].0.as_str(), list[i].0.as_str()) {
                latest = false;
            }
            j += 1;
        }
        if latest {
            out.push(list[i].1);
        }
        i += 1;
    }
    out
}

// ---------------------------------------------------------------------------
// Cases of other subclasses
// ---------------------------------------------------------------------------

/// The subclasses of the first `n` cases but one, in order, each once.
pub open spec fn other_subclasses(
    cases: Seq<CaseModel>,
    current: Seq<char>,
    n: nat,
) -> Seq<Row>
    decreases n,
{
    if n == 0 {
        seq![]
    } else {
        let before = other_subclasses(cases, current, (n - 1) as nat);
        let sub = cases[n - 1].subclass;
        if sub == current {
            before
        } else {
            table::put(before, sub, ""@)
        }
    }
}

/// The positions of the first `limit` cases of a subclass among the first `n`.
pub open spec fn firsts_of(
    cases: Seq<CaseModel>,
    sub: Seq<char>,
    limit: nat,
    n: nat,
) -> Seq<int>
    decreases n,
{
    if n == 0 {
        seq![]
    } else {
        let before = firsts_of(cases, sub, limit, (n - 1) as nat);
        if cases[n - 1].subclass == sub && before.len() < limit {
            before.push(n - 1)
        } else {
            before
        }
    }
}

/// The positions of the cases that are checked before an adjustment to a
/// subclass is kept: the first ones of every other subclass.
pub open spec fn cross_sample(
    cases: Seq<CaseModel>,
    rows: Seq<Row>,
    limit: nat,
    k: nat,
) -> Seq<int>
    decreases k,
{
    if k == 0 {
        seq![]
    } else {
        cross_sample(cases, rows, limit, (k - 1) as nat) + firsts_of(
            cases,
            rows[k - 1].0,
            limit,
            cases.len(),
        )
    }
}

/// The positions of the cases that are checked before an adjustment is kept.
pub open spec fn cross_cases(
    cases: Seq<CaseModel>,
    current: Seq<char>,
    limit: nat,
) -> Seq<int> {
    let rows = other_subclasses(cases, current, cases.len());
    cross_sample(cases, rows, limit, rows.len())
}

/// Positions as mathematical integers.
pub open spec fn positions(v: Seq<usize>) -> Seq<int> {
    v.map_values(|i: usize| i as int)
}

/// The positions of the cases that are checked before an adjustment to a
/// subclass is kept.
pub fn select_cross_cases(cases: &Vec<CaseSpec>, current: &str, limit: usize) -> (r: Vec<usize>)
    ensures
        positions(r@) == cross_cases(case_models(cases@), current@, limit as nat),
        forall|i: int| 0 <= i < r@.len() ==> (#[trigger] r@[i]) < cases@.len(),
{
    let ghost all = case_models(cases@);
    let mut subs = Table::new();
    let mut i: usize = 0;
    while i < cases.len()
        invariant
            i <= cases.len(),
            all == case_models(cases@),
            subs@ == other_subclasses(all, current@, i as nat),
        decreases cases.len() - i,
    {
        assert(all[i as int] == cases@[i as int]@);
        if !text::same(cases[i].subclass.as_str(), current) {
            subs.insert(cases[i].subclass.as_str(), "");
        }
        i += 1;
    }
    let ghost rows = subs@;
    let mut out: Vec<usize> = Vec::new();
    let mut k: usize = 0;
    assert(positions(out@) =~= seq![]);
    while k < subs.len()
        invariant
            k <= rows.len(),
            rows == subs@,
            all == case_models(cases@),
            positions(out@) == cross_sample(all, rows, limit as nat, k as nat),
            forall|i: int| 0 <= i < out@.len() ==> (#[trigger] out@[i]) < cases@.len(),
        decreases rows.len() - k,
    {
        let ghost before = positions(out@);
        let sub = subs.key(k);
        let mut taken: usize = 0;
        let mut j: usize = 0;
        assert(before + firsts_of(all, sub@, limit as nat, 0) =~= before);
        while j < cases.len()
            invariant
                j <= cases.len(),
                all == case_models(cases@),
                positions(out@) == before + firsts_of(all, sub@, limit as nat, j as nat),
                taken == firsts_of(all, sub@, limit as nat, j as nat).len(),
                taken <= j,
                forall|i: int| 0 <= i < out@.len() ==> (#[trigger] out@[i]) < cases@.len(),
            decreases cases.len() - j,
        {
            assert(all[j as int] == cases@[j as int]@);
            if text::same(cases[j].subclass.as_str(), sub) && taken < limit {
                let ghost now = positions(out@);
                out.push(j);
                taken += 1;
                assert(positions(out@) =~= now.push(j as int));
                assert(before + firsts_of(all, sub@, limit as nat, (j + 1) as nat) =~= now.push(
                    j as int,
                ));
            }
            j += 1;
        }
        k += 1;
    }
    out
}

// ---------------------------------------------------------------------------
// Training of a case
// ---------------------------------------------------------------------------

/// What a case's training waits for.
#[derive(Debug, Clone, Copy, PartialEq, Eq, Structural)]
pub enum TrainStage {
    /// A run of the primary, to show the advisor.
    Reference,
    /// One more run of the primary for the baseline's average.
    Sample,
    /// A run of the advisor.
    Advise,
    /// The advisor's suggestion.
    Propose,
    /// The suggestion to be staged.
    Stage,
    /// A run of the primary under the suggestion.
    Retest,
    /// One more such run for the average.
    Resample,
    /// The change of the score as a decimal.
    Show,
    /// A run of the primary on a case of another subclass.
    Cross,
    /// The suggestion to be reverted.
    Revert,
    /// Nothing more.
    Over,
}

/// The training of one case. Scores are sums of half points over `runs` runs.
#[derive(Debug)]
pub struct CaseRun {
    pub case: CaseSpec,
    pub max_attempts: usize,
    pub retest_runs: usize,
    pub others: Vec<CaseSpec>,
    pub other_baselines: Vec<Verdict>,
    pub baseline_verdict: Verdict,
    pub stage: TrainStage,
    pub output: String,
    pub reasons: Vec<String>,
    pub base_points: u128,
    pub points: u128,
    pub runs: usize,
    pub advisor_output: String,
    pub directive: AdjustmentDirective,
    pub test_verdict: Verdict,
    pub delta_score: String,
    pub at: usize,
    pub regressions: Vec<String>,
    pub pending: AttemptAction,
    pub attempts: Vec<AttemptRecord>,
    pub final_verdict: Verdict,
    pub promoted: Option<String>,
}

/// The contents of a case's training.
pub ghost struct TrainModel {
    pub case: CaseModel,
    pub max_attempts: nat,
    pub retest_runs: nat,
    pub others: Seq<CaseModel>,
    pub other_baselines: Seq<Verdict>,
    pub baseline_verdict: Verdict,
    pub stage: TrainStage,
    pub output: Seq<char>,
    pub reasons: Seq<Seq<char>>,
    pub base_points: nat,
    pub points: nat,
    pub runs: nat,
    pub advisor_output: Seq<char>,
    pub directive: DirectiveModel,
    pub test_verdict: Verdict,
    pub delta_score: Seq<char>,
    pub at: nat,
    pub regressions: Seq<Seq<char>>,
    pub pending: ActionModel,
    pub attempts: Seq<AttemptModel>,
    pub final_verdict: Verdict,
    pub promoted: Option<Seq<char>>,
}

impl View for CaseRun {
    type V = TrainModel;

    open spec fn view(&self) -> TrainModel {
        TrainModel {
            case: self.case@,
            max_attempts: self.max_attempts as nat,
            retest_runs: self.retest_runs as nat,
            others: case_models(self.others@),
            other_baselines: self.other_baselines@,
            baseline_verdict: self.baseline_verdict,
            stage: self.stage,
            output: self.output@,
            reasons: chars::owned_texts(self.reasons@),
            base_points: self.base_points as nat,
            points: self.points as nat,
            runs: self.runs as nat,
            advisor_output: self.advisor_output@,
            directive: self.directive@,
            test_verdict: self.test_verdict,
            delta_score: self.delta_score@,
            at: self.at as nat,
            regressions: chars::owned_texts(self.regressions@),
            pending: self.pending@,
            attempts: attempt_models(self.attempts@),
            final_verdict: self.final_verdict,
            promoted: chars::opt_text(self.promoted),
        }
    }
}

impl TrainModel {
    /// What every step of a training keeps: no more attempts than allowed, scores
    /// within their runs, and other cases checked only where the score has
    /// improved.
    pub open spec fn wf(self) -> bool {
        &&& self.others.len() == self.other_baselines.len()
        &&& self.attempts.len() <= self.max_attempts
        &&& self.stage is Advise || self.stage is Propose || self.stage is Stage
            || self.stage is Retest || self.stage is Resample || self.stage is Show
            || self.stage is Cross || self.stage is Revert ==> self.attempts.len()
            < self.max_attempts
        &&& self.points <= 2 * self.runs
        &&& self.base_points <= 2 || self.base_points <= 2 * self.retest_runs
        &&& self.stage is Sample || self.stage is Resample ==> 0 < self.runs < self.retest_runs
        &&& self.stage is Cross ==> self.at < self.others.len() && self.points > self.base_points
        &&& self.stage is Stage || self.stage is Retest || self.stage is Resample
            || self.stage is Show || self.stage is Cross || self.stage is Revert ==> !(
        self.directive is NoChange)
        &&& self.promoted is None ==> self.final_verdict == self.baseline_verdict
        &&& self.promoted is Some ==> self.stage is Over && self.points > self.base_points
            && self.final_verdict == self.test_verdict && self.attempts.len() > 0
            && self.attempts.last().half_points == self.gain() && self.attempts.last().runs
            == self.runs
        &&& self.retest_runs <= 1 && !(self.stage is Reference) ==> self.base_points
            == half_points(self.baseline_verdict)
        &&& self.retest_runs <= 1 && (self.stage is Show || self.stage is Cross
            || self.promoted is Some) ==> self.points == half_points(self.test_verdict)
    }

    /// The next attempt, or the end where there are no more.
    pub open spec fn next_attempt(self) -> TrainModel {
        TrainModel {
            stage: if self.attempts.len() < self.max_attempts {
                TrainStage::Advise
            } else {
                TrainStage::Over
            },
            ..self
        }
    }

    /// By how many half points the score has changed.
    pub open spec fn gain(self) -> int {
        self.points - self.base_points
    }

    /// An attempt that was not tested.
    pub open spec fn with_untested(
        self,
        summary: Seq<char>,
        action: ActionModel,
    ) -> TrainModel {
        TrainModel {
            attempts: self.attempts.push(
                AttemptModel {
                    directive_summary: summary,
                    new_verdict: self.final_verdict,
                    half_points: 0,
                    runs: 0,
                    delta_score: "+0.00"@,
                    action,
                },
            ),
            ..self
        }
    }

    /// An attempt that was tested.
    pub open spec fn with_tested(self, action: ActionModel) -> TrainModel {
        TrainModel {
            attempts: self.attempts.push(
                AttemptModel {
                    directive_summary: self.directive.summary_text(),
                    new_verdict: self.test_verdict,
                    half_points: self.gain(),
                    runs: self.runs,
                    delta_score: self.delta_score,
                    action,
                },
            ),
            ..self
        }
    }

    /// The suggestion is kept.
    pub open spec fn promote(self) -> TrainModel {
        let summary = self.directive.summary_text();
        TrainModel {
            stage: TrainStage::Over,
            final_verdict: self.test_verdict,
            promoted: Some(summary),
            ..self.with_tested(ActionModel::Promoted { summary })
        }
    }

    /// The training after a run of a model.
    pub open spec fn after_run(self, trace: TraceModel) -> TrainModel {
        let (verdict, reasons) = judged(self.case, trace);
        let points = half_points(verdict);
        match self.stage {
            TrainStage::Reference => {
                let seen = TrainModel { output: trace.output, reasons, ..self };
                if self.retest_runs > 1 {
                    TrainModel { stage: TrainStage::Sample, points, runs: 1, ..seen }
                } else {
                    TrainModel {
                        base_points: half_points(self.baseline_verdict),
                        ..seen.next_attempt()
                    }
                }
            },
            TrainStage::Sample => {
                let more = TrainModel {
                    points: self.points + points,
                    runs: self.runs + 1,
                    ..self
                };
                if more.runs < self.retest_runs {
                    more
                } else {
                    TrainModel { base_points: more.points, ..more.next_attempt() }
                }
            },
            TrainStage::Advise => TrainModel {
                advisor_output: trace.output,
                stage: TrainStage::Propose,
                ..self
            },
            TrainStage::Retest => TrainModel {
                points,
                runs: 1,
                test_verdict: verdict,
                stage: if self.retest_runs > 1 {
                    TrainStage::Resample
                } else {
                    TrainStage::Show
                },
                ..self
            },
            TrainStage::Resample => {
                let more = TrainModel {
                    points: self.points + points,
                    runs: self.runs + 1,
                    ..self
                };
                if more.runs < self.retest_runs {
                    more
                } else {
                    TrainModel {
                        test_verdict: verdict_of_average(more.points, more.runs),
                        stage: TrainStage::Show,
                        ..more
                    }
                }
            },
            TrainStage::Cross => {
                let other = self.others[self.at as int];
                let before = self.other_baselines[self.at as int];
                let now = judged(other, trace).0;
                let seen = TrainModel {
                    regressions: if half_points(now) < half_points(before) {
                        self.regressions.push(
                            other.id + ":"@ + before.name() + "→"@ + now.name(),
                        )
                    } else {
                        self.regressions
                    },
                    at: self.at + 1,
                    ..self
                };
                if seen.at < self.others.len() {
                    seen
                } else if seen.regressions.len() > 0 {
                    TrainModel {
                        stage: TrainStage::Revert,
                        pending: ActionModel::CrossCatRegressed {
                            regressions: seen.regressions,
                        },
                        ..seen
                    }
                } else {
                    seen.promote()
                }
            },
            _ => self,
        }
    }

    /// The training after the advisor's suggestion.
    pub open spec fn after_suggestion(self, d: Option<DirectiveModel>) -> TrainModel {
        match d {
            None => self.with_untested(
                "<unparseable>"@,
                ActionModel::Unparseable,
            ).next_attempt(),
            Some(d) => if d is NoChange {
                self.with_untested("no-change"@, ActionModel::NoChange).next_attempt()
            } else {
                TrainModel { directive: d, stage: TrainStage::Stage, ..self }
            },
        }
    }

    /// The training after the suggestion was staged, or could not be.
    pub open spec fn after_staging(self, error: Option<Seq<char>>) -> TrainModel {
        match error {
            None => TrainModel { stage: TrainStage::Retest, ..self },
            Some(e) => self.with_untested(
                self.directive.summary_text(),
                ActionModel::Reverted { reason: "apply error: "@ + e },
            ).next_attempt(),
        }
    }

    /// The training after the change of the score was shown, in a short form with
    /// its sign and in a long one.
    pub open spec fn after_showing(self, short: Seq<char>, long: Seq<char>) -> TrainModel {
        let shown = TrainModel { delta_score: short, at: 0, regressions: seq![], ..self };
        if self.points <= self.base_points {
            TrainModel {
                stage: TrainStage::Revert,
                pending: ActionModel::Reverted { reason: "no improvement (Δ "@ + long + ")"@ },
                ..shown
            }
        } else if self.others.len() > 0 {
            TrainModel { stage: TrainStage::Cross, ..shown }
        } else {
            shown.promote()
        }
    }

    /// The training after the suggestion was reverted.
    pub open spec fn after_reverting(self) -> TrainModel {
        self.with_tested(self.pending).next_attempt()
    }

    /// The outcome of a training that is over.
    pub open spec fn outcome(self) -> OutcomeModel {
        OutcomeModel {
            case_id: self.case.id,
            subclass: self.case.subclass,
            baseline_verdict: self.baseline_verdict,
            baseline_reasons: self.reasons,
            final_verdict: self.final_verdict,
            attempts: self.attempts,
            promoted_directive: self.promoted,
        }
    }
}

/// The outcome of a case that the primary passes.
pub open spec fn passed_outcome(case: CaseModel, verdict: Verdict) -> OutcomeModel {
    OutcomeModel {
        case_id: case.id,
        subclass: case.subclass,
        baseline_verdict: verdict,
        baseline_reasons: seq![],
        final_verdict: verdict,
        attempts: seq![],
        promoted_directive: None,
    }
}

/// A training before its first run.
pub open spec fn training_start(
    case: CaseModel,
    verdict: Verdict,
    cfg: TrainingConfig,
    others: Seq<CaseModel>,
    other_baselines: Seq<Verdict>,
) -> TrainModel {
    TrainModel {
        case,
        max_attempts: cfg.max_attempts as nat,
        retest_runs: cfg.retest_runs as nat,
        others,
        other_baselines,
        baseline_verdict: verdict,
        stage: TrainStage::Reference,
        output: seq![],
        reasons: seq![],
        base_points: 0,
        points: 0,
        runs: 0,
        advisor_output: seq![],
        directive: DirectiveModel::NoChange,
        test_verdict: verdict,
        delta_score: seq![],
        at: 0,
        regressions: seq![],
        pending: ActionModel::NoChange,
        attempts: seq![],
        final_verdict: verdict,
        promoted: None,
    }
}

impl CaseRun {
    pub open spec fn wf(&self) -> bool {
        self@.wf()
    }

    /// Starts the training of a case with the verdict of the first pass.
    pub fn start(
        case: CaseSpec,
        verdict: Verdict,
        cfg: &TrainingConfig,
        others: Vec<CaseSpec>,
        other_baselines: Vec<Verdict>,
    ) -> (r: Self)
        requires
            others@.len() == other_baselines@.len(),
        ensures
            r@ == training_start(
                case@,
                verdict,
                *cfg,
                case_models(others@),
                other_baselines@,
            ),
            r.wf(),
    {
        let r = CaseRun {
            case,
            max_attempts: cfg.max_attempts,
            retest_runs: cfg.retest_runs,
            others,
            other_baselines,
            baseline_verdict: verdict,
            stage: TrainStage::Reference,
            output: String::new(),
            reasons: Vec::new(),
            base_points: 0,
            points: 0,
            runs: 0,
            advisor_output: String::new(),
            directive: AdjustmentDirective::NoChange,
            test_verdict: verdict,
            delta_score: String::new(),
            at: 0,
            regressions: Vec::new(),
            pending: AttemptAction::NoChange,
            attempts: Vec::new(),
            final_verdict: verdict,
            promoted: None,
        };
        assert(r@.attempts =~= seq![]);
        assert(r@.reasons =~= seq![]);
        assert(r@.regressions =~= seq![]);
        assert(r@.output =~= seq![]);
        assert(r@.advisor_output =~= seq![]);
        assert(r@.delta_score =~= seq![]);
        r
    }

    fn go_on(&mut self)
        ensures
            final(self)@ == old(self)@.next_attempt(),
    {
        self.stage = if self.attempts.len() < self.max_attempts {
            TrainStage::Advise
        } else {
            TrainStage::Over
        };
    }

    fn note_untested(&mut self, summary: String, action: AttemptAction)
        ensures
            final(self)@ == old(self)@.with_untested(summary@, action@),
    {
        let ghost before = self@.attempts;
        let a = AttemptRecord {
            directive_summary: summary,
            new_verdict: self.final_verdict,
            half_points: 0,
            runs: 0,
            delta_score: "+0.00".to_owned(),
            action,
        };
        let ghost m = a@;
        self.attempts.push(a);
        assert(self@.attempts =~= before.push(m));
    }

    fn gained(&self) -> (r: i128)
        requires
            self.points <= 2 * self.runs,
            self.base_points <= 2 || self.base_points <= 2 * self.retest_runs,
        ensures
            r == self@.gain(),
    {
        self.points as i128 - self.base_points as i128
    }

    fn note_tested(&mut self, action: AttemptAction)
        requires
            old(self).points <= 2 * old(self).runs,
            old(self).base_points <= 2 || old(self).base_points <= 2 * old(self).retest_runs,
        ensures
            final(self)@ == old(self)@.with_tested(action@),
    {
        let ghost before = self@.attempts;
        let a = AttemptRecord {
            directive_summary: self.directive.summary(),
            new_verdict: self.test_verdict,
            half_points: self.gained(),
            runs: self.runs,
            delta_score: self.delta_score.clone(),
            action,
        };
        let ghost m = a@;
        self.attempts.push(a);
        assert(self@.attempts =~= before.push(m));
    }

    fn keep(&mut self)
        requires
            old(self).points <= 2 * old(self).runs,
            old(self).base_points <= 2 || old(self).base_points <= 2 * old(self).retest_runs,
        ensures
            final(self)@ == old(self)@.promote(),
    {
        let summary = self.directive.summary();
        self.note_tested(AttemptAction::Promoted { summary: summary.clone() });
        self.stage = TrainStage::Over;
        self.final_verdict = self.test_verdict;
        self.promoted = Some(summary);
    }

    /// Takes up a run of a model that the training waited for.
    pub fn ran(&mut self, trace: &SessionTrace)
        requires
            old(self).wf(),
            old(self).stage is Reference || old(self).stage is Sample || old(self).stage is Advise
                || old(self).stage is Retest || old(self).stage is Resample || old(
                self).stage is Cross,
        ensures
            final(self)@ == old(self)@.after_run(trace@),
            final(self).wf(),
    {
        match self.stage {
            TrainStage::Reference => {
                let (verdict, reasons) = rubric::evaluate(&self.case, trace);
                self.output = trace.output.clone();
                self.reasons = reasons;
                if self.retest_runs > 1 {
                    self.points = rubric::score(verdict);
                    self.runs = 1;
                    self.stage = TrainStage::Sample;
                } else {
                    self.base_points = rubric::score(self.baseline_verdict);
                    self.go_on();
                }
            },
            TrainStage::Sample => {
                let (verdict, _) = rubric::evaluate(&self.case, trace);
                self.points = self.points + rubric::score(verdict);
                self.runs = self.runs + 1;
                if self.runs >= self.retest_runs {
                    self.base_points = self.points;
                    self.go_on();
                }
            },
            TrainStage::Advise => {
                self.advisor_output = trace.output.clone();
                self.stage = TrainStage::Propose;
            },
            TrainStage::Retest => {
                let (verdict, _) = rubric::evaluate(&self.case, trace);
                self.points = rubric::score(verdict);
                self.runs = 1;
                self.test_verdict = verdict;
                self.stage = if self.retest_runs > 1 {
                    TrainStage::Resample
                } else {
                    TrainStage::Show
                };
            },
            TrainStage::Resample => {
                let (verdict, _) = rubric::evaluate(&self.case, trace);
                self.points = self.points + rubric::score(verdict);
                self.runs = self.runs + 1;
                if self.runs >= self.retest_runs {
                    self.test_verdict = verdict_from_avg_score(self.points, self.runs);
                    self.stage = TrainStage::Show;
                }
            },
            TrainStage::Cross => {
                assert(self@.others[self.at as int] == self.others@[self.at as int]@);
                let before = self.other_baselines[self.at];
                let (now, _) = rubric::evaluate(&self.others[self.at], trace);
                if regressed(before, now) {
                    let ghost list = self@.regressions;
                    let mut line = self.others[self.at].id.clone();
                    line.append(":");
                    line.append(before.label());
                    line.append("→");
                    line.append(now.label());
                    let ghost l = line@;
                    self.regressions.push(line);
                    assert(self@.regressions =~= list.push(l));
                }
                assert(self.at < self.others.len());
                self.at = self.at + 1;
                if self.at >= self.others.len() {
                    if self.regressions.len() > 0 {
                        self.stage = TrainStage::Revert;
                        self.pending =
                        AttemptAction::CrossCatRegressed {
                            regressions: text::copy_all(&self.regressions),
                        };
                    } else {
                        self.keep();
                    }
                }
            },
            _ => {},
        }
    }

    /// Takes up the advisor's suggestion.
    pub fn suggested(&mut self, directive: Option<AdjustmentDirective>)
        requires
            old(self).wf(),
            old(self).stage is Propose,
        ensures
            final(self)@ == old(self)@.after_suggestion(opt_directive(directive)),
            final(self).wf(),
    {
        match directive {
            None => {
                self.note_untested("<unparseable>".to_owned(), AttemptAction::Unparseable);
                self.go_on();
            },
            Some(d) => {
                let declined = match &d {
                    AdjustmentDirective::NoChange => true,
                    _ => false,
                };
                if declined {
                    self.note_untested("no-change".to_owned(), AttemptAction::NoChange);
                    self.go_on();
                } else {
                    self.directive = d;
                    self.stage = TrainStage::Stage;
                }
            },
        }
    }

    /// Takes up that the suggestion was staged, or why it could not be.
    pub fn staged(&mut self, error: Option<String>)
        requires
            old(self).wf(),
            old(self).stage is Stage,
        ensures
            final(self)@ == old(self)@.after_staging(chars::opt_text(error)),
            final(self).wf(),
    {
        match error {
            None => {
                self.stage = TrainStage::Retest;
            },
            Some(e) => {
                let summary = self.directive.summary();
                self.note_untested(
                    summary,
                    AttemptAction::Reverted {
                        reason: "apply error: ".to_owned().concat(e.as_str()),
                    },
                );
                self.go_on();
            },
        }
    }

    /// Takes up the change of the score as a decimal, and decides: without an
    /// improvement the suggestion is reverted.
    pub fn shown(&mut self, short: &str, long: &str)
        requires
            old(self).wf(),
            old(self).stage is Show,
        ensures
            final(self)@ == old(self)@.after_showing(short@, long@),
            final(self).wf(),
    {
        self.delta_score = short.to_owned();
        self.at = 0;
        self.regressions = Vec::new();
        assert(self@.regressions =~= seq![]);
        if self.points <= self.base_points {
            let mut reason = "no improvement (Δ ".to_owned();
            reason.append(long);
            reason.append(")");
            self.pending = AttemptAction::Reverted { reason };
            self.stage = TrainStage::Revert;
        } else if self.others.len() > 0 {
            self.stage = TrainStage::Cross;
        } else {
            self.keep();
        }
    }

    /// Takes up that the suggestion was reverted.
    pub fn reverted(&mut self)
        requires
            old(self).wf(),
            old(self).stage is Revert,
        ensures
            final(self)@ == old(self)@.after_reverting(),
            final(self).wf(),
    {
        let action = match &self.pending {
            AttemptAction::NoChange => AttemptAction::NoChange,
            AttemptAction::Promoted { summary } => AttemptAction::Promoted {
                summary: summary.clone(),
            },
            AttemptAction::Reverted { reason } => AttemptAction::Reverted {
                reason: reason.clone(),
            },
            AttemptAction::CrossCatRegressed { regressions } => AttemptAction::CrossCatRegressed {
                regressions: text::copy_all(regressions),
            },
            AttemptAction::Unparseable => AttemptAction::Unparseable,
        };
        self.note_tested(action);
        self.go_on();
    }

    /// The outcome of a training that is over.
    pub fn finish(self) -> (r: CaseOutcome)
        requires
            self.stage is Over,
        ensures
            r@ == self@.outcome(),
    {
        CaseOutcome {
            case_id: self.case.id,
            subclass: self.case.subclass,
            baseline_verdict: self.baseline_verdict,
            baseline_reasons: self.reasons,
            final_verdict: self.final_verdict,
            attempts: self.attempts,
            promoted_directive: self.promoted,
        }
    }
}

/// The outcome of a case that the primary passes: there is nothing to train.
pub fn already_passed(case: &CaseSpec, verdict: Verdict) -> (r: CaseOutcome)
    ensures
        r@ == passed_outcome(case@, verdict),
{
    let r = CaseOutcome {
        case_id: case.id.clone(),
        subclass: case.subclass.clone(),
        baseline_verdict: verdict,
        baseline_reasons: Vec::new(),
        final_verdict: verdict,
        attempts: Vec::new(),
        promoted_directive: None,
    };
    assert(r@.baseline_reasons =~= seq![]);
    assert(r@.attempts =~= seq![]);
    r
}

/// How a case enters the training.
#[derive(Debug)]
pub enum CaseStart {
    Passed(CaseOutcome),
    Train(CaseRun),
}

/// The cases at positions.
pub open spec fn cases_at(cases: Seq<CaseModel>, at: Seq<int>) -> Seq<CaseModel> {
    at.map_values(|i: int| cases[i])
}

/// The verdicts of cases in the first pass.
pub open spec fn baselines_at(
    cases: Seq<CaseModel>,
    baseline: Seq<(Seq<char>, Verdict)>,
    at: Seq<int>,
) -> Seq<Verdict> {
    at.map_values(|i: int| baseline_verdict_of(baseline, cases[i].id))
}

/// Takes a case into the training, unless the primary passed it in the first
/// pass.
pub fn begin_case(
    cases: &Vec<CaseSpec>,
    i: usize,
    cfg: &TrainingConfig,
    baseline: &Vec<(String, Verdict)>,
) -> (r: CaseStart)
    requires
        i < cases@.len(),
    ensures
        ({
            let all = case_models(cases@);
            let case = all[i as int];
            let verdict = baseline_verdict_of(entries(baseline@), case.id);
            let at = cross_cases(all, case.subclass, cfg.cross_check_per_subclass as nat);
            if verdict == Verdict::Pass {
                r matches CaseStart::Passed(o) && o@ == passed_outcome(case, verdict)
            } else {
                r matches CaseStart::Train(run) && run.wf() && run@ == training_start(
                    case,
                    verdict,
                    *cfg,
                    cases_at(all, at),
                    baselines_at(all, entries(baseline@), at),
                )
            }
        }),
{
    let ghost all = case_models(cases@);
    assert(all[i as int] == cases@[i as int]@);
    let case = &cases[i];
    let verdict = baseline_of(baseline, case.id.as_str());
    if verdict == Verdict::Pass {
        return CaseStart::Passed(already_passed(case, verdict));
    }
    let at = select_cross_cases(cases, case.subclass.as_str(), cfg.cross_check_per_subclass);
    let ghost places = positions(at@);
    let ghost want = cases_at(all, places);
    let ghost grades = baselines_at(all, entries(baseline@), places);
    let mut others: Vec<CaseSpec> = Vec::new();
    let mut others_before: Vec<Verdict> = Vec::new();
    let mut k: usize = 0;
    assert(case_models(others@) =~= want.take(0));
    assert(others_before@ =~= grades.take(0));
    while k < at.len()
        invariant
            k <= at.len(),
            all == case_models(cases@),
            places == positions(at@),
            want == cases_at(all, places),
            grades == baselines_at(all, entries(baseline@), places),
            forall|j: int| 0 <= j < at@.len() ==> (#[trigger] at@[j]) < cases@.len(),
            case_models(others@) == want.take(k as int),
            others_before@ == grades.take(k as int),
        decreases at.len() - k,
    {
        let ghost seen = case_models(others@);
        assert(at@[k as int] < cases@.len());
        let other = &cases[at[k]];
        assert(all[at@[k as int] as int] == other@);
        others_before.push(baseline_of(baseline, other.id.as_str()));
        others.push(other.clone());
        assert(case_models(others@) =~= seen.push(other@));
        assert(want.take(k + 1) =~= seen.push(want[k as int]));
        assert(grades.take(k + 1) =~= grades.take(k as int).push(grades[k as int]));
        k += 1;
    }
    assert(want.take(k as int) =~= want);
    assert(grades.take(k as int) =~= grades);
    assert(case_models(others@).len() == others@.len());
    CaseStart::Train(CaseRun::start(case.clone(), verdict, cfg, others, others_before))
}

/// What a training asks to be done next.
#[derive(Debug)]
pub enum TrainAction {
    Run { executor: AgentChoice, task: String, subclass: String },
    Ask { prior_attempts: String, rubric: String },
    Stage,
    Show { half_points: i128, runs: usize },
    Revert,
    Finish,
}

/// What a training asks to be done next, by its texts.
pub ghost enum TrainActionModel {
    Run { executor: AgentChoice, task: Seq<char>, subclass: Seq<char> },
    Ask { prior_attempts: Seq<char>, rubric: Seq<char> },
    Stage,
    Show { half_points: int, runs: nat },
    Revert,
    Finish,
}

impl View for TrainAction {
    type V = TrainActionModel;

    open spec fn view(&self) -> TrainActionModel {
        match self {
            TrainAction::Run { executor, task, subclass } => TrainActionModel::Run {
                executor: *executor,
                task: task@,
                subclass: subclass@,
            },
            TrainAction::Ask { prior_attempts, rubric } => TrainActionModel::Ask {
                prior_attempts: prior_attempts@,
                rubric: rubric@,
            },
            TrainAction::Stage => TrainActionModel::Stage,
            TrainAction::Show { half_points, runs } => TrainActionModel::Show {
                half_points: *half_points as int,
                runs: *runs as nat,
            },
            TrainAction::Revert => TrainActionModel::Revert,
            TrainAction::Finish => TrainActionModel::Finish,
        }
    }
}

impl TrainModel {
    /// A run of a model on a case.
    pub open spec fn run_of(executor: AgentChoice, case: CaseModel) -> TrainActionModel {
        TrainActionModel::Run { executor, task: case.task, subclass: case.subclass }
    }

    /// What the training asks to be done next.
    pub open spec fn action(self) -> TrainActionModel {
        match self.stage {
            TrainStage::Reference | TrainStage::Sample | TrainStage::Retest
            | TrainStage::Resample => TrainModel::run_of(AgentChoice::Primary, self.case),
            TrainStage::Advise => TrainModel::run_of(AgentChoice::Advisor, self.case),
            TrainStage::Cross => TrainModel::run_of(
                AgentChoice::Primary,
                self.others[self.at as int],
            ),
            TrainStage::Propose => TrainActionModel::Ask {
                prior_attempts: prior_text(self.attempts),
                rubric: rubric_text(self.case, self.reasons),
            },
            TrainStage::Stage => TrainActionModel::Stage,
            TrainStage::Show => TrainActionModel::Show {
                half_points: self.gain(),
                runs: self.runs,
            },
            TrainStage::Revert => TrainActionModel::Revert,
            TrainStage::Over => TrainActionModel::Finish,
        }
    }
}

pub(crate) fn run_on(executor: AgentChoice, case: &CaseSpec) -> (r: TrainAction)
    ensures
        r@ == TrainModel::run_of(executor, case@),
{
    TrainAction::Run { executor, task: case.task.clone(), subclass: case.subclass.clone() }
}

impl CaseRun {
    /// What the training asks to be done next.
    pub fn next_action(&self) -> (r: TrainAction)
        requires
            self.wf(),
        ensures
            r@ == self@.action(),
    {
        match self.stage {
            TrainStage::Reference | TrainStage::Sample | TrainStage::Retest
            | TrainStage::Resample => run_on(AgentChoice::Primary, &self.case),
            TrainStage::Advise => run_on(AgentChoice::Advisor, &self.case),
            TrainStage::Cross => {
                assert(self@.others[self.at as int] == self.others@[self.at as int]@);
                run_on(AgentChoice::Primary, &self.others[self.at])
            },
            TrainStage::Propose => TrainAction::Ask {
                prior_attempts: format_prior_attempts(&self.attempts),
                rubric: format_rubric(&self.case, &self.reasons),
            },
            TrainStage::Stage => TrainAction::Stage,
            TrainStage::Show => TrainAction::Show {
                half_points: self.gained(),
                runs: self.runs,
            },
            TrainStage::Revert => TrainAction::Revert,
            TrainStage::Over => TrainAction::Finish,
        }
    }
}

// ---------------------------------------------------------------------------
// Staging
// ---------------------------------------------------------------------------

/// The workspace after a staged suggestion was reverted: the overlay as it was,
/// and no file of the suggested skill.
pub open spec fn unstaged(
    store: StoreModel,
    class: MessageClass,
    d: DirectiveModel,
    subclass: Seq<char>,
    snapshot: Seq<char>,
) -> StoreModel {
    let restored = store.overlay_restored(class, subclass, snapshot);
    match d {
        DirectiveModel::SkillNew { name, description, command } => StoreModel {
            skills: table::without(restored.skills, name + ".md"@),
            ..restored
        },
        _ => restored,
    }
}

/// Stages a suggestion for a subclass, and returns the overlay as it was.
pub fn stage_directive(
    store: &mut PromptStore,
    class: MessageClass,
    directive: &AdjustmentDirective,
    subclass: &str,
) -> (r: String)
    ensures
        r@ == old(store)@.overlay_file(class, subclass@),
        final(store)@ == applied(old(store)@, directive@, Some(subclass@)),
        old(store).wf() ==> final(store).wf(),
{
    let snapshot = store.snapshot_subclass(class, subclass);
    let _ = adjustments::apply_training(store, directive, Some(subclass));
    snapshot
}

/// Reverts a staged suggestion.
pub fn revert_directive(
    store: &mut PromptStore,
    class: MessageClass,
    directive: &AdjustmentDirective,
    subclass: &str,
    snapshot: &str,
)
    ensures
        final(store)@ == unstaged(old(store)@, class, directive@, subclass@, snapshot@),
        old(store).wf() ==> final(store).wf(),
{
    store.restore_subclass(class, subclass, snapshot);
    match directive {
        AdjustmentDirective::SkillNew { name, description: _, command: _ } => {
            let file = name.clone().concat(".md");
            store.skills.remove(file.as_str());
        },
        _ => {},
    }
}

// ---------------------------------------------------------------------------
// Reports
// ---------------------------------------------------------------------------

/// The final verdicts of outcomes.
pub open spec fn final_verdicts(outcomes: Seq<OutcomeModel>) -> Seq<Verdict> {
    outcomes.map_values(|o: OutcomeModel| o.final_verdict)
}

/// How many outcomes kept a suggestion.
pub open spec fn promotions(outcomes: Seq<OutcomeModel>) -> nat
    decreases outcomes.len(),
{
    if outcomes.len() == 0 {
        0
    } else {
        promotions(outcomes.drop_last()) + (if outcomes.last().promoted_directive is Some {
            1nat
        } else {
            0nat
        })
    }
}

/// The report of a training: how the verdicts stood before and after it.
pub fn summarize(baseline: &Vec<(String, Verdict)>, outcomes: Vec<CaseOutcome>) -> (r:
    TrainingReport)
    ensures
        outcome_models(r.cases@) == outcome_models(outcomes@),
        ({
            let before = latest_verdicts(entries(baseline@), baseline@.len());
            let after = final_verdicts(outcome_models(outcomes@));
            &&& r.baseline_pass == count_verdicts(before, Verdict::Pass)
            &&& r.baseline_partial == count_verdicts(before, Verdict::Partial)
            &&& r.baseline_fail == count_verdicts(before, Verdict::Fail)
            &&& r.final_pass == count_verdicts(after, Verdict::Pass)
            &&& r.final_partial == count_verdicts(after, Verdict::Partial)
            &&& r.final_fail == count_verdicts(after, Verdict::Fail)
            &&& r.total_promoted == promotions(outcome_models(outcomes@))
        }),
{
    let before = baseline_verdicts(baseline);
    let ghost all = outcome_models(outcomes@);
    let mut after: Vec<Verdict> = Vec::new();
    let mut promoted: usize = 0;
    let mut i: usize = 0;
    assert(all.take(0) =~= Seq::empty());
    while i < outcomes.len()
        invariant
            promoted <= i <= outcomes.len(),
            all == outcome_models(outcomes@),
            after@ == final_verdicts(all).take(i as int),
            promoted == promotions(all.take(i as int)),
        decreases outcomes.len() - i,
    {
        assert(all[i as int] == outcomes@[i as int]@);
        assert(all.take(i + 1).drop_last() =~= all.take(i as int));
        after.push(outcomes[i].final_verdict);
        assert(final_verdicts(all).take(i + 1) =~= final_verdicts(all).take(i as int).push(
            final_verdicts(all)[i as int],
        ));
        if outcomes[i].promoted_directive.is_some() {
            promoted += 1;
        }
        i += 1;
    }
    assert(all.take(i as int) =~= all);
    assert(final_verdicts(all).take(i as int) =~= final_verdicts(all));
    TrainingReport {
        cases: outcomes,
        baseline_pass: tally(&before, Verdict::Pass),
        baseline_partial: tally(&before, Verdict::Partial),
        baseline_fail: tally(&before, Verdict::Fail),
        final_pass: tally(&after, Verdict::Pass),
        final_partial: tally(&after, Verdict::Partial),
        final_fail: tally(&after, Verdict::Fail),
        total_promoted: promoted,
    }
}

/// A hexadecimal digit.
pub open spec fn hex_digit(n: nat) -> char {
    if n < 10 {
        ('0' as u8 + n) as u8 as char
    } else {
        ('a' as u8 + n - 10) as u8 as char
    }
}

/// One character inside a quoted string of a report.
pub open spec fn report_escape_char(c: char) -> Seq<char> {
    if c == '"' {
        seq!['\\', '"']
    } else if c == '\\' {
        seq!['\\', '\\']
    } else if c == '\n' {
        seq!['\\', 'n']
    } else if c == '\r' {
        seq!['\\', 'r']
    } else if c == '\t' {
        seq!['\\', 't']
    } else if c <= '\u{1f}' {
        seq!['\\', 'u', '0', '0', hex_digit(c as nat / 16), hex_digit(c as nat % 16)]
    } else {
        seq![c]
    }
}

/// A text inside a quoted string of a report.
pub open spec fn report_escaped(s: Seq<char>) -> Seq<char>
    decreases s.len(),
{
    if s.len() == 0 {
        seq![]
    } else {
        report_escaped(s.drop_last()) + report_escape_char(s.last())
    }
}

fn hex_char(n: u64) -> (r: char)
    requires
        n < 16,
    ensures
        r == hex_digit(n as nat),
{
    if n < 10 {
        ('0' as u8 + n as u8) as char
    } else {
        ('a' as u8 + n as u8 - 10) as char
    }
}

fn push_control(out: &mut String, c: char)
    requires
        c <= '\u{1f}',
    ensures
        final(out)@ == old(out)@ + seq![
            '\\',
            'u',
            '0',
            '0',
            hex_digit(c as nat / 16),
            hex_digit(c as nat % 16),
        ],
{
    let ghost before = out@;
    let n: u64 = c as u64;
    out.push('\\');
    out.push('u');
    out.push('0');
    out.push('0');
    out.push(hex_char(n / 16));
    out.push(hex_char(n % 16));
    assert(out@ =~= before + seq![
        '\\',
        'u',
        '0',
        '0',
        hex_digit(c as nat / 16),
        hex_digit(c as nat % 16),
    ]);
}

fn json_escape(s: &str) -> (r: String)
    ensures
        r@ == report_escaped(s@),
{
    let v = text::chars_of(s);
    let mut out = String::new();
    let mut i: usize = 0;
    assert(s@.take(0) =~= Seq::empty());
    while i < v.len()
        invariant
            i <= v.len(),
            v@ == s@,
            out@ == report_escaped(s@.take(i as int)),
        decreases v.len() - i,
    {
        let ghost before = out@;
        let c = v[i];
        assert(s@.take(i + 1).drop_last() =~= s@.take(i as int));
        if c == '"' {
            out.push('\\');
            out.push('"');
        } else if c == '\\' {
            out.push('\\');
            out.push('\\');
        } else if c == '\n' {
            out.push('\\');
            out.push('n');
        } else if c == '\r' {
            out.push('\\');
            out.push('r');
        } else if c == '\t' {
            out.push('\\');
            out.push('t');
        } else if c <= '\u{1f}' {
            push_control(&mut out, c);
        } else {
            out.push(c);
        }
        assert(out@ =~= before + report_escape_char(c));
        i += 1;
    }
    assert(s@.take(i as int) =~= s@);
    out
}

/// What a report says came of a case.
pub open spec fn action_of(o: OutcomeModel) -> Seq<char> {
    match o.promoted_directive {
        Some(d) => d,
        None => if o.attempts.len() == 0 {
            "—"@
        } else {
            "no promote"@
        },
    }
}

/// The line of a case in the summary.
pub open spec fn summary_row(o: OutcomeModel) -> Seq<char> {
    "| "@ + o.case_id + " | "@ + o.subclass + " | "@ + o.baseline_verdict.name() + " | "@
        + o.final_verdict.name() + " | "@ + numbers::decimal(o.attempts.len()) + " | "@ + action_of(
        o,
    ) + " |\n"@
}

/// The record of a case.
pub open spec fn record_line(o: OutcomeModel) -> Seq<char> {
    "{\"id\":\""@ + o.case_id + "\",\"subclass\":\""@ + o.subclass + "\",\"baseline\":\""@
        + o.baseline_verdict.name() + "\",\"final\":\""@ + o.final_verdict.name()
        + "\",\"attempts\":"@ + numbers::decimal(o.attempts.len()) + ",\"promoted\":"@ + (
    match o.promoted_directive {
        Some(d) => "\""@ + report_escaped(d) + "\""@,
        None => "null"@,
    }) + "}\n"@
}

/// Three counts of verdicts.
pub open spec fn counts_text(pass: nat, partial: nat, fail: nat) -> Seq<char> {
    numbers::decimal(pass) + "P / "@ + numbers::decimal(partial) + "Par / "@ + numbers::decimal(
        fail,
    ) + "F\n"@
}

/// The summary of a report.
pub open spec fn summary_text(r: TrainingReport) -> Seq<char> {
    "# Training report\n\n"@ + "- baseline: "@ + counts_text(
        r.baseline_pass as nat,
        r.baseline_partial as nat,
        r.baseline_fail as nat,
    ) + "- final:    "@ + counts_text(
        r.final_pass as nat,
        r.final_partial as nat,
        r.final_fail as nat,
    ) + "- promoted: "@ + numbers::decimal(r.total_promoted as nat) + " directive(s)\n\n"@
        + "| Case | Subclass | Baseline | Final | Attempts | Action |\n|---|---|---|---|---|---|\n"@
        + chars::concat(outcome_models(r.cases@).map_values(|o: OutcomeModel| summary_row(o)))
}

/// The records of a report.
pub open spec fn records_text(r: TrainingReport) -> Seq<char> {
    chars::concat(outcome_models(r.cases@).map_values(|o: OutcomeModel| record_line(o)))
}

fn render_counts(pass: usize, partial: usize, fail: usize) -> (r: String)
    ensures
        r@ == counts_text(pass as nat, partial as nat, fail as nat),
{
    let mut out = numbers::usize_text(pass);
    out.append("P / ");
    out.append(numbers::usize_text(partial).as_str());
    out.append("Par / ");
    out.append(numbers::usize_text(fail).as_str());
    out.append("F\n");
    out
}

fn render_row(o: &CaseOutcome) -> (r: String)
    ensures
        r@ == summary_row(o@),
{
    let mut out = "| ".to_owned();
    out.append(o.case_id.as_str());
    out.append(" | ");
    out.append(o.subclass.as_str());
    out.append(" | ");
    out.append(o.baseline_verdict.label());
    out.append(" | ");
    out.append(o.final_verdict.label());
    out.append(" | ");
    out.append(numbers::usize_text(o.attempts.len()).as_str());
    out.append(" | ");
    match &o.promoted_directive {
        Some(d) => {
            out.append(d.as_str());
        },
        None => {
            if o.attempts.len() == 0 {
                out.append("—");
            } else {
                out.append("no promote");
            }
        },
    }
    out.append(" |\n");
    out
}

fn render_record(o: &CaseOutcome) -> (r: String)
    ensures
        r@ == record_line(o@),
{
    let mut out = "{\"id\":\"".to_owned();
    out.append(o.case_id.as_str());
    out.append("\",\"subclass\":\"");
    out.append(o.subclass.as_str());
    out.append("\",\"baseline\":\"");
    out.append(o.baseline_verdict.label());
    out.append("\",\"final\":\"");
    out.append(o.final_verdict.label());
    out.append("\",\"attempts\":");
    out.append(numbers::usize_text(o.attempts.len()).as_str());
    out.append(",\"promoted\":");
    match &o.promoted_directive {
        Some(d) => {
            let mut value = "\"".to_owned();
            value.append(json_escape(d.as_str()).as_str());
            value.append("\"");
            out.append(value.as_str());
        },
        None => {
            out.append("null");
        },
    }
    out.append("}\n");
    out
}

/// The report as a summary to read, and as records, one on each line.
pub fn render_report(report: &TrainingReport) -> (r: (String, String))
    ensures
        r.0@ == summary_text(*report),
        r.1@ == records_text(*report),
{
    let mut summary = "# Training report\n\n".to_owned();
    summary.append("- baseline: ");
    summary.append(
        render_counts(
            report.baseline_pass,
            report.baseline_partial,
            report.baseline_fail,
        ).as_str(),
    );
    summary.append("- final:    ");
    summary.append(
        render_counts(report.final_pass, report.final_partial, report.final_fail).as_str(),
    );
    summary.append("- promoted: ");
    summary.append(numbers::usize_text(report.total_promoted).as_str());
    summary.append(" directive(s)\n\n");
    summary.append(
        "| Case | Subclass | Baseline | Final | Attempts | Action |\n|---|---|---|---|---|---|\n",
    );
    let ghost head = summary@;
    let ghost all = outcome_models(report.cases@);
    let ghost rows = all.map_values(|o: OutcomeModel| summary_row(o));
    let ghost lines = all.map_values(|o: OutcomeModel| record_line(o));
    let mut records = String::new();
    let mut i: usize = 0;
    proof {
        assert(rows.take(0) =~= Seq::empty());
        assert(lines.take(0) =~= Seq::empty());
        assert(head + chars::concat(rows.take(0)) =~= head);
    }
    while i < report.cases.len()
        invariant
            i <= report.cases.len(),
            all == outcome_models(report.cases@),
            rows == all.map_values(|o: OutcomeModel| summary_row(o)),
            lines == all.map_values(|o: OutcomeModel| record_line(o)),
            summary@ == head + chars::concat(rows.take(i as int)),
            records@ == chars::concat(lines.take(i as int)),
        decreases report.cases.len() - i,
    {
        let o = &report.cases[i];
        assert(all[i as int] == o@);
        assert(rows.take(i + 1).drop_last() =~= rows.take(i as int));
        assert(rows.take(i + 1).last() == summary_row(o@));
        assert(lines.take(i + 1).drop_last() =~= lines.take(i as int));
        assert(lines.take(i + 1).last() == record_line(o@));
        summary.append(render_row(o).as_str());
        records.append(render_record(o).as_str());
        assert(summary@ =~= head + chars::concat(rows.take(i + 1)));
        i += 1;
    }
    assert(rows.take(i as int) =~= rows);
    assert(lines.take(i as int) =~= lines);
    (summary, records)
}

// ---------------------------------------------------------------------------
// Laws
// ---------------------------------------------------------------------------

/// Reverting a staged rule puts the workspace back as it was, unless the overlay
/// file was there and empty.
pub proof fn law_revert_undoes_staged_rule(
    store: StoreModel,
    class: MessageClass,
    subclass: Seq<char>,
    rule: Seq<char>,
)
    requires
        store.wf(),
        table::lookup(store.prompts, prompts::subclass_file(class, subclass)) != Some(
            Seq::<char>::empty(),
        ),
    ensures
        unstaged(
            applied(store, DirectiveModel::RuleAppend { class, rule }, Some(subclass)),
            class,
            DirectiveModel::RuleAppend { class, rule },
            subclass,
            store.overlay_file(class, subclass),
        ) == store,
{
    prompts::law_restore_undoes_append(store, class, subclass, rule);
}

/// Reverting a staged skill puts the workspace back as it was, unless a skill of
/// that name was there before, or the overlay file was there and empty.
pub proof fn law_revert_undoes_staged_skill(
    store: StoreModel,
    class: MessageClass,
    subclass: Seq<char>,
    name: Seq<char>,
    description: Seq<char>,
    command: Seq<char>,
)
    requires
        store.wf(),
        table::lookup(store.skills, name + ".md"@) is None,
        table::lookup(store.prompts, prompts::subclass_file(class, subclass)) != Some(
            Seq::<char>::empty(),
        ),
    ensures
        unstaged(
            applied(
                store,
                DirectiveModel::SkillNew { name, description, command },
                Some(subclass),
            ),
            class,
            DirectiveModel::SkillNew { name, description, command },
            subclass,
            store.overlay_file(class, subclass),
        ) == store,
{
    let file = name + ".md"@;
    let body = adjustments::skill_file(name, description, command);
    table::lemma_put_again(store.skills, file, body, body);
    let overlay = prompts::subclass_file(class, subclass);
    match table::lookup(store.prompts, overlay) {
        Some(s) => {
            if s.len() == 0 {
                assert(s =~= Seq::<char>::empty());
            }
            table::lemma_put_again(store.prompts, overlay, s, s);
        },
        None => {
            table::lemma_without_absent(store.prompts, overlay);
        },
    }
}

/// A suggestion is kept only where the score has improved and no checked case of
/// another subclass got worse; otherwise the verdict stays that of the first
/// pass.
pub proof fn law_promotion_needs_improvement(
    m: TrainModel,
    trace: TraceModel,
    short: Seq<char>,
    long: Seq<char>,
)
    requires
        m.wf(),
        m.promoted is None,
    ensures
        m.after_run(trace).promoted is Some ==> m.stage is Cross && m.points > m.base_points
            && m.regressions.len() == 0,
        m.stage is Show && m.after_showing(short, long).promoted is Some ==> m.points
            > m.base_points && m.others.len() == 0,
        m.promoted is None ==> m.final_verdict == m.baseline_verdict,
{
}

/// Where single runs are compared, a case that kept a suggestion has a better
/// verdict than in the first pass, and any other case has the same one: every
/// step of a training keeps `wf`.
pub proof fn law_training_never_worsens(m: TrainModel)
    requires
        m.wf(),
        m.stage is Over,
        m.retest_runs <= 1,
    ensures
        m.promoted is Some ==> half_points(m.outcome().final_verdict) > half_points(
            m.outcome().baseline_verdict,
        ),
        m.promoted is None ==> m.outcome().final_verdict == m.outcome().baseline_verdict,
{
}

/// A training that keeps a suggestion has raised the score: its last attempt
/// gained half points, and shows over how many runs.
pub proof fn law_promoted_attempt_gains(m: TrainModel)
    requires
        m.wf(),
        m.promoted is Some,
    ensures
        m.outcome().attempts.len() > 0,
        m.outcome().attempts.last().half_points == m.gain(),
        m.outcome().attempts.last().half_points > 0,
        m.outcome().attempts.last().runs == m.runs,
{
}

proof fn lemma_points_of_counts(v: Seq<Verdict>)
    ensures
        total_points(v) + count_verdicts(v, Verdict::Fail) == v.len() + count_verdicts(
            v,
            Verdict::Pass,
        ),
        count_verdicts(v, Verdict::Pass) + count_verdicts(v, Verdict::Fail) <= v.len(),
    decreases v.len(),
{
    if v.len() > 0 {
        lemma_points_of_counts(v.drop_last());
    }
}

/// The verdict for an average goes with the majority: more than half of the runs
/// passed gives a pass, and more than half of them failed gives a fail. Altogether
/// it is a pass where more runs passed than failed, a fail where more failed, and
/// partial where they balance.
pub proof fn law_majority_decides(v: Seq<Verdict>)
    ensures
        ({
            let passed = count_verdicts(v, Verdict::Pass);
            let failed = count_verdicts(v, Verdict::Fail);
            let verdict = verdict_of_average(total_points(v), v.len());
            &&& 2 * passed > v.len() ==> verdict == Verdict::Pass
            &&& 2 * failed > v.len() ==> verdict == Verdict::Fail
            &&& verdict == Verdict::Pass <==> passed > failed
            &&& verdict == Verdict::Fail <==> failed > passed
        }),
{
    lemma_points_of_counts(v);
}

/// A training makes no more attempts than allowed, whatever the models reply.
pub proof fn law_attempts_are_bounded(
    m: TrainModel,
    trace: TraceModel,
    d: Option<DirectiveModel>,
    error: Option<Seq<char>>,
    short: Seq<char>,
    long: Seq<char>,
)
    requires
        m.wf(),
    ensures
        m.after_run(trace).attempts.len() <= m.max_attempts,
        m.stage is Propose ==> m.after_suggestion(d).attempts.len() <= m.max_attempts,
        m.stage is Stage ==> m.after_staging(error).attempts.len() <= m.max_attempts,
        m.stage is Show ==> m.after_showing(short, long).attempts.len() <= m.max_attempts,
        m.stage is Revert ==> m.after_reverting().attempts.len() <= m.max_attempts,
{
}

}
