//! A whole training: the first pass over all cases, and the training of those
//! that the primary does not pass, one after the other.
use vstd::prelude::*;

use crate::adjustments::{opt_directive, AdjustmentDirective};
use crate::chars;
use crate::rubric::{case_models, judged, CaseModel, CaseSpec, Verdict};
use crate::session::{SessionTrace, TraceModel};
use crate::train;
use crate::train::{
    baseline_verdict_of, baselines_at, cases_at, count_verdicts, cross_cases, entries,
    final_verdicts, latest_verdicts, outcome_models, passed_outcome, promotions, training_start,
    CaseOutcome, CaseRun, CaseStart, OutcomeModel, TrainAction, TrainActionModel, TrainModel,
    TrainStage, TrainingConfig, TrainingReport,
};
use crate::types::AgentChoice;

verus! {

/// A training: the cases, the verdicts of the first pass so far, the outcomes so
/// far, and the case that is being trained.
#[derive(Debug)]
pub struct TrainingRun {
    pub cases: Vec<CaseSpec>,
    pub cfg: TrainingConfig,
    pub baseline: Vec<(String, Verdict)>,
    pub outcomes: Vec<CaseOutcome>,
    pub current: Option<CaseRun>,
}

/// The contents of a training.
pub ghost struct RunModel {
    pub cases: Seq<CaseModel>,
    pub cfg: TrainingConfig,
    pub baseline: Seq<(Seq<char>, Verdict)>,
    pub outcomes: Seq<OutcomeModel>,
    pub current: Option<TrainModel>,
}

/// The contents of an optional case's training.
pub open spec fn opt_run(r: Option<CaseRun>) -> Option<TrainModel> {
    match r {
        Some(run) => Some(run@),
        None => None,
    }
}

impl View for TrainingRun {
    type V = RunModel;

    open spec fn view(&self) -> RunModel {
        RunModel {
            cases: case_models(self.cases@),
            cfg: self.cfg,
            baseline: entries(self.baseline@),
            outcomes: outcome_models(self.outcomes@),
            current: opt_run(self.current),
        }
    }
}

impl RunModel {
    /// The first pass comes first, outcomes come in the order of the cases, and a
    /// case that is being trained is the next one and has something left to do.
    pub open spec fn wf(self) -> bool {
        &&& self.baseline.len() <= self.cases.len()
        &&& self.outcomes.len() <= self.cases.len()
        &&& self.baseline.len() < self.cases.len() ==> self.outcomes.len() == 0
            && self.current is None
        &&& self.baseline.len() == self.cases.len() && self.current is None ==> self.outcomes.len()
            == self.cases.len()
        &&& forall|i: int|
            0 <= i < self.outcomes.len() ==> (#[trigger] self.outcomes[i]).case_id
                == self.cases[i].id && self.outcomes[i].subclass == self.cases[i].subclass
        &&& self.current matches Some(m) ==> m.wf() && !(m.stage is Over) && self.outcomes.len()
            < self.cases.len() && m.case == self.cases[self.outcomes.len() as int]
    }

    /// The training of the next case.
    pub open spec fn case_training(self) -> TrainModel {
        let case = self.cases[self.outcomes.len() as int];
        let at = cross_cases(
            self.cases,
            case.subclass,
            self.cfg.cross_check_per_subclass as nat,
        );
        training_start(
            case,
            baseline_verdict_of(self.baseline, case.id),
            self.cfg,
            cases_at(self.cases, at),
            baselines_at(self.cases, self.baseline, at),
        )
    }

    /// The training at the next case that the primary did not pass in the first
    /// pass; those before it have their outcome.
    pub open spec fn at_next_case(self) -> RunModel
        decreases self.cases.len() - self.outcomes.len(),
    {
        if self.outcomes.len() >= self.cases.len() {
            self
        } else {
            let case = self.cases[self.outcomes.len() as int];
            let verdict = baseline_verdict_of(self.baseline, case.id);
            if verdict == Verdict::Pass {
                RunModel {
                    outcomes: self.outcomes.push(passed_outcome(case, verdict)),
                    ..self
                }.at_next_case()
            } else {
                RunModel { current: Some(self.case_training()), ..self }
            }
        }
    }

    /// The training with its current case as given; a case that is over has its
    /// outcome, and the next one follows.
    pub open spec fn with_case(self, m: TrainModel) -> RunModel {
        if m.stage is Over {
            RunModel {
                outcomes: self.outcomes.push(m.outcome()),
                current: None,
                ..self
            }.at_next_case()
        } else {
            RunModel { current: Some(m), ..self }
        }
    }

    /// The training after a run of a model: in the first pass its verdict is
    /// noted, and the first case follows the last verdict.
    pub open spec fn after_run(self, trace: TraceModel) -> RunModel {
        if self.baseline.len() < self.cases.len() {
            let case = self.cases[self.baseline.len() as int];
            let noted = RunModel {
                baseline: self.baseline.push((case.id, judged(case, trace).0)),
                ..self
            };
            if noted.baseline.len() < noted.cases.len() {
                noted
            } else {
                noted.at_next_case()
            }
        } else {
            match self.current {
                Some(m) => self.with_case(m.after_run(trace)),
                None => self,
            }
        }
    }

    /// What the training asks to be done next.
    pub open spec fn action(self) -> TrainActionModel {
        if self.baseline.len() < self.cases.len() {
            TrainModel::run_of(AgentChoice::Primary, self.cases[self.baseline.len() as int])
        } else {
            match self.current {
                Some(m) => m.action(),
                None => TrainActionModel::Finish,
            }
        }
    }
}

/// The next case keeps what a training keeps.
proof fn lemma_next_case(m: RunModel)
    requires
        m.baseline.len() == m.cases.len(),
        m.outcomes.len() <= m.cases.len(),
        m.current is None,
        forall|i: int|
            0 <= i < m.outcomes.len() ==> (#[trigger] m.outcomes[i]).case_id == m.cases[i].id
                && m.outcomes[i].subclass == m.cases[i].subclass,
    ensures
        m.at_next_case().wf(),
        m.at_next_case().cases == m.cases,
        m.at_next_case().cfg == m.cfg,
        m.at_next_case().baseline == m.baseline,
        m.at_next_case().outcomes.len() >= m.outcomes.len(),
        m.at_next_case().outcomes.take(m.outcomes.len() as int) == m.outcomes,
    decreases m.cases.len() - m.outcomes.len(),
{
    assert(m.outcomes.take(m.outcomes.len() as int) =~= m.outcomes);
    if m.outcomes.len() < m.cases.len() {
        let case = m.cases[m.outcomes.len() as int];
        let verdict = baseline_verdict_of(m.baseline, case.id);
        if verdict == Verdict::Pass {
            let next = RunModel { outcomes: m.outcomes.push(passed_outcome(case, verdict)), ..m };
            lemma_next_case(next);
            let end = next.at_next_case().outcomes;
            assert(end.take(next.outcomes.len() as int) == next.outcomes);
            assert(end.take(m.outcomes.len() as int) =~= next.outcomes.take(
                m.outcomes.len() as int,
            ));
            assert(next.outcomes.take(m.outcomes.len() as int) =~= m.outcomes);
        }
    }
}

impl TrainingRun {
    pub open spec fn wf(&self) -> bool {
        self@.wf()
    }

    /// Starts a training; without cases there is nothing to do.
    pub fn start(cases: Vec<CaseSpec>, cfg: TrainingConfig) -> (r: Self)
        ensures
            r@ == (RunModel {
                cases: case_models(cases@),
                cfg,
                baseline: seq![],
                outcomes: seq![],
                current: None,
            }),
            r.wf(),
    {
        let r = TrainingRun {
            cases,
            cfg,
            baseline: Vec::new(),
            outcomes: Vec::new(),
            current: None,
        };
        assert(r@.baseline =~= seq![]);
        assert(r@.outcomes =~= seq![]);
        r
    }

    fn go_to_next_case(&mut self)
        requires
            old(self).current is None,
            old(self).baseline@.len() == old(self).cases@.len(),
            old(self).outcomes@.len() <= old(self).cases@.len(),
        ensures
            final(self)@ == old(self)@.at_next_case(),
    {
        let ghost start = self@;
        while self.outcomes.len() < self.cases.len()
            invariant
                self.current is None,
                self.outcomes@.len() <= self.cases@.len(),
                self@.at_next_case() == start.at_next_case(),
                start == old(self)@,
            decreases self.cases.len() - self.outcomes.len(),
        {
            let i: usize = self.outcomes.len();
            let ghost before = self@;
            assert(self@.cases[i as int] == self.cases@[i as int]@);
            match train::begin_case(&self.cases, i, &self.cfg, &self.baseline) {
                CaseStart::Passed(outcome) => {
                    self.outcomes.push(outcome);
                    assert(self@.outcomes =~= before.outcomes.push(outcome@));
                },
                CaseStart::Train(run) => {
                    self.current = Some(run);
                    return;
                },
            }
        }
    }

    fn put_case(&mut self, run: CaseRun)
        requires
            old(self).current is None,
            old(self).baseline@.len() == old(self).cases@.len(),
            old(self).outcomes@.len() < old(self).cases@.len(),
        ensures
            final(self)@ == old(self)@.with_case(run@),
    {
        if run.stage == TrainStage::Over {
            let ghost before = self@;
            self.outcomes.push(run.finish());
            assert(self@.outcomes =~= before.outcomes.push(run@.outcome()));
            assert(self@ == (RunModel {
                outcomes: before.outcomes.push(run@.outcome()),
                current: None,
                ..before
            }));
            self.go_to_next_case();
        } else {
            self.current = Some(run);
        }
    }

    /// What the training asks to be done next.
    pub fn next_action(&self) -> (r: TrainAction)
        requires
            self.wf(),
        ensures
            r@ == self@.action(),
    {
        let n: usize = self.baseline.len();
        if n < self.cases.len() {
            assert(self@.cases[n as int] == self.cases@[n as int]@);
            return train::run_on(AgentChoice::Primary, &self.cases[n]);
        }
        match &self.current {
            Some(run) => run.next_action(),
            None => TrainAction::Finish,
        }
    }

    /// Takes up a run of a model that the training asked for.
    pub fn ran(&mut self, trace: &SessionTrace)
        requires
            old(self).wf(),
            old(self)@.action() is Run,
        ensures
            final(self)@ == old(self)@.after_run(trace@),
            final(self).wf(),
    {
        let ghost before = self@;
        let n: usize = self.baseline.len();
        if n < self.cases.len() {
            assert(before.cases[n as int] == self.cases@[n as int]@);
            self.baseline.push(train::baseline_entry(&self.cases[n], trace));
            assert(self@.baseline =~= before.baseline.push(
                (before.cases[n as int].id, judged(before.cases[n as int], trace@).0),
            ));
            if n + 1 == self.cases.len() {
                proof {
                    lemma_next_case(self@);
                }
                self.go_to_next_case();
            }
            return;
        }
        match self.current.take() {
            Some(run) => {
                let mut run = run;
                run.ran(trace);
                proof {
                    lemma_case_put(before, run@);
                }
                self.put_case(run);
            },
            None => {},
        }
    }

    /// Takes up the advisor's suggestion.
    pub fn suggested(&mut self, directive: Option<AdjustmentDirective>)
        requires
            old(self).wf(),
            old(self)@.action() is Ask,
        ensures
            final(self)@ == old(self)@.with_case(
                old(self)@.current->0.after_suggestion(opt_directive(directive)),
            ),
            final(self).wf(),
    {
        let ghost before = self@;
        match self.current.take() {
            Some(run) => {
                let mut run = run;
                run.suggested(directive);
                proof {
                    lemma_case_put(before, run@);
                }
                self.put_case(run);
            },
            None => {},
        }
    }

    /// Takes up that the suggestion was staged, or why it could not be.
    pub fn staged(&mut self, error: Option<String>)
        requires
            old(self).wf(),
            old(self)@.action() is Stage,
        ensures
            final(self)@ == old(self)@.with_case(
                old(self)@.current->0.after_staging(chars::opt_text(error)),
            ),
            final(self).wf(),
    {
        let ghost before = self@;
        match self.current.take() {
            Some(run) => {
                let mut run = run;
                run.staged(error);
                proof {
                    lemma_case_put(before, run@);
                }
                self.put_case(run);
            },
            None => {},
        }
    }

    /// Takes up the change of the score as a decimal.
    pub fn shown(&mut self, short: &str, long: &str)
        requires
            old(self).wf(),
            old(self)@.action() is Show,
        ensures
            final(self)@ == old(self)@.with_case(
                old(self)@.current->0.after_showing(short@, long@),
            ),
            final(self).wf(),
    {
        let ghost before = self@;
        match self.current.take() {
            Some(run) => {
                let mut run = run;
                run.shown(short, long);
                proof {
                    lemma_case_put(before, run@);
                }
                self.put_case(run);
            },
            None => {},
        }
    }

    /// Takes up that the suggestion was reverted.
    pub fn reverted(&mut self)
        requires
            old(self).wf(),
            old(self)@.action() is Revert,
        ensures
            final(self)@ == old(self)@.with_case(old(self)@.current->0.after_reverting()),
            final(self).wf(),
    {
        let ghost before = self@;
        match self.current.take() {
            Some(run) => {
                let mut run = run;
                run.reverted();
                proof {
                    lemma_case_put(before, run@);
                }
                self.put_case(run);
            },
            None => {},
        }
    }

    /// The report of a training that is over: the outcome of every case, and how
    /// the verdicts stood before and after it.
    pub fn finish(self) -> (r: TrainingReport)
        requires
            self.wf(),
            self@.action() is Finish,
        ensures
            outcome_models(r.cases@) == self@.outcomes,
            r.cases@.len() == self@.cases.len(),
            ({
                let before = latest_verdicts(self@.baseline, self@.baseline.len());
                let after = final_verdicts(self@.outcomes);
                &&& r.baseline_pass == count_verdicts(before, Verdict::Pass)
                &&& r.baseline_partial == count_verdicts(before, Verdict::Partial)
                &&& r.baseline_fail == count_verdicts(before, Verdict::Fail)
                &&& r.final_pass == count_verdicts(after, Verdict::Pass)
                &&& r.final_partial == count_verdicts(after, Verdict::Partial)
                &&& r.final_fail == count_verdicts(after, Verdict::Fail)
                &&& r.total_promoted == promotions(self@.outcomes)
            }),
    {
        let TrainingRun { cases: _, cfg: _, baseline, outcomes, current: _ } = self;
        train::summarize(&baseline, outcomes)
    }
}

/// Putting back a case's training keeps what a training keeps.
proof fn lemma_case_put(before: RunModel, m: TrainModel)
    requires
        before.wf(),
        before.current is Some,
        m.wf(),
        m.case == before.current->0.case,
    ensures
        before.with_case(m).wf(),
        before.with_case(m) == (RunModel { current: None, ..before }).with_case(m),
{
    if m.stage is Over {
        let next = RunModel { outcomes: before.outcomes.push(m.outcome()), current: None, ..before };
        lemma_next_case(next);
    }
}

// ---------------------------------------------------------------------------
// Laws
// ---------------------------------------------------------------------------

/// A training that is over has an outcome for every case, in the order of the
/// cases, and one that asks for anything but a run is training a case.
pub proof fn law_every_case_has_its_outcome(m: RunModel)
    requires
        m.wf(),
    ensures
        m.action() is Finish ==> m.outcomes.len() == m.cases.len() && forall|i: int|
            0 <= i < m.cases.len() ==> (#[trigger] m.outcomes[i]).case_id == m.cases[i].id
                && m.outcomes[i].subclass == m.cases[i].subclass,
        !(m.action() is Run) && !(m.action() is Finish) ==> m.current is Some,
{
}

/// A run of a model takes back no verdict of the first pass and no outcome.
pub proof fn law_progress_is_kept(m: RunModel, trace: TraceModel)
    requires
        m.wf(),
        m.action() is Run,
    ensures
        ({
            let next = m.after_run(trace);
            &&& next.cases == m.cases
            &&& next.baseline.len() >= m.baseline.len()
            &&& next.baseline.take(m.baseline.len() as int) == m.baseline
            &&& next.outcomes.len() >= m.outcomes.len()
            &&& next.outcomes.take(m.outcomes.len() as int) == m.outcomes
        }),
{
    assert(m.baseline.take(m.baseline.len() as int) =~= m.baseline);
    assert(m.outcomes.take(m.outcomes.len() as int) =~= m.outcomes);
    if m.baseline.len() < m.cases.len() {
        let case = m.cases[m.baseline.len() as int];
        let noted = RunModel {
            baseline: m.baseline.push((case.id, judged(case, trace).0)),
            ..m
        };
        assert(noted.baseline.take(m.baseline.len() as int) =~= m.baseline);
        if noted.baseline.len() == noted.cases.len() {
            lemma_next_case(noted);
        }
    } else {
        let run = m.current->0.after_run(trace);
        if run.stage is Over {
            let done = RunModel { outcomes: m.outcomes.push(run.outcome()), current: None, ..m };
            lemma_next_case(done);
            let end = done.at_next_case().outcomes;
            assert(end.take(done.outcomes.len() as int) == done.outcomes);
            assert(end.take(m.outcomes.len() as int) =~= done.outcomes.take(
                m.outcomes.len() as int,
            ));
            assert(done.outcomes.take(m.outcomes.len() as int) =~= m.outcomes);
        }
    }
}

}
