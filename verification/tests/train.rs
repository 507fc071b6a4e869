use minipaw::adjustments::AdjustmentDirective;
use minipaw::prompts::PromptStore;
use minipaw::rubric::{CaseSpec, Verdict};
use minipaw::session::{ExecRecord, SessionTrace};
use minipaw::skills::SkillRegistry;
use minipaw::table::Table;
use minipaw::train::{
    baseline_entry, baseline_of, baseline_verdicts, begin_case, describe_action,
    format_prior_attempts, format_rubric, regressed, render_report, revert_directive,
    select_cross_cases, stage_directive, summarize, verdict_from_avg_score, AttemptAction,
    AttemptRecord, CaseRun, CaseStart, TrainAction, TrainingConfig,
};
use minipaw::training::TrainingRun;
use minipaw::types::{AgentChoice, MessageClass};

fn case(id: &str, subclass: &str) -> CaseSpec {
    CaseSpec {
        id: id.into(),
        task: format!("do {id}"),
        subclass: subclass.into(),
        must_tools: vec!["scan".into()],
        must_in_output: vec![],
        must_in_exec: vec![],
        min_tool_calls: 1,
    }
}

fn passing() -> SessionTrace {
    SessionTrace {
        output: "good".into(),
        steps: 1,
        execs: vec![ExecRecord { cmd: "paw.py scan".into(), ok: true, result: "ok".into() }],
    }
}

fn failing() -> SessionTrace {
    SessionTrace { output: "poor".into(), steps: 1, execs: vec![] }
}

fn config(attempts: usize, cross: usize, runs: usize) -> TrainingConfig {
    TrainingConfig {
        max_attempts: attempts,
        cross_check_per_subclass: cross,
        retest_runs: runs,
        class: MessageClass::MiniHow,
    }
}

fn rule(text: &str) -> AdjustmentDirective {
    AdjustmentDirective::RuleAppend { class: MessageClass::MiniHow, rule: text.into() }
}

fn started(cases: &Vec<CaseSpec>, cfg: &TrainingConfig, baseline: &Vec<(String, Verdict)>) -> CaseRun {
    match begin_case(cases, 0, cfg, baseline) {
        CaseStart::Train(run) => run,
        CaseStart::Passed(_) => panic!("the case has not passed"),
    }
}

fn asks_for_run(run: &CaseRun, by: AgentChoice) -> bool {
    matches!(run.next_action(), TrainAction::Run { executor, .. } if executor == by)
}

#[test]
fn improvement_is_promoted() {
    let cases = vec![case("a", "s")];
    let baseline = vec![("a".to_owned(), Verdict::Fail)];
    let mut run = started(&cases, &config(3, 2, 1), &baseline);
    assert!(asks_for_run(&run, AgentChoice::Primary));
    run.ran(&failing());
    assert!(asks_for_run(&run, AgentChoice::Advisor));
    run.ran(&passing());
    match run.next_action() {
        TrainAction::Ask { prior_attempts, rubric } => {
            assert_eq!(prior_attempts, format_prior_attempts(&vec![]));
            assert!(rubric.contains("scan"));
        }
        other => panic!("unexpected action {other:?}"),
    }
    run.suggested(Some(rule("scan first")));
    assert!(matches!(run.next_action(), TrainAction::Stage));
    run.staged(None);
    assert!(asks_for_run(&run, AgentChoice::Primary));
    run.ran(&passing());
    match run.next_action() {
        TrainAction::Show { half_points, runs } => assert_eq!((half_points, runs), (2, 1)),
        other => panic!("unexpected action {other:?}"),
    }
    run.shown("+1.00", "1.000");
    assert!(matches!(run.next_action(), TrainAction::Finish));
    let outcome = run.finish();
    assert_eq!(outcome.final_verdict, Verdict::Pass);
    assert_eq!(outcome.promoted_directive.as_deref(), Some("rule-append [minihow]: scan first"));
    assert_eq!(outcome.attempts.len(), 1);
    assert_eq!(outcome.attempts[0].delta_score, "+1.00");
    assert_eq!((outcome.attempts[0].half_points, outcome.attempts[0].runs), (2, 1));
}

#[test]
fn attempts_that_do_not_improve_are_reverted() {
    let cases = vec![case("a", "s")];
    let baseline = vec![("a".to_owned(), Verdict::Fail)];
    let mut run = started(&cases, &config(3, 2, 1), &baseline);
    run.ran(&failing());
    run.ran(&failing());
    run.suggested(Some(AdjustmentDirective::NoChange));
    run.ran(&failing());
    run.suggested(None);
    run.ran(&failing());
    run.suggested(Some(rule("x")));
    run.staged(None);
    run.ran(&failing());
    run.shown("+0.00", "0.000");
    assert!(matches!(run.next_action(), TrainAction::Revert));
    run.reverted();
    assert!(matches!(run.next_action(), TrainAction::Finish));
    let outcome = run.finish();
    assert_eq!(outcome.final_verdict, Verdict::Fail);
    assert!(outcome.promoted_directive.is_none());
    let actions: Vec<&str> = outcome.attempts.iter().map(|a| describe_action(&a.action)).collect();
    assert_eq!(actions.len(), 3);
    assert!(matches!(outcome.attempts[0].action, AttemptAction::NoChange));
    assert!(matches!(outcome.attempts[1].action, AttemptAction::Unparseable));
    assert_eq!((outcome.attempts[1].half_points, outcome.attempts[1].runs), (0, 0));
    assert_eq!((outcome.attempts[2].half_points, outcome.attempts[2].runs), (0, 1));
    match &outcome.attempts[2].action {
        AttemptAction::Reverted { reason } => assert_eq!(reason, "no improvement (Δ 0.000)"),
        other => panic!("unexpected action {other:?}"),
    }
}

#[test]
fn a_directive_that_cannot_be_staged_counts_as_an_attempt() {
    let cases = vec![case("a", "s")];
    let baseline = vec![("a".to_owned(), Verdict::Fail)];
    let mut run = started(&cases, &config(1, 0, 1), &baseline);
    run.ran(&failing());
    run.ran(&failing());
    run.suggested(Some(rule("x")));
    run.staged(Some("disk full".to_owned()));
    assert!(matches!(run.next_action(), TrainAction::Finish));
    let outcome = run.finish();
    match &outcome.attempts[0].action {
        AttemptAction::Reverted { reason } => assert_eq!(reason, "apply error: disk full"),
        other => panic!("unexpected action {other:?}"),
    }
}

#[test]
fn regressions_elsewhere_revert() {
    let cases = vec![case("a", "s"), case("b", "t"), case("c", "s")];
    let baseline = vec![
        ("a".to_owned(), Verdict::Fail),
        ("b".to_owned(), Verdict::Pass),
        ("c".to_owned(), Verdict::Pass),
    ];
    assert_eq!(select_cross_cases(&cases, "s", 2), vec![1]);
    let mut run = started(&cases, &config(1, 2, 1), &baseline);
    run.ran(&failing());
    run.ran(&passing());
    run.suggested(Some(rule("x")));
    run.staged(None);
    run.ran(&passing());
    run.shown("+1.00", "1.000");
    match run.next_action() {
        TrainAction::Run { executor, task, subclass } => {
            assert_eq!(executor, AgentChoice::Primary);
            assert_eq!((task.as_str(), subclass.as_str()), ("do b", "t"));
        }
        other => panic!("unexpected action {other:?}"),
    }
    run.ran(&failing());
    assert!(matches!(run.next_action(), TrainAction::Revert));
    run.reverted();
    let outcome = run.finish();
    assert_eq!(outcome.final_verdict, Verdict::Fail);
    assert_eq!((outcome.attempts[0].half_points, outcome.attempts[0].runs), (2, 1));
    match &outcome.attempts[0].action {
        AttemptAction::CrossCatRegressed { regressions } => {
            assert_eq!(regressions.len(), 1);
            assert!(regressions[0].contains('b'));
        }
        other => panic!("unexpected action {other:?}"),
    }
}

#[test]
fn scores_are_averaged_over_runs() {
    let cases = vec![case("a", "s")];
    let baseline = vec![("a".to_owned(), Verdict::Fail)];
    let mut run = started(&cases, &config(1, 0, 2), &baseline);
    run.ran(&failing());
    assert!(asks_for_run(&run, AgentChoice::Primary));
    run.ran(&failing());
    assert!(asks_for_run(&run, AgentChoice::Advisor));
    run.ran(&passing());
    run.suggested(Some(rule("x")));
    run.staged(None);
    run.ran(&passing());
    assert!(asks_for_run(&run, AgentChoice::Primary));
    run.ran(&failing());
    match run.next_action() {
        TrainAction::Show { half_points, runs } => assert_eq!((half_points, runs), (2, 2)),
        other => panic!("unexpected action {other:?}"),
    }
    run.shown("+0.50", "0.500");
    let outcome = run.finish();
    assert_eq!(outcome.final_verdict, verdict_from_avg_score(2, 2));
    assert_eq!((outcome.attempts[0].half_points, outcome.attempts[0].runs), (2, 2));
}

#[test]
fn averages_have_verdicts() {
    assert_eq!(verdict_from_avg_score(4, 2), Verdict::Pass);
    assert_eq!(verdict_from_avg_score(0, 3), Verdict::Fail);
    assert_eq!(verdict_from_avg_score(1, 1), Verdict::Partial);
    // Two passes and a fail, two fails and a pass, one of each.
    assert_eq!(verdict_from_avg_score(4, 3), Verdict::Pass);
    assert_eq!(verdict_from_avg_score(2, 3), Verdict::Fail);
    assert_eq!(verdict_from_avg_score(2, 2), Verdict::Partial);
    assert!(regressed(Verdict::Pass, Verdict::Partial));
    assert!(!regressed(Verdict::Partial, Verdict::Partial));
}

#[test]
fn passed_cases_are_left_alone() {
    let cases = vec![case("a", "s")];
    let (id, verdict) = baseline_entry(&cases[0], &passing());
    assert_eq!((id.as_str(), verdict), ("a", Verdict::Pass));
    let baseline = vec![(id, verdict)];
    match begin_case(&cases, 0, &TrainingConfig::default(), &baseline) {
        CaseStart::Passed(outcome) => {
            assert_eq!(outcome.final_verdict, Verdict::Pass);
            assert!(outcome.attempts.is_empty());
        }
        CaseStart::Train(_) => panic!("the case has passed"),
    }
    assert_eq!(baseline_of(&baseline, "zz"), Verdict::Fail);
    assert_eq!(baseline_verdicts(&baseline), vec![Verdict::Pass]);
}

#[test]
fn staged_directives_are_undone() {
    let mut store =
        PromptStore::install("/ws".to_owned(), Table::new(), Table::new(), Table::new());
    let snapshot = stage_directive(&mut store, MessageClass::MiniHow, &rule("x"), "s");
    assert!(store.read_subclass(MessageClass::MiniHow, "s").is_some());
    revert_directive(&mut store, MessageClass::MiniHow, &rule("x"), "s", &snapshot);
    assert!(store.read_subclass(MessageClass::MiniHow, "s").is_none());
    assert_eq!(snapshot, "");
    let skill = AdjustmentDirective::SkillNew {
        name: "up".into(),
        description: "d".into(),
        command: "uptime".into(),
    };
    stage_directive(&mut store, MessageClass::MiniHow, &skill, "s");
    assert!(SkillRegistry::load(&store.skills).find("up").is_some());
    revert_directive(&mut store, MessageClass::MiniHow, &skill, "s", "");
    assert!(SkillRegistry::load(&store.skills).is_empty());
}

#[test]
fn reports_count_verdicts() {
    let cases = vec![case("a", "s")];
    let baseline = vec![("a".to_owned(), Verdict::Fail)];
    let mut run = started(&cases, &config(1, 0, 1), &baseline);
    run.ran(&failing());
    run.ran(&passing());
    run.suggested(Some(rule("say \"hi\"")));
    run.staged(None);
    run.ran(&passing());
    run.shown("+1.00", "1.000");
    let report = summarize(&baseline, vec![run.finish()]);
    assert_eq!((report.baseline_fail, report.final_pass, report.total_promoted), (1, 1, 1));
    let (summary, records) = render_report(&report);
    assert!(summary.starts_with("# Training report\n\n- baseline: "));
    assert_eq!(records.lines().count(), 1);
    assert!(records.contains("say \\\"hi\\\""));
}

#[test]
fn prior_attempts_and_rubrics_are_described() {
    let attempts = vec![AttemptRecord {
        directive_summary: "rule-append [minihow]: x".into(),
        new_verdict: Verdict::Partial,
        half_points: 1,
        runs: 1,
        delta_score: "+0.50".into(),
        action: AttemptAction::Reverted { reason: "why".into() },
    }];
    let text = format_prior_attempts(&attempts);
    assert!(text.contains("rule-append [minihow]: x"));
    assert!(text.contains("+0.50"));
    let rubric = format_rubric(&case("a", "s"), &vec!["tool_calls<1: got 0".to_owned()]);
    assert!(rubric.contains("tool_calls<1: got 0"));
    assert_eq!(describe_action(&AttemptAction::Unparseable), "your response was unparseable");
}

#[test]
fn whole_training_goes_over_every_case() {
    let cases = vec![case("a", "s"), case("b", "t"), case("c", "t")];
    let mut run = TrainingRun::start(cases, config(1, 0, 1));
    for (task, trace) in [("do a", passing()), ("do b", failing()), ("do c", passing())] {
        match run.next_action() {
            TrainAction::Run { executor, task: asked, .. } => {
                assert_eq!((executor, asked.as_str()), (AgentChoice::Primary, task));
            }
            other => panic!("unexpected action {other:?}"),
        }
        run.ran(&trace);
    }
    assert_eq!(run.outcomes.len(), 1);
    assert_eq!(run.current.as_ref().unwrap().case.id, "b");
    run.ran(&failing());
    run.ran(&passing());
    assert!(matches!(run.next_action(), TrainAction::Ask { .. }));
    run.suggested(Some(rule("x")));
    assert!(matches!(run.next_action(), TrainAction::Stage));
    run.staged(None);
    run.ran(&passing());
    assert!(matches!(run.next_action(), TrainAction::Show { .. }));
    run.shown("+1.00", "1.000");
    assert!(matches!(run.next_action(), TrainAction::Finish));
    let report = run.finish();
    let ids: Vec<&str> = report.cases.iter().map(|o| o.case_id.as_str()).collect();
    assert_eq!(ids, vec!["a", "b", "c"]);
    assert_eq!((report.baseline_pass, report.baseline_fail), (2, 1));
    assert_eq!((report.final_pass, report.total_promoted), (3, 1));
}

#[test]
fn training_reverts_and_goes_on() {
    let cases = vec![case("a", "s"), case("b", "t")];
    let mut run = TrainingRun::start(cases, config(1, 0, 1));
    run.ran(&failing());
    run.ran(&failing());
    run.ran(&failing());
    run.ran(&passing());
    run.suggested(Some(rule("x")));
    run.staged(None);
    run.ran(&failing());
    run.shown("+0.00", "0.000");
    assert!(matches!(run.next_action(), TrainAction::Revert));
    run.reverted();
    assert_eq!(run.outcomes.len(), 1);
    assert_eq!(run.current.as_ref().unwrap().case.id, "b");
    assert!(matches!(run.next_action(), TrainAction::Run { .. }));
    let none = TrainingRun::start(vec![], config(1, 0, 1));
    assert!(matches!(none.next_action(), TrainAction::Finish));
    assert_eq!(none.finish().cases.len(), 0);
}
