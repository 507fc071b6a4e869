use minipaw::tools::{
    after_poll, cap_text, DirEntry, PollAction, ProcessReply, ToolPolicy, ToolReply, ToolRequest,
    ToolRunner,
};
use minipaw::types::PlanStepKind;

#[test]
fn denies_exec_by_default() {
    let runner = ToolRunner::new(ToolPolicy {
        workspace: ".".to_owned(),
        max_file_bytes: 64,
        max_output_bytes: 64,
        timeout: 1,
        allow_exec: false,
        allowed_exec: Vec::new(),
        skill_exec: Vec::new(),
    });

    let result = runner.run_step(
        &PlanStepKind::Exec {
            program: "true".to_owned(),
            args: Vec::new(),
        },
        &ToolReply::Nothing,
    );

    assert!(!result.ok);
    assert!(result.output.contains("denied"));
}

fn runner(allowed: &[&str], skills: &[&str]) -> ToolRunner {
    ToolRunner::new(ToolPolicy {
        workspace: "/w".to_owned(),
        max_file_bytes: 4,
        max_output_bytes: 8,
        timeout: 9,
        allow_exec: true,
        allowed_exec: allowed.iter().map(|s| s.to_string()).collect(),
        skill_exec: skills.iter().map(|s| s.to_string()).collect(),
    })
}

fn git() -> PlanStepKind {
    PlanStepKind::Exec { program: "git".into(), args: vec!["status".into()] }
}

#[test]
fn programs_are_allowed_by_either_list() {
    assert!(runner(&[], &[]).policy().allows_program("git"));
    assert!(!runner(&["ls"], &[]).policy().allows_program("git"));
    assert!(runner(&["ls"], &["git"]).policy().allows_program("git"));
    match runner(&["git"], &[]).request(&git()) {
        ToolRequest::Spawn { program, args, dir, timeout } => {
            assert_eq!((program.as_str(), dir.as_str(), timeout), ("git", "/w", 9));
            assert_eq!(args, vec!["status"]);
        }
        other => panic!("unexpected request {other:?}"),
    }
    assert!(matches!(runner(&["ls"], &[]).request(&git()), ToolRequest::Ready(_)));
}

#[test]
fn paths_are_taken_under_the_workspace() {
    let r = runner(&[], &[]);
    match r.request(&PlanStepKind::ReadFile("a/b".into())) {
        ToolRequest::ReadFile { path } => assert_eq!(path, "/w/a/b"),
        other => panic!("unexpected request {other:?}"),
    }
    match r.request(&PlanStepKind::ListDir("/etc".into())) {
        ToolRequest::ListDir { path } => assert_eq!(path, "/etc"),
        other => panic!("unexpected request {other:?}"),
    }
}

#[test]
fn files_are_read_within_their_limit() {
    let r = runner(&[], &[]);
    let step = PlanStepKind::ReadFile("a".into());
    let read = r.run_step(&step, &ToolReply::File(Ok(vec![b'x', 0xff])));
    assert_eq!((read.name.as_str(), read.ok, read.output.as_str()), ("fs.read", true, "x\u{fffd}"));
    let long = r.run_step(&step, &ToolReply::File(Ok(vec![b'x'; 5])));
    assert_eq!(long.output, "file is 5 bytes; limit is 4 bytes");
    let failed = r.run_step(&step, &ToolReply::File(Err("gone".into())));
    assert!(!failed.ok);
    assert_eq!(failed.output, "read failed: gone");
}

#[test]
fn listings_are_sorted_and_cut() {
    let r = runner(&[], &[]);
    let step = PlanStepKind::ListDir(".".into());
    let entries = vec![
        DirEntry { name: "bb".into(), is_dir: false },
        DirEntry { name: "aa".into(), is_dir: true },
    ];
    assert_eq!(r.run_step(&step, &ToolReply::Listing(Ok(entries))).output, "aa/\nbb");
    let failed = r.run_step(&step, &ToolReply::Listing(Err("gone".into())));
    assert_eq!((failed.ok, failed.output.as_str()), (false, "list failed: gone"));
}

#[test]
fn program_outcomes_are_reported() {
    let r = runner(&[], &[]);
    let run = |reply: ProcessReply| r.run_step(&git(), &ToolReply::Process(reply));
    let both = run(ProcessReply::Finished {
        success: true,
        stdout: b"out".to_vec(),
        stderr: b"err".to_vec(),
    });
    assert!(both.ok);
    assert_eq!(both.output, cap_text("out\nstderr:\nerr", 8));
    let one = run(ProcessReply::Finished { success: false, stdout: b"o\xff".to_vec(), stderr: vec![] });
    assert_eq!((one.ok, one.output.as_str()), (false, "o\u{fffd}"));
    assert_eq!(run(ProcessReply::SpawnFailed("a".into())).output, "exec failed: a");
    assert_eq!(run(ProcessReply::TimedOut).output, "exec timed out");
    assert_eq!(run(ProcessReply::WaitFailed("b".into())).output, "exec wait failed: b");
    assert_eq!(run(ProcessReply::OutputFailed("c".into())).output, "exec output failed: c");
}

#[test]
fn texts_are_cut_at_a_character() {
    assert_eq!(cap_text("héllo", 2), "h\n[truncated to 2 bytes]");
    assert_eq!(cap_text("héllo", 6), "héllo");
}

#[test]
fn polling_collects_kills_or_waits() {
    assert_eq!(after_poll(true, true), PollAction::Collect);
    assert_eq!(after_poll(false, true), PollAction::Kill);
    assert_eq!(after_poll(false, false), PollAction::Wait);
}
