use minipaw::channels::exec_agent::{parse_exec_command, shell_split, ExecAgent};
use minipaw::tools::{DirEntry, ProcessReply, ToolPolicy, ToolReply, ToolRequest};
use minipaw::types::PlanStepKind;

#[test]
fn quotes_keep_tokens_together() {
    assert_eq!(shell_split("a  b\tc"), vec!["a", "b", "c"]);
    assert_eq!(shell_split("echo \"a 'b' c\" 'd \"e\"'"), vec!["echo", "a 'b' c", "d \"e\""]);
    assert_eq!(shell_split("x\"y z\"w"), vec!["xy zw"]);
    assert_eq!(shell_split("\"a\\\"b\\n\" '\\t'"), vec!["a\"b\n", "\t"]);
    assert_eq!(shell_split("'' \"\""), Vec::<String>::new());
    assert_eq!(shell_split("\"open end"), vec!["open end"]);
    assert_eq!(shell_split("a\\ b"), vec!["a\\", "b"]);
}

#[test]
fn command_lines_ask_for_steps() {
    assert_eq!(parse_exec_command("  "), PlanStepKind::Answer("(empty command)".into()));
    assert_eq!(parse_exec_command("cat"), PlanStepKind::Answer("read requires a path".into()));
    assert_eq!(parse_exec_command("read a b"), PlanStepKind::ReadFile("a b".into()));
    assert_eq!(parse_exec_command("ls"), PlanStepKind::ListDir(".".into()));
    assert_eq!(parse_exec_command("list src"), PlanStepKind::ListDir("src".into()));
    assert_eq!(
        parse_exec_command("git log -1"),
        PlanStepKind::Exec { program: "git".into(), args: vec!["log".into(), "-1".into()] }
    );
}

#[test]
fn commands_succeed_or_fail_with_their_output() {
    let agent = ExecAgent::new(ToolPolicy {
        workspace: "/w".to_owned(),
        max_file_bytes: 64,
        max_output_bytes: 64,
        timeout: 1,
        allow_exec: true,
        allowed_exec: vec!["git".into()],
        skill_exec: vec![],
    });
    assert_eq!(agent.name(), "exec");
    assert!(matches!(agent.request("ls src"), ToolRequest::ListDir { path } if path == "/w/src"));
    let listing = ToolReply::Listing(Ok(vec![DirEntry { name: "a".into(), is_dir: true }]));
    assert_eq!(agent.execute("ls src", &listing).unwrap(), "a/");
    assert_eq!(
        agent.execute("rm x", &ToolReply::Nothing).unwrap_err(),
        "exec denied: rm is not allowlisted"
    );
    let failed = ToolReply::Process(ProcessReply::Finished {
        success: false,
        stdout: b"out".to_vec(),
        stderr: vec![],
    });
    assert_eq!(agent.execute("git x", &failed).unwrap_err(), "out");
}
