use minipaw::rubric::{
    compute_metrics, evaluate, extract_paw_tools, parse_case_line, parse_manifest, score,
    CaseSpec, Verdict,
};
use minipaw::session::{ExecRecord, SessionTrace};

#[test]
fn extract_tools_finds_chained_paw() {
    let cmd = "python3 -c \"subprocess.run(['python3','../tools/paw.py','robot_move_forward','3']); subprocess.run(['python3','../tools/paw.py','robot_map_locate'])\"";
    let tools = extract_paw_tools(cmd);
    assert_eq!(tools, vec!["robot_move_forward", "robot_map_locate"]);
}

#[test]
fn parse_pawbench_style_line() {
    let line = r#"{"id": "A01", "category": "survey", "input": "test task", "must_tools": ["a","b"], "must_in_output": ["x"], "must_in_exec": [], "min_tool_calls": 5}"#;
    let c = parse_case_line(line).unwrap();
    assert_eq!(c.id, "A01");
    assert_eq!(c.subclass, "survey");
    assert_eq!(c.must_tools, vec!["a", "b"]);
    assert_eq!(c.must_in_output, vec!["x"]);
    assert_eq!(c.min_tool_calls, 5);
}

#[test]
fn evaluate_pass_when_all_satisfied() {
    let case = CaseSpec {
        id: "T".into(),
        task: "".into(),
        subclass: "general".into(),
        must_tools: vec!["robot_camera_capture".into()],
        must_in_output: vec!["ok".into()],
        must_in_exec: vec![],
        min_tool_calls: 1,
    };
    let trace = SessionTrace {
        output: "task is ok".into(),
        steps: 1,
        execs: vec![ExecRecord {
            cmd: "python3 ../tools/paw.py robot_camera_capture".into(),
            ok: true,
            result: "camera=ok".into(),
        }],
    };
    let (v, _) = evaluate(&case, &trace);
    assert_eq!(v, Verdict::Pass);
}

#[test]
fn evaluate_partial_when_count_short() {
    let case = CaseSpec {
        id: "T".into(),
        task: "".into(),
        subclass: "general".into(),
        must_tools: vec!["a".into(), "b".into(), "c".into()],
        must_in_output: vec![],
        must_in_exec: vec![],
        min_tool_calls: 2,
    };
    // 2 of 3 must_tools satisfied (67% < 70%) → Fail
    let trace = SessionTrace {
        output: "done".into(),
        steps: 1,
        execs: vec![
            ExecRecord { cmd: "python3 ../tools/paw.py a".into(), ok: true, result: "".into() },
            ExecRecord { cmd: "python3 ../tools/paw.py b".into(), ok: true, result: "".into() },
        ],
    };
    let (v, _) = evaluate(&case, &trace);
    assert_eq!(v, Verdict::Fail);
}

#[test]
fn alias_satisfies_must_tool() {
    let case = CaseSpec {
        id: "T".into(),
        task: "".into(),
        subclass: "general".into(),
        must_tools: vec!["self_battery_level".into()],
        must_in_output: vec![],
        must_in_exec: vec![],
        min_tool_calls: 1,
    };
    let trace = SessionTrace {
        output: "done".into(),
        steps: 1,
        execs: vec![ExecRecord {
            cmd: "python3 ../tools/paw.py robot_charge_status".into(),
            ok: true,
            result: "".into(),
        }],
    };
    let (v, _) = evaluate(&case, &trace);
    assert_eq!(v, Verdict::Pass);
}

fn case_with(tools: &[&str], min: usize) -> CaseSpec {
    CaseSpec {
        id: "T".into(),
        task: "".into(),
        subclass: "general".into(),
        must_tools: tools.iter().map(|t| t.to_string()).collect(),
        must_in_output: vec!["Done".into()],
        must_in_exec: vec!["battery".into()],
        min_tool_calls: min,
    }
}

fn trace_of(cmds: &[&str], output: &str) -> SessionTrace {
    SessionTrace {
        output: output.into(),
        steps: cmds.len(),
        execs: cmds
            .iter()
            .map(|c| ExecRecord { cmd: c.to_string(), ok: true, result: "r".into() })
            .collect(),
    }
}

#[test]
fn metrics_count_calls_and_what_is_missing() {
    let case = case_with(&["alpha", "beta"], 3);
    let trace = trace_of(&["paw.py alpha; paw.py alpha", "echo paw.py: gamma_1"], "not finished");
    let m = compute_metrics(&case, &trace);
    assert_eq!(m.tool_calls_total, 3);
    assert_eq!(m.tool_calls_distinct, 2);
    assert_eq!(m.tool_call_sequence, vec!["alpha", "alpha", "gamma_1"]);
    assert_eq!(m.missing_tools, vec!["beta"]);
    assert_eq!(m.missing_in_output, vec!["Done"]);
    assert_eq!(m.missing_in_exec, vec!["battery"]);
    assert_eq!(m.exec_step_count, 2);
}

#[test]
fn tools_stand_behind_a_separator() {
    assert!(extract_paw_tools("cat paw.pyc; ls").is_empty());
    assert_eq!(extract_paw_tools("paw.pyc paw.py scan"), vec!["scan"]);
    assert_eq!(extract_paw_tools("paw.py','scan_1','x'"), vec!["scan_1"]);
    assert_eq!(extract_paw_tools("paw.py 3"), Vec::<String>::new());
}

#[test]
fn reasons_name_every_gap() {
    let case = case_with(&["alpha"], 2);
    let trace = trace_of(&[], "Session reached step limit (16).");
    let (v, reasons) = evaluate(&case, &trace);
    assert_eq!(v, Verdict::Fail);
    assert_eq!(
        reasons,
        vec![
            "tool_calls<2: got 0",
            "missing_tools=alpha",
            "missing_in_output=Done",
            "missing_in_exec=battery",
            "step_limit_reached",
        ]
    );
}

#[test]
fn seven_tenths_of_the_tools_are_partial() {
    let names = ["t0", "t1", "t2", "t3", "t4", "t5", "t6", "t7", "t8", "t9"];
    let case = case_with(&names, 1);
    let seven: Vec<String> = names[..7].iter().map(|n| format!("paw.py {n}")).collect();
    let refs: Vec<&str> = seven.iter().map(|s| s.as_str()).collect();
    let (v, _) = evaluate(&case, &trace_of(&refs, "done, battery"));
    assert_eq!(v, Verdict::Partial);
    let (w, _) = evaluate(&case, &trace_of(&refs[..6], "done, battery"));
    assert_eq!(w, Verdict::Fail);
    assert_eq!((score(v), score(w), score(Verdict::Pass)), (1, 0, 2));
}

#[test]
fn manifest_skips_blank_lines_and_names_the_bad_one() {
    let text = "{\"id\":\"a\",\"input\":\"x\\ty\\b\"}\n\n{\"id\":\"b\",\"input\":\"y\",\"subclass\":\"s\",\"category\":\"c\"}\n";
    let cases = parse_manifest(text).unwrap();
    assert_eq!(cases.len(), 2);
    assert_eq!(cases[0].task, "x\ty\u{8}");
    assert_eq!(cases[0].subclass, "general");
    assert_eq!(cases[0].min_tool_calls, 8);
    assert_eq!(cases[1].subclass, "s");
    let bad = parse_manifest("{\"id\":\"a\",\"input\":\"x\"}\n\n{\"id\":\"b\"}").unwrap_err();
    assert_eq!(bad, "manifest line 3: failed to parse");
}

#[test]
fn arrays_keep_escapes_and_drop_what_does_not_end() {
    let c = parse_case_line(
        "{\"id\":\"a\",\"input\":\"x\",\"must_tools\":[\"p\\\"q\" , \"r\\n\",\"s",
    )
    .unwrap();
    assert_eq!(c.must_tools, vec!["p\"q", "r\n"]);
    let d = parse_case_line("{\"id\":\"a\",\"input\":\"x\",\"must_tools\":\"none\"}").unwrap();
    assert!(d.must_tools.is_empty());
}
