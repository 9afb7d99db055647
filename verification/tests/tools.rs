use mini_env::errors::ToolError;
use mini_env::paths::TargetProbe;
use mini_env::tools::{authorize, tool_target, FileOp};
use mini_env::tools::{
    dispatch, list_dir_output, plan_tool, read_file_output, run_tests_output, text_arg,
    write_file_output, DirEntryInfo, ToolCall,
};
use mini_env::types::{ArgValue, EpisodeState, ToolArgs};

fn args(list: &[(&str, ArgValue)]) -> ToolArgs {
    ToolArgs {
        entries: list
            .iter()
            .map(|(k, v)| {
                let v = match v {
                    ArgValue::Text(s) => ArgValue::Text(s.clone()),
                    ArgValue::Other(s) => ArgValue::Other(s.clone()),
                };
                (k.to_string(), v)
            })
            .collect(),
    }
}

fn text(s: &str) -> ArgValue {
    ArgValue::Text(s.to_string())
}

fn state() -> EpisodeState {
    EpisodeState {
        episode_id: "e1".to_string(),
        workspace: "/tmp/ws".to_string(),
        task_name: "buggy".to_string(),
        steps: 3,
        done: false,
        action_history: Vec::new(),
        started_at: None,
    }
}

fn err_text(r: Result<ToolCall, ToolError>) -> String {
    r.unwrap_err().message()
}

#[test]
fn plan_read_file() {
    match plan_tool("read_file", &args(&[("path", text("solution.py"))])) {
        Ok(ToolCall::ReadFile { path }) => assert_eq!(path, "solution.py"),
        other => panic!("unexpected {:?}", other),
    }
}

#[test]
fn plan_write_file() {
    let a = args(&[("content", text("x = 1\n")), ("path", text("a.py"))]);
    match plan_tool("write_file", &a) {
        Ok(ToolCall::WriteFile { path, content }) => {
            assert_eq!(path, "a.py");
            assert_eq!(content, "x = 1\n");
        },
        other => panic!("unexpected {:?}", other),
    }
}

#[test]
fn plan_list_dir_and_run_tests() {
    assert!(matches!(plan_tool("list_dir", &args(&[("path", text("."))])), Ok(ToolCall::ListDir { .. })));
    assert!(matches!(plan_tool("run_tests", &args(&[])), Ok(ToolCall::RunTests)));
}

#[test]
fn plan_missing_path() {
    assert_eq!(err_text(plan_tool("read_file", &args(&[]))), "path is required as an arg");
    assert_eq!(err_text(plan_tool("list_dir", &args(&[("path", ArgValue::Other("3".to_string()))]))), "path is required as an arg");
    assert_eq!(err_text(plan_tool("write_file", &args(&[("content", text("x"))]))), "path is required as an arg");
}

#[test]
fn plan_missing_content() {
    assert_eq!(err_text(plan_tool("write_file", &args(&[("path", text("a.py"))]))), "content is required as an arg");
}

#[test]
fn plan_unknown_tool() {
    assert_eq!(
        err_text(plan_tool("rm", &args(&[]))),
        "unknown tool: rm. Availabe tools: read_file, write_file, list_dir, run_tests"
    );
}

#[test]
fn later_argument_replaces_earlier() {
    let a = args(&[("path", text("a.py")), ("path", text("b.py"))]);
    assert_eq!(text_arg(&a, "path"), Some("b.py".to_string()));
    let b = args(&[("path", text("a.py")), ("path", ArgValue::Other("null".to_string()))]);
    assert_eq!(text_arg(&b, "path"), None);
}

#[test]
fn read_file_shows_header_and_content() {
    let r = read_file_output("solution.py", Ok("def add(a, b):\n    return a - b\n".to_string()));
    assert_eq!(r.unwrap(), "=== solution.py ===\ndef add(a, b):\n    return a - b\n");
}

#[test]
fn read_file_failure() {
    let r = read_file_output("nope.py", Err("No such file or directory (os error 2)".to_string()));
    assert_eq!(r.unwrap_err().message(), "Cannot Read nope.py: No such file or directory (os error 2)");
}

#[test]
fn write_file_counts_bytes() {
    assert_eq!(write_file_output("a.py", "x = 1\n", Ok(())).unwrap(), "Written 6 bytes to a.py");
    assert_eq!(write_file_output("b.txt", "é€", Ok(())).unwrap(), "Written 5 bytes to b.txt");
    assert_eq!(write_file_output("c", "", Ok(())).unwrap(), "Written 0 bytes to c");
}

#[test]
fn write_file_failure() {
    let r = write_file_output("a.py", "x", Err("Permission denied (os error 13)".to_string()));
    assert_eq!(r.unwrap_err().message(), "Permission denied (os error 13)");
}

#[test]
fn list_dir_sorts_lines() {
    let entries = vec![
        DirEntryInfo { name: "solution.py".to_string(), is_dir: false },
        DirEntryInfo { name: "tests".to_string(), is_dir: true },
        DirEntryInfo { name: "README.md".to_string(), is_dir: false },
    ];
    assert_eq!(list_dir_output(Ok(entries)).unwrap(), "[dir] tests\n[file] README.md\n[file] solution.py");
}

#[test]
fn list_dir_empty_and_failure() {
    assert_eq!(list_dir_output(Ok(Vec::new())).unwrap(), "");
    assert_eq!(list_dir_output(Err("Not a directory (os error 20)".to_string())).unwrap_err().message(), "Not a directory (os error 20)");
}

#[test]
fn run_tests_joins_and_cuts_output() {
    assert_eq!(run_tests_output(Ok(("out\n".to_string(), "err\n".to_string()))).unwrap(), "out\nerr\n");
    let long = "ab".repeat(2000);
    let r = run_tests_output(Ok((long.clone(), "tail".to_string()))).unwrap();
    assert_eq!(r.chars().count(), 3000);
    assert_eq!(r, long[..3000]);
}

#[test]
fn run_tests_cuts_by_chars_not_bytes() {
    let r = run_tests_output(Ok(("é".repeat(3001), String::new()))).unwrap();
    assert_eq!(r, "é".repeat(3000));
}

#[test]
fn run_tests_unavailable() {
    let r = run_tests_output(Err("No such file or directory (os error 2)".to_string()));
    assert_eq!(r.unwrap_err().message(), "Failed to run pytest: No such file or directory (os error 2). Is pytest installed?");
}

#[test]
fn dispatch_records_success() {
    let mut s = state();
    let a = args(&[("path", text("a.py"))]);
    let long = "x".repeat(200);
    let r = dispatch(&mut s, "read_file", &a, Ok(long.clone()));
    assert_eq!(r.unwrap(), long);
    assert_eq!(s.action_history.len(), 1);
    let rec = &s.action_history[0];
    assert_eq!(rec.step, 3);
    assert_eq!(rec.tool, "read_file");
    assert_eq!(rec.result_summary, "x".repeat(120));
    assert_eq!(text_arg(&rec.args, "path"), Some("a.py".to_string()));
}

#[test]
fn dispatch_keeps_failure_out_of_history() {
    let mut s = state();
    let r = dispatch(&mut s, "read_file", &args(&[]), Err(ToolError::MissingPath));
    assert_eq!(r.unwrap_err().message(), "path is required as an arg");
    assert!(s.action_history.is_empty());
    assert_eq!(s.steps, 3);
}

#[test]
fn target_of_file_tools() {
    let call = plan_tool("read_file", &args(&[("path", text("a.py"))])).unwrap();
    assert_eq!(tool_target("/tmp/ws", &call), Some("/tmp/ws/a.py".to_string()));
    let call = plan_tool("run_tests", &args(&[])).unwrap();
    assert_eq!(tool_target("/tmp/ws", &call), None);
}

#[test]
fn authorize_lets_inside_write_through() {
    let call = plan_tool("write_file", &args(&[("path", text("src/new.py")), ("content", text("x"))])).unwrap();
    let probe = TargetProbe { existing: 3, canonical: Ok("/tmp/ws".to_string()) };
    let a = authorize("/tmp/ws", call, &Ok("/tmp/ws".to_string()), &probe).unwrap();
    assert!(matches!(a.op(), FileOp::Write));
    assert_eq!(a.full_path(), "/tmp/ws/src/new.py");
    assert_eq!(a.shown_path(), "src/new.py");
    assert_eq!(a.content(), "x");
}

#[test]
fn authorize_refuses_escape() {
    let call = plan_tool("write_file", &args(&[("path", text("nope/../../../etc/passwd")), ("content", text("x"))])).unwrap();
    let probe = TargetProbe { existing: 3, canonical: Ok("/tmp/ws".to_string()) };
    let e = authorize("/tmp/ws", call, &Ok("/tmp/ws".to_string()), &probe).unwrap_err();
    assert_eq!(e.message(), "Path escape attempt: '/tmp/ws/nope/../../../etc/passwd' is outside the workspace");
}
