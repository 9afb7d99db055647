use mini_env::episode::{
    begin_step, build_observation, create_episode, episode_with_id, finish_step, reset_response, MAX_STEPS,
};
use mini_env::errors::ToolError;
use mini_env::tools::dispatch;
use mini_env::types::{ErrorResponse, ResetRequest, ToolArgs};

fn fresh() -> mini_env::types::EpisodeState {
    create_episode("buggy", true).unwrap()
}

#[test]
fn episode_starts_fresh() {
    let s = fresh();
    assert_eq!(s.task_name, "buggy");
    assert_eq!(s.steps, 0);
    assert!(!s.done);
    assert!(s.action_history.is_empty());
    assert!(s.started_at.is_some());
    assert_eq!(s.workspace, format!("/tmp/mini-env-{}", s.episode_id));
}

#[test]
fn episode_id_is_a_v4_uuid() {
    let s = fresh();
    let id: Vec<char> = s.episode_id.chars().collect();
    assert_eq!(id.len(), 36);
    for (i, c) in id.iter().enumerate() {
        if [8, 13, 18, 23].contains(&i) {
            assert_eq!(*c, '-');
        } else {
            assert!(c.is_ascii_hexdigit() && !c.is_ascii_uppercase());
        }
    }
    assert_eq!(id[14], '4');
    assert!("89ab".contains(id[19]));
}

#[test]
fn episodes_get_distinct_ids_and_workspaces() {
    let a = fresh();
    let b = fresh();
    assert_ne!(a.episode_id, b.episode_id);
    assert_ne!(a.workspace, b.workspace);
}

#[test]
fn unknown_task_is_refused() {
    let e = create_episode("nope", false).unwrap_err();
    assert_eq!(e.response().error, "Task 'nope' not found in tasks/");
}

#[test]
fn reset_defaults_to_buggy() {
    assert_eq!(ResetRequest { task: None }.task_name(), "buggy");
    assert_eq!(ResetRequest { task: Some("other".to_string()) }.task_name(), "other");
}

#[test]
fn observation_text_is_exact() {
    let mut s = fresh();
    s.workspace = "/tmp/ws".to_string();
    let found = vec!["/tmp/ws/solution.py".to_string(), "/tmp/ws/tests/test_solution.py".to_string()];
    assert_eq!(
        build_observation(&s, &found),
        "Task: Fix the bugs in the codebase so all tes pass. \nWorkspace files: solution.py, tests/test_solution.py\nSteps taken: 0\navailable tools: read_file, write_file, list_dir, run_tests\nTip: Start with run_tests to see what's failing."
    );
}

#[test]
fn observation_counts_steps() {
    let mut s = fresh();
    s.steps = 17;
    let obs = build_observation(&s, &Vec::new());
    assert!(obs.contains("Workspace files: \nSteps taken: 17\n"));
}

#[test]
fn reset_response_fields() {
    let s = fresh();
    let r = reset_response(&s, "obs".to_string());
    assert_eq!(r.episode_id, s.episode_id);
    assert_eq!(r.observation, "obs");
    assert_eq!(r.task_description, "Fix the bug in solution.py so all tests pass.");
}

#[test]
fn episode_is_done_after_thirty_steps() {
    let mut s = fresh();
    for k in 1..=MAX_STEPS {
        let step = begin_step(&mut s).unwrap();
        assert_eq!(step, k);
        let r = dispatch(&mut s, "run_tests", &ToolArgs { entries: Vec::new() }, Ok("1 passed".to_string()));
        let out = finish_step(&mut s, step, "run_tests", r);
        assert_eq!(out.done, k == 30);
        assert_eq!(out.info.step, k);
        assert!(out.info.success);
    }
    assert!(s.done);
    assert_eq!(s.steps, 30);
    assert_eq!(s.action_history.len(), 30);
    for (i, rec) in s.action_history.iter().enumerate() {
        assert_eq!(rec.step as usize, i + 1);
    }
    let refused = begin_step(&mut s).unwrap_err();
    assert_eq!(refused.error, "Episode already done");
    assert_eq!(s.steps, 30);
}

#[test]
fn failed_tool_call_is_reported() {
    let mut s = fresh();
    let step = begin_step(&mut s).unwrap();
    let r = dispatch(&mut s, "rm", &ToolArgs { entries: Vec::new() }, Err(ToolError::UnknownTool("rm".to_string())));
    let out = finish_step(&mut s, step, "rm", r);
    assert_eq!(out.observation, "Tool Error: unknown tool: rm. Availabe tools: read_file, write_file, list_dir, run_tests");
    assert!(!out.info.success);
    assert!(!out.done);
    assert_eq!(out.info.tool_used, "rm");
    assert!(s.action_history.is_empty());
    assert_eq!(s.steps, 1);
}

#[test]
fn success_flag_follows_the_text() {
    let mut s = fresh();
    let out = finish_step(&mut s, 1, "read_file", Ok("Tool Errors are fine here".to_string()));
    assert!(!out.info.success);
    let out = finish_step(&mut s, 2, "read_file", Ok("=== a ===\n".to_string()));
    assert!(out.info.success);
}

#[test]
fn error_responses_are_exact() {
    assert_eq!(ErrorResponse::episode_not_found("x1").error, "Episode x1 not found");
    assert_eq!(ErrorResponse::unknown_episode("x1").error, "Episode 'x1' not found");
    assert_eq!(
        ErrorResponse::verifier_failed("No such file").error,
        "Verifier failed to run: No such file. Did you build it? cargo build --bin verifier"
    );
    assert_eq!(
        ErrorResponse::verifier_output_unreadable("EOF", "").error,
        "Verifier output parse error: EOF. Output was: "
    );
}

#[test]
fn workspaces_are_not_nested() {
    let a = fresh();
    let b = fresh();
    assert!(!b.workspace.starts_with(&format!("{}/", a.workspace)));
    assert!(!a.workspace.starts_with(&format!("{}/", b.workspace)));
}

#[test]
fn episode_under_a_given_id() {
    let s = episode_with_id("buggy", true, "abc".to_string(), std::time::Instant::now()).unwrap();
    assert_eq!(s.episode_id, "abc");
    assert_eq!(s.workspace, "/tmp/mini-env-abc");
    assert_eq!(s.task_name, "buggy");
    assert_eq!(s.steps, 0);
    assert!(!s.done && s.action_history.is_empty() && s.started_at.is_some());
    let e = episode_with_id("x", false, "abc".to_string(), std::time::Instant::now()).unwrap_err();
    assert_eq!(e.response().error, "Task 'x' not found in tasks/");
}
