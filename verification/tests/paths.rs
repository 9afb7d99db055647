use mini_env::errors::ToolError;
use mini_env::paths::{guard_path, list_workspace_files, TargetProbe};
use mini_env::tools::join_path;

fn ws() -> Result<String, String> {
    Ok("/tmp/ws".to_string())
}

fn count(target: &str) -> usize {
    std::path::Path::new(target).components().count()
}

/// The whole target exists and resolves to `canonical`.
fn existing(target: &str, canonical: &str) -> TargetProbe {
    TargetProbe { existing: count(target), canonical: Ok(canonical.to_string()) }
}

/// The first `k` components of the target exist and resolve to `canonical`.
fn partly(k: usize, canonical: &str) -> TargetProbe {
    TargetProbe { existing: k, canonical: Ok(canonical.to_string()) }
}

fn message(r: Result<(), ToolError>) -> String {
    r.unwrap_err().message()
}

#[test]
fn guard_admits_existing_file_inside() {
    let t = "/tmp/ws/solution.py";
    assert!(guard_path(&ws(), t, &existing(t, "/tmp/ws/solution.py")).is_ok());
}

#[test]
fn guard_admits_the_workspace_itself() {
    let t = "/tmp/ws/.";
    assert!(guard_path(&ws(), t, &existing(t, "/tmp/ws")).is_ok());
}

#[test]
fn guard_refuses_dotdot_escape() {
    let t = "/tmp/ws/../../etc/passwd";
    let r = guard_path(&ws(), t, &existing(t, "/etc/passwd"));
    assert_eq!(message(r), "Path escape attempt: '/tmp/ws/../../etc/passwd' is outside the workspace");
}

#[test]
fn guard_compares_components_not_text() {
    let t = "/tmp/wsx/a.py";
    let r = guard_path(&ws(), t, &existing(t, "/tmp/wsx/a.py"));
    assert_eq!(message(r), "Path escape attempt: '/tmp/wsx/a.py' is outside the workspace");
}

#[test]
fn guard_new_file_in_existing_dir() {
    assert!(guard_path(&ws(), "/tmp/ws/src/new.py", &partly(4, "/tmp/ws/src")).is_ok());
}

#[test]
fn guard_new_file_in_missing_dirs() {
    assert!(guard_path(&ws(), "/tmp/ws/a/b/new.py", &partly(3, "/tmp/ws")).is_ok());
}

#[test]
fn guard_refuses_climb_through_missing_dir() {
    let t = "/tmp/ws/nope/../../../etc/passwd";
    let r = guard_path(&ws(), t, &partly(3, "/tmp/ws"));
    assert_eq!(message(r), "Path escape attempt: '/tmp/ws/nope/../../../etc/passwd' is outside the workspace");
}

#[test]
fn guard_admits_dotdot_back_inside() {
    assert!(guard_path(&ws(), "/tmp/ws/nope/./../x.py", &partly(3, "/tmp/ws")).is_ok());
}

#[test]
fn guard_refuses_dotdot_to_the_root() {
    let r = guard_path(&ws(), "/tmp/ws/n/../../../../..", &partly(3, "/tmp/ws"));
    assert_eq!(message(r), "Path escape attempt: '/tmp/ws/n/../../../../..' is outside the workspace");
}

#[test]
fn guard_follows_the_existing_part_through_links() {
    let r = guard_path(&ws(), "/tmp/ws/link/new.py", &partly(4, "/etc"));
    assert_eq!(message(r), "Path escape attempt: '/tmp/ws/link/new.py' is outside the workspace");
}

#[test]
fn guard_missing_target_with_parent_outside() {
    let r = guard_path(&ws(), "/tmp/ws/sub/..", &partly(4, "/tmp/ws/sub"));
    assert!(r.is_ok());
    let r = guard_path(&ws(), "/tmp/ws/sub/../..", &partly(3, "/tmp/ws"));
    assert_eq!(message(r), "Path escape attempt: '/tmp/ws/sub/../..' is outside the workspace");
}

#[test]
fn guard_reports_unresolved_workspace() {
    let r = guard_path(&Err("gone".to_string()), "/tmp/ws/a", &existing("/tmp/ws/a", "/tmp/ws/a"));
    assert_eq!(message(r), "Cannot canonicalize workspace: gone");
}

#[test]
fn guard_reports_unresolved_target() {
    let probe = TargetProbe { existing: 4, canonical: Err("loop".to_string()) };
    assert_eq!(message(guard_path(&ws(), "/tmp/ws/a", &probe)), "Cannot canonicalize target: loop");
}

#[test]
fn guard_reports_nothing_existing() {
    let probe = TargetProbe { existing: 0, canonical: Err(String::new()) };
    assert_eq!(message(guard_path(&ws(), "rel/a", &probe)), "No parent directory");
}

#[test]
fn guard_reports_unresolved_ancestor() {
    let probe = TargetProbe { existing: 3, canonical: Err("denied".to_string()) };
    assert_eq!(message(guard_path(&ws(), "/tmp/ws/d/f", &probe)), "denied");
}

#[test]
fn listing_is_relative_to_the_root() {
    let found = vec![
        "/tmp/ws/solution.py".to_string(),
        "/tmp/ws/tests/test_solution.py".to_string(),
        "/elsewhere/b.py".to_string(),
    ];
    assert_eq!(
        list_workspace_files("/tmp/ws", &found),
        vec!["solution.py".to_string(), "tests/test_solution.py".to_string()]
    );
}

#[test]
fn listing_keeps_inner_text() {
    let found = vec!["/tmp/ws//a/./b.py".to_string()];
    assert_eq!(list_workspace_files("/tmp/ws/", &found), vec!["a/./b.py".to_string()]);
}

#[test]
fn listing_agrees_with_std_strip_prefix() {
    let roots = ["/tmp/ws", "/tmp/ws/", "/tmp/./ws", "", ".", "./", "/", "tmp", "a/..", "//"];
    let paths = [
        "/tmp/ws/a.py", "/tmp/ws", "/tmp/ws/", "/tmp/ws/./", "/tmp/ws//x//y/.//", "/tmp/wsx/a",
        "./a/b/", ".", "./", "/", "//a//", "a/./", "", "tmp/ws/q", "a/../b", "./.", "/tmp/ws/../z",
    ];
    for root in roots {
        let files: Vec<String> = paths.iter().map(|p| p.to_string()).collect();
        let expected: Vec<String> = paths
            .iter()
            .filter_map(|p| std::path::Path::new(p).strip_prefix(root).ok())
            .map(|r| r.to_string_lossy().to_string())
            .collect();
        assert_eq!(list_workspace_files(root, &files), expected, "root {:?}", root);
    }
}

#[test]
fn listing_of_nothing() {
    assert!(list_workspace_files("/tmp/ws", &Vec::new()).is_empty());
}

#[test]
fn join_relative_path() {
    assert_eq!(join_path("/tmp/ws", "a.py"), "/tmp/ws/a.py");
    assert_eq!(join_path("/tmp/ws/", "a.py"), "/tmp/ws/a.py");
    assert_eq!(join_path("", "a.py"), "a.py");
    assert_eq!(join_path("/tmp/ws", ""), "/tmp/ws/");
}

#[test]
fn join_absolute_path_replaces() {
    assert_eq!(join_path("/tmp/ws", "/etc/passwd"), "/etc/passwd");
}

#[test]
fn join_agrees_with_std() {
    for (b, p) in [("/tmp/ws", "x/y"), ("tasks", "buggy"), ("/", "a"), ("a/", "/b"), ("/tmp", "..")] {
        let expected = std::path::Path::new(b).join(p).to_string_lossy().to_string();
        assert_eq!(join_path(b, p), expected);
    }
}
