use mini_env::hashing::{check_test_integrity, djb2, hash_files, FileHashes};
use mini_env::summary::{checked_pytest_summary, parse_pytest_summary};

fn files(list: &[(&str, &[u8])]) -> FileHashes {
    let v: Vec<(String, Vec<u8>)> = list.iter().map(|(n, c)| (n.to_string(), c.to_vec())).collect();
    hash_files(&v)
}

#[test]
fn djb2_of_nothing_is_the_seed() {
    assert_eq!(djb2(b""), 5381);
}

#[test]
fn djb2_known_values() {
    assert_eq!(djb2(b"a"), 177670);
    assert_eq!(djb2(b"hello"), 210714636441);
    assert_eq!(djb2(b"def test_a():\n    assert True\n"), 13027863813264420773);
}

#[test]
fn djb2_wraps_on_long_input() {
    let data: Vec<u8> = (0..10).flat_map(|_| 0u8..=255).collect();
    assert_eq!(djb2(&data), 740892867127611397);
}

#[test]
fn djb2_is_order_sensitive() {
    assert_ne!(djb2(b"ab"), djb2(b"ba"));
}

#[test]
fn summary_all_passed() {
    assert_eq!(parse_pytest_summary("4 passed in 0.01s"), (4, 4));
}

#[test]
fn summary_passed_and_failed() {
    assert_eq!(parse_pytest_summary("3 passed, 1 failed in 0.01s"), (3, 4));
}

#[test]
fn summary_errors_count_as_failures() {
    assert_eq!(parse_pytest_summary("1 failed, 2 passed, 1 error in 0.50s"), (2, 4));
}

#[test]
fn summary_of_full_quiet_output() {
    let out = "..F.\n=========================== short test summary info ============================\nFAILED tests/test_solution.py::test_add - assert 1 == 2\n1 failed, 3 passed in 0.03s\n";
    assert_eq!(parse_pytest_summary(out), (3, 4));
}

#[test]
fn summary_without_counts_is_zero() {
    assert_eq!(parse_pytest_summary(""), (0, 0));
    assert_eq!(parse_pytest_summary("no tests ran in 0.01s"), (0, 0));
}

#[test]
fn summary_last_passed_count_wins() {
    assert_eq!(parse_pytest_summary("2 passed\n5 passed in 1.00s"), (5, 5));
}

#[test]
fn summary_with_crlf_lines() {
    assert_eq!(parse_pytest_summary("x\r\n  2 failed, 7 passed in 2.1s\r\n"), (7, 9));
}

#[test]
fn summary_overflow_is_reported() {
    assert_eq!(checked_pytest_summary("4294967295 passed, 1 failed"), None);
    assert_eq!(checked_pytest_summary("4294967295 passed"), Some((4294967295, 4294967295)));
}

#[test]
fn integrity_holds_for_untouched_tests() {
    let orig = files(&[("test_a.py", b"assert 1"), ("test_b.py", b"assert 2")]);
    let cur = files(&[("test_b.py", b"assert 2"), ("test_a.py", b"assert 1")]);
    assert!(check_test_integrity(&orig, &cur));
}

#[test]
fn integrity_ignores_extra_files() {
    let orig = files(&[("test_a.py", b"assert 1")]);
    let cur = files(&[("test_a.py", b"assert 1"), ("test_new.py", b"assert True")]);
    assert!(check_test_integrity(&orig, &cur));
}

#[test]
fn integrity_detects_modified_test() {
    let orig = files(&[("test_a.py", b"assert 1")]);
    let cur = files(&[("test_a.py", b"assert True")]);
    assert!(!check_test_integrity(&orig, &cur));
}

#[test]
fn integrity_detects_deleted_test() {
    let orig = files(&[("test_a.py", b"assert 1"), ("test_b.py", b"assert 2")]);
    let cur = files(&[("test_a.py", b"assert 1")]);
    assert!(!check_test_integrity(&orig, &cur));
}

#[test]
fn integrity_of_no_originals() {
    let orig = files(&[]);
    let cur = files(&[]);
    assert!(check_test_integrity(&orig, &cur));
}

#[test]
fn file_hashes_later_file_replaces_earlier() {
    let h = files(&[("t.py", b"a"), ("t.py", b"hello")]);
    assert_eq!(h.get(&"t.py".to_string()), Some(210714636441));
    assert_eq!(h.get(&"u.py".to_string()), None);
}

#[test]
fn file_hashes_insert_and_get() {
    let mut h = FileHashes::new();
    h.insert("a".to_string(), 1);
    h.insert("b".to_string(), 2);
    h.insert("a".to_string(), 3);
    assert_eq!(h.get(&"a".to_string()), Some(3));
    assert_eq!(h.get(&"b".to_string()), Some(2));
}

#[test]
fn djb2_continues_byte_by_byte() {
    let h = djb2(b"hell");
    assert_eq!(djb2(b"hello"), h.wrapping_mul(33).wrapping_add(b'o' as u64));
}

#[test]
fn summary_ignores_lines_without_results() {
    let a = "..F.";
    let b = "1 failed, 3 passed in 0.03s";
    let with = format!("{}\nsome other line\n{}", a, b);
    let without = format!("{}\n{}", a, b);
    assert_eq!(parse_pytest_summary(&with), parse_pytest_summary(&without));
    assert_eq!(parse_pytest_summary(&with), (3, 4));
}

#[test]
fn summary_banner_all_passed() {
    assert_eq!(parse_pytest_summary("==== 4 passed in 0.01s ===="), (4, 4));
}

#[test]
fn summary_banner_passed_and_failed() {
    assert_eq!(parse_pytest_summary("========= 1 failed, 3 passed in 0.03s ========="), (3, 4));
    assert_eq!(parse_pytest_summary("=== 2 passed, 1 error in 1.20s ==="), (2, 3));
}

#[test]
fn summary_of_verbose_quiet_run() {
    let out = "============================= test session starts ==============================\n\
platform linux -- Python 3.11.4, pytest-7.4.0, pluggy-1.2.0\n\
rootdir: /tmp/mini-env-x\n\
collected 4 items\n\
\n\
tests/test_solution.py ..F.                                              [100%]\n\
\n\
========================= 1 failed, 3 passed in 0.03s ==========================\n";
    assert_eq!(parse_pytest_summary(out), (3, 4));
}

#[test]
fn summary_banner_without_results() {
    assert_eq!(parse_pytest_summary("==== no tests ran in 0.01s ===="), (0, 0));
    assert_eq!(parse_pytest_summary("=== short test summary info ==="), (0, 0));
}
