use mini_env::errors::ToolError;
use mini_env::order::{lex_le_exec, sort_lines};
use mini_env::text::{join_strings, prefix_chars, push_decimal, starts_with_str};

fn chars(s: &str) -> Vec<char> {
    s.chars().collect()
}

#[test]
fn sort_lines_orders_like_strings() {
    let input = vec!["b", "a", "ab", "", "B", "é", "a"];
    let sorted = sort_lines(input.iter().map(|s| chars(s)).collect());
    let got: Vec<String> = sorted.iter().map(|v| v.iter().collect()).collect();
    let mut expected: Vec<String> = input.iter().map(|s| s.to_string()).collect();
    expected.sort();
    assert_eq!(got, expected);
}

#[test]
fn lex_order_basics() {
    assert!(lex_le_exec(&chars("a"), &chars("ab")));
    assert!(!lex_le_exec(&chars("ab"), &chars("a")));
    assert!(lex_le_exec(&chars("abc"), &chars("abc")));
    assert!(lex_le_exec(&chars("Z"), &chars("a")));
}

#[test]
fn decimal_rendering() {
    let mut s = String::from("n=");
    push_decimal(&mut s, 0);
    push_decimal(&mut s, 18446744073709551615);
    assert_eq!(s, "n=018446744073709551615");
}

#[test]
fn joining_and_prefixes() {
    let v = vec!["a".to_string(), "b".to_string(), "c".to_string()];
    assert_eq!(join_strings(&v, ", "), "a, b, c");
    assert_eq!(join_strings(&Vec::new(), ", "), "");
    assert_eq!(prefix_chars("hello", 3), "hel");
    assert_eq!(prefix_chars("hi", 3), "hi");
    assert!(starts_with_str("Tool Error: x", "Tool Error"));
    assert!(!starts_with_str("Tool", "Tool Error"));
}

#[test]
fn tool_error_messages() {
    assert_eq!(ToolError::NoParent.message(), "No parent directory");
    assert_eq!(ToolError::WorkspaceUnresolved("e".to_string()).message(), "Cannot canonicalize workspace: e");
    assert_eq!(ToolError::TargetUnresolved("e".to_string()).message(), "Cannot canonicalize target: e");
    assert_eq!(ToolError::PathEscape("/x".to_string()).message(), "Path escape attempt: '/x' is outside the workspace");
    assert_eq!(ToolError::MissingContent.message(), "content is required as an arg");
}
