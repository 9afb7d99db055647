//! A small environment server for agents that fix code: episodes in isolated
//! workspaces, a handful of file tools guarded against path escapes, and a
//! grader that counts passing tests and detects tampering with the test files.
//!
//! This crate holds the logic; the binary around it (HTTP, file system,
//! processes) lives in `app/`.
pub mod text;
pub mod summary;
pub mod hashing;
pub mod errors;
pub mod paths;
pub mod order;
pub mod types;
pub mod tools;
pub mod episode;
