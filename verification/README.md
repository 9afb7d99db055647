# mini_env

A small environment server for agents that fix code. An agent starts an
episode (`/reset`), which copies a task into a workspace of its own; calls
tools on it (`/step`: `read_file`, `write_file`, `list_dir`, `run_tests`),
at most thirty times; and asks for a grade (`/verifiy`), which a separate
grader process computes from the tests that pass, zeroed when the test files
were tampered with.

## Layout

- `src/`: the library, verified with Verus.
  - `text.rs`: sequences of chars: trimming, splitting, searching, joining,
    decimal numbers.
  - `summary.rs`: the pass/fail counts in pytest's output.
  - `hashing.rs`: djb2 fingerprints of test files and the integrity check.
  - `paths.rs`: Unix path components, the guard that keeps tool access
    inside the workspace, paths relative to the workspace.
  - `order.rs`: the order in which `list_dir` shows entries.
  - `errors.rs`: tool failures and their texts.
  - `types.rs`: requests, responses, tool arguments, episode state.
  - `tools.rs`: planning a tool call, the text of its outcome, the history.
  - `episode.rs`: starting an episode, the observation, counting steps.
- `app/`: the program: the HTTP server, the file system and processes, the
  grader's floating-point scores.
- `tests/`: tests of the library.
