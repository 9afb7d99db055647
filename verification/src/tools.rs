//! The four tools an agent can call, and the record an episode keeps of
//! them.
//!
//! A call is first planned from the tool's name and arguments
//! ([`plan_tool`]). A file tool's target is then judged by the path guard
//! ([`authorize`]), which alone hands out the [`FileAccess`] that the file
//! work needs; that work happens outside this crate, and what came of it
//! is turned into the text the agent sees by the `*_output` functions.
//! [`dispatch`] then records a successful call in the episode's history.
use vstd::prelude::*;
use crate::errors::{ToolError, ToolErrorView};
use crate::paths::{guard_outcome, guard_path, TargetProbe};
use crate::order::{lemma_lex_total_ordering, lex_order, sort_lines};
use vstd::relations::sorted_by;
use crate::text::{
    chars_of, extend_chars, join_chars, join_with, prefix_chars, prefix_of_len, push_decimal,
    decimal, str_eq, string_of, views,
};
use crate::types::{
    ActionRecord, ActionRecordView, ArgValue, ArgValueView, EpisodeState, EpisodeView, ToolArgs,
};

verus! {

/// `PathBuf::join` on Unix: an absolute `p` replaces `base`; otherwise `p`
/// follows `base`, after a `/` unless `base` is empty or ends in one.
pub open spec fn joined_path(base: Seq<char>, p: Seq<char>) -> Seq<char> {
    if p.len() > 0 && p[0] == '/' {
        p
    } else if base.len() == 0 || base.last() == '/' {
        base + p
    } else {
        base + seq!['/'] + p
    }
}

/// `base` joined with `p` as a path.
pub fn join_path(base: &str, p: &str) -> (r: String)
    ensures
        r@ == joined_path(base@, p@),
{
    let b = chars_of(base);
    let q = chars_of(p);
    if q.len() > 0 && q[0] == '/' {
        return string_of(&q);
    }
    let mut r = b.clone();
    if b.len() > 0 && b[b.len() - 1] != '/' {
        r.push('/');
    }
    extend_chars(&mut r, &q);
    string_of(&r)
}

/// The text of the argument `name`, when it is present and a JSON string.
pub open spec fn arg_text(args: Map<Seq<char>, ArgValueView>, name: Seq<char>) -> Option<Seq<char>> {
    if args.contains_key(name) {
        match args[name] {
            ArgValueView::Text(t) => Some(t),
            ArgValueView::Other(_) => None,
        }
    } else {
        None
    }
}

/// The text of the argument `name`, when it is present and a JSON string.
pub fn text_arg(args: &ToolArgs, name: &str) -> (r: Option<String>)
    ensures
        match r {
            Some(t) => arg_text(args@, name@) == Some(t@),
            None => arg_text(args@, name@) is None,
        },
{
    match args.get(name) {
        Some(ArgValue::Text(t)) => Some(t.clone()),
        _ => None,
    }
}

/// A planned tool call.
#[derive(Debug)]
pub enum ToolCall {
    /// Read the file at `path`, relative to the workspace.
    ReadFile { path: String },
    /// Write `content` to the file at `path`.
    WriteFile { path: String, content: String },
    /// List the directory at `path`.
    ListDir { path: String },
    /// Run the workspace's tests.
    RunTests,
}

/// A [`ToolCall`] with its texts as sequences of chars.
pub enum ToolCallView {
    ReadFile { path: Seq<char> },
    WriteFile { path: Seq<char>, content: Seq<char> },
    ListDir { path: Seq<char> },
    RunTests,
}

impl View for ToolCall {
    type V = ToolCallView;

    open spec fn view(&self) -> ToolCallView {
        match self {
            ToolCall::ReadFile { path } => ToolCallView::ReadFile { path: path@ },
            ToolCall::WriteFile { path, content } => ToolCallView::WriteFile {
                path: path@,
                content: content@,
            },
            ToolCall::ListDir { path } => ToolCallView::ListDir { path: path@ },
            ToolCall::RunTests => ToolCallView::RunTests,
        }
    }
}

/// The call that `tool` with `args` asks for: its `path` argument for the
/// file tools (and then `content` for `write_file`), nothing for
/// `run_tests`; a missing argument or an unknown tool is an error.
pub open spec fn planned_call(tool: Seq<char>, args: Map<Seq<char>, ArgValueView>) -> Result<
    ToolCallView,
    ToolErrorView,
> {
    let path = arg_text(args, "path"@);
    if tool == "read_file"@ {
        match path {
            Some(p) => Ok(ToolCallView::ReadFile { path: p }),
            None => Err(ToolErrorView::MissingPath),
        }
    } else if tool == "write_file"@ {
        match path {
            None => Err(ToolErrorView::MissingPath),
            Some(p) => match arg_text(args, "content"@) {
                Some(c) => Ok(ToolCallView::WriteFile { path: p, content: c }),
                None => Err(ToolErrorView::MissingContent),
            },
        }
    } else if tool == "list_dir"@ {
        match path {
            Some(p) => Ok(ToolCallView::ListDir { path: p }),
            None => Err(ToolErrorView::MissingPath),
        }
    } else if tool == "run_tests"@ {
        Ok(ToolCallView::RunTests)
    } else {
        Err(ToolErrorView::UnknownTool(tool))
    }
}

/// Law: each tool takes its arguments by name: `read_file` and `list_dir`
/// work on the text of the `path` argument, `write_file` writes the text of
/// `content` to that of `path`, and `run_tests` needs none; a tool whose
/// `path` (or, for `write_file`, `content`) is missing or not a string is
/// refused for it, and any other tool name is refused as unknown.
pub proof fn lemma_plan_by_name(tool: Seq<char>, args: Map<Seq<char>, ArgValueView>)
    ensures
        tool == "read_file"@ && args.contains_key("path"@) && args["path"@] is Text ==> planned_call(
            tool,
            args,
        ) == Ok::<ToolCallView, ToolErrorView>(
            ToolCallView::ReadFile { path: args["path"@]->Text_0 },
        ),
        tool == "list_dir"@ && args.contains_key("path"@) && args["path"@] is Text ==> planned_call(
            tool,
            args,
        ) == Ok::<ToolCallView, ToolErrorView>(
            ToolCallView::ListDir { path: args["path"@]->Text_0 },
        ),
        tool == "write_file"@ && args.contains_key("path"@) && args["path"@] is Text
            && args.contains_key("content"@) && args["content"@] is Text ==> planned_call(
            tool,
            args,
        ) == Ok::<ToolCallView, ToolErrorView>(
            ToolCallView::WriteFile {
                path: args["path"@]->Text_0,
                content: args["content"@]->Text_0,
            },
        ),
        (tool == "read_file"@ || tool == "list_dir"@ || tool == "write_file"@) && !(args.contains_key(
            "path"@,
        ) && args["path"@] is Text) ==> planned_call(tool, args) == Err::<
            ToolCallView,
            ToolErrorView,
        >(ToolErrorView::MissingPath),
        tool == "write_file"@ && args.contains_key("path"@) && args["path"@] is Text
            && !(args.contains_key("content"@) && args["content"@] is Text) ==> planned_call(
            tool,
            args,
        ) == Err::<ToolCallView, ToolErrorView>(ToolErrorView::MissingContent),
        tool == "run_tests"@ ==> planned_call(tool, args) == Ok::<ToolCallView, ToolErrorView>(
            ToolCallView::RunTests,
        ),
        tool != "read_file"@ && tool != "list_dir"@ && tool != "write_file"@ && tool
            != "run_tests"@ ==> planned_call(tool, args) == Err::<ToolCallView, ToolErrorView>(
            ToolErrorView::UnknownTool(tool),
        ),
{
    reveal_strlit("read_file");
    reveal_strlit("write_file");
    reveal_strlit("list_dir");
    reveal_strlit("run_tests");
    assert("read_file"@ != "list_dir"@) by {
        assert("read_file"@[0] != "list_dir"@[0]);
    }
    assert("read_file"@ != "write_file"@) by {
        assert("read_file"@[0] != "write_file"@[0]);
    }
    assert("read_file"@ != "run_tests"@) by {
        assert("read_file"@[1] != "run_tests"@[1]);
    }
    assert("list_dir"@ != "write_file"@) by {
        assert("list_dir"@[0] != "write_file"@[0]);
    }
    assert("list_dir"@ != "run_tests"@) by {
        assert("list_dir"@[0] != "run_tests"@[0]);
    }
    assert("write_file"@ != "run_tests"@) by {
        assert("write_file"@[0] != "run_tests"@[0]);
    }
}

/// Plans the call that `tool` with `args` asks for.
pub fn plan_tool(tool: &str, args: &ToolArgs) -> (r: Result<ToolCall, ToolError>)
    ensures
        match r {
            Ok(c) => planned_call(tool@, args@) == Ok::<ToolCallView, ToolErrorView>(c@),
            Err(e) => planned_call(tool@, args@) == Err::<ToolCallView, ToolErrorView>(e@),
        },
{
    if str_eq(tool, "read_file") {
        match text_arg(args, "path") {
            Some(p) => Ok(ToolCall::ReadFile { path: p }),
            None => Err(ToolError::MissingPath),
        }
    } else if str_eq(tool, "write_file") {
        match text_arg(args, "path") {
            None => Err(ToolError::MissingPath),
            Some(p) => match text_arg(args, "content") {
                Some(c) => Ok(ToolCall::WriteFile { path: p, content: c }),
                None => Err(ToolError::MissingContent),
            },
        }
    } else if str_eq(tool, "list_dir") {
        match text_arg(args, "path") {
            Some(p) => Ok(ToolCall::ListDir { path: p }),
            None => Err(ToolError::MissingPath),
        }
    } else if str_eq(tool, "run_tests") {
        Ok(ToolCall::RunTests)
    } else {
        Err(ToolError::UnknownTool(tool.to_string()))
    }
}

/// The path in the workspace `workspace` that a planned call reaches:
/// its `path` joined to the workspace, or none for `run_tests`.
pub open spec fn call_target(workspace: Seq<char>, call: ToolCallView) -> Option<Seq<char>> {
    match call {
        ToolCallView::ReadFile { path } => Some(joined_path(workspace, path)),
        ToolCallView::WriteFile { path, .. } => Some(joined_path(workspace, path)),
        ToolCallView::ListDir { path } => Some(joined_path(workspace, path)),
        ToolCallView::RunTests => None,
    }
}

/// The path in `workspace` that `call` reaches, which the path guard must
/// judge before the call touches the file system.
pub fn tool_target(workspace: &str, call: &ToolCall) -> (r: Option<String>)
    ensures
        match r {
            Some(t) => call_target(workspace@, call@) == Some(t@),
            None => call_target(workspace@, call@) is None,
        },
{
    match call {
        ToolCall::ReadFile { path } => Some(join_path(workspace, path.as_str())),
        ToolCall::WriteFile { path, .. } => Some(join_path(workspace, path.as_str())),
        ToolCall::ListDir { path } => Some(join_path(workspace, path.as_str())),
        ToolCall::RunTests => None,
    }
}

/// A file operation.
#[derive(Debug)]
pub enum FileOp {
    Read,
    Write,
    List,
}

/// A file operation that the path guard let through, with the path it
/// works on, the path as the agent wrote it, and the contents to write.
/// Only [`authorize`] makes one.
#[derive(Debug)]
pub struct FileAccess {
    op: FileOp,
    full_path: String,
    shown_path: String,
    content: String,
}

/// A [`FileAccess`] by its values.
pub struct FileAccessView {
    pub op: FileOp,
    pub full_path: Seq<char>,
    pub shown_path: Seq<char>,
    pub content: Seq<char>,
}

impl View for FileAccess {
    type V = FileAccessView;

    closed spec fn view(&self) -> FileAccessView {
        FileAccessView {
            op: self.op,
            full_path: self.full_path@,
            shown_path: self.shown_path@,
            content: self.content@,
        }
    }
}

impl FileAccess {
    /// The operation.
    pub fn op(&self) -> (r: &FileOp)
        ensures
            *r == self@.op,
    {
        &self.op
    }

    /// The path the operation works on.
    pub fn full_path(&self) -> (r: &str)
        ensures
            r@ == self@.full_path,
    {
        self.full_path.as_str()
    }

    /// The path as the agent wrote it.
    pub fn shown_path(&self) -> (r: &str)
        ensures
            r@ == self@.shown_path,
    {
        self.shown_path.as_str()
    }

    /// The contents to write (empty for the other operations).
    pub fn content(&self) -> (r: &str)
        ensures
            r@ == self@.content,
    {
        self.content.as_str()
    }
}

/// The file access that the file-tool call `call` makes in `workspace`.
pub open spec fn access_of(workspace: Seq<char>, call: ToolCallView) -> FileAccessView {
    match call {
        ToolCallView::ReadFile { path } => FileAccessView {
            op: FileOp::Read,
            full_path: joined_path(workspace, path),
            shown_path: path,
            content: Seq::empty(),
        },
        ToolCallView::WriteFile { path, content } => FileAccessView {
            op: FileOp::Write,
            full_path: joined_path(workspace, path),
            shown_path: path,
            content: content,
        },
        ToolCallView::ListDir { path } => FileAccessView {
            op: FileOp::List,
            full_path: joined_path(workspace, path),
            shown_path: path,
            content: Seq::empty(),
        },
        ToolCallView::RunTests => FileAccessView {
            op: FileOp::List,
            full_path: Seq::empty(),
            shown_path: Seq::empty(),
            content: Seq::empty(),
        },
    }
}

/// The path a file-tool call names, as the agent wrote it.
pub open spec fn requested_path(call: ToolCallView) -> Seq<char> {
    match call {
        ToolCallView::ReadFile { path } => path,
        ToolCallView::WriteFile { path, .. } => path,
        ToolCallView::ListDir { path } => path,
        ToolCallView::RunTests => Seq::empty(),
    }
}

/// Law: the access granted for a file-tool call works on the very path
/// the guard judges for it, and that path is the requested one under the
/// workspace: an absolute request as it stands, a relative one after the
/// workspace and a `/` (when the workspace does not end in one). The
/// operation is the tool's own, the path shown is the one requested, and a
/// write writes the contents requested.
pub proof fn lemma_access_path(workspace: Seq<char>, call: ToolCallView)
    requires
        !(call is RunTests),
    ensures
        call_target(workspace, call) == Some(access_of(workspace, call).full_path),
        access_of(workspace, call).shown_path == requested_path(call),
        requested_path(call).len() > 0 && requested_path(call)[0] == '/' ==> access_of(
            workspace,
            call,
        ).full_path == requested_path(call),
        !(requested_path(call).len() > 0 && requested_path(call)[0] == '/') && workspace.len() > 0
            && workspace.last() != '/' ==> access_of(workspace, call).full_path == workspace
            + seq!['/'] + requested_path(call),
        call is ReadFile ==> access_of(workspace, call).op is Read,
        call is WriteFile ==> access_of(workspace, call).op is Write
            && access_of(workspace, call).content == call->WriteFile_content,
        call is ListDir ==> access_of(workspace, call).op is List,
{
}

/// Lets the file-tool call `call` in `workspace` go ahead when the path
/// guard admits its target, given the canonical workspace and what the
/// file system says about the target; otherwise the guard's error.
pub fn authorize(
    workspace: &str,
    call: ToolCall,
    canonical_workspace: &Result<String, String>,
    probe: &TargetProbe,
) -> (r: Result<FileAccess, ToolError>)
    requires
        !(call is RunTests),
    ensures
        match r {
            Ok(a) => {
                &&& guard_outcome(
                    *canonical_workspace,
                    call_target(workspace@, call@)->Some_0,
                    *probe,
                ) is Ok
                &&& a@ == access_of(workspace@, call@)
                &&& guard_outcome(*canonical_workspace, a@.full_path, *probe) is Ok
            },
            Err(e) => guard_outcome(
                *canonical_workspace,
                call_target(workspace@, call@)->Some_0,
                *probe,
            ) == Err::<(), ToolErrorView>(e@),
        },
{
    let (op, path, content) = match call {
        ToolCall::ReadFile { path } => (FileOp::Read, path, String::new()),
        ToolCall::WriteFile { path, content } => (FileOp::Write, path, content),
        ToolCall::ListDir { path } => (FileOp::List, path, String::new()),
        ToolCall::RunTests => (FileOp::List, String::new(), String::new()),
    };
    let full_path = join_path(workspace, path.as_str());
    guard_path(canonical_workspace, full_path.as_str(), probe)?;
    Ok(FileAccess { op, full_path, shown_path: path, content })
}

/// What `read_file` shows of a file's contents.
pub open spec fn read_file_text(path: Seq<char>, content: Seq<char>) -> Seq<char> {
    "=== "@ + path + " ===\n"@ + content
}

/// The outcome of `read_file` on `path`, given the file's contents or the
/// reason they could not be read.
pub fn read_file_output(path: &str, content: Result<String, String>) -> (r: Result<String, ToolError>)
    ensures
        match content {
            Ok(c) => {
                &&& r is Ok
                &&& r->Ok_0@ == read_file_text(path@, c@)
                &&& r->Ok_0@.len() == path@.len() + c@.len() + 9
                &&& r->Ok_0@.skip(path@.len() as int + 9) == c@
            },
            Err(e) => r is Err && r->Err_0@ == ToolErrorView::CannotRead(path@, e@),
        },
{
    match content {
        Ok(c) => {
            let mut r = String::new();
            r.append("=== ");
            r.append(path);
            r.append(" ===\n");
            r.append(c.as_str());
            proof {
                lemma_read_file_shows_whole(path@, c@);
            }
            Ok(r)
        },
        Err(e) => Err(ToolError::CannotRead(path.to_string(), e)),
    }
}

/// Law: `read_file` shows the whole file after its header: the text is
/// `=== `, the path, ` ===` and a line break (nine chars besides the path),
/// then every char of the contents, however long.
pub proof fn lemma_read_file_shows_whole(path: Seq<char>, content: Seq<char>)
    ensures
        read_file_text(path, content).len() == path.len() + content.len() + 9,
        read_file_text(path, content).skip(path.len() as int + 9) == content,
        read_file_text(path, content).take(4) == seq!['=', '=', '=', ' '],
        read_file_text(path, content).subrange(4, path.len() as int + 4) == path,
{
    reveal_strlit("=== ");
    reveal_strlit(" ===\n");
    let t = read_file_text(path, content);
    assert(t.skip(path.len() as int + 9) =~= content);
    assert(t.take(4) =~= seq!['=', '=', '=', ' ']);
    assert(t.subrange(4, path.len() as int + 4) =~= path);
}

/// What `write_file` reports: the length of the contents in UTF-8 bytes,
/// and the path.
pub open spec fn write_file_text(path: Seq<char>, bytes: nat) -> Seq<char> {
    "Written "@ + decimal(bytes) + " bytes to "@ + path
}

/// The outcome of `write_file` of `content` to `path`, given whether the
/// file system took the write, or why not.
pub fn write_file_output(path: &str, content: &str, written: Result<(), String>) -> (r: Result<
    String,
    ToolError,
>)
    ensures
        match written {
            Ok(()) => r is Ok && r->Ok_0@ == write_file_text(path@, content.len() as nat),
            Err(e) => r is Err && r->Err_0@ == ToolErrorView::Io(e@),
        },
{
    match written {
        Ok(()) => {
            let mut r = String::new();
            r.append("Written ");
            push_decimal(&mut r, content.len() as u64);
            r.append(" bytes to ");
            r.append(path);
            Ok(r)
        },
        Err(e) => Err(ToolError::Io(e)),
    }
}

/// One entry of a directory: its name, and whether it is a directory.
#[derive(Debug)]
pub struct DirEntryInfo {
    pub name: String,
    pub is_dir: bool,
}

/// The line that `list_dir` shows for an entry.
pub open spec fn entry_line(name: Seq<char>, is_dir: bool) -> Seq<char> {
    if is_dir {
        "[dir] "@ + name
    } else {
        "[file] "@ + name
    }
}

/// The lines for `entries`, in their order.
pub open spec fn entry_lines(entries: Seq<DirEntryInfo>) -> Seq<Seq<char>> {
    entries.map_values(|e: DirEntryInfo| entry_line(e.name@, e.is_dir))
}

/// What `list_dir` shows: the entries' lines in sorted order, one per line.
pub open spec fn listing_text(entries: Seq<DirEntryInfo>) -> Seq<char> {
    join_with(entry_lines(entries).sort_by(lex_order()), seq!['\n'])
}

/// The outcome of `list_dir`, given the directory's entries or the reason
/// they could not be read.
pub fn list_dir_output(listing: Result<Vec<DirEntryInfo>, String>) -> (r: Result<String, ToolError>)
    ensures
        match listing {
            Ok(es) => r is Ok && r->Ok_0@ == listing_text(es@),
            Err(e) => r is Err && r->Err_0@ == ToolErrorView::Io(e@),
        },
{
    match listing {
        Err(e) => Err(ToolError::Io(e)),
        Ok(es) => {
            let mut lines: Vec<Vec<char>> = Vec::new();
            for i in 0..es.len()
                invariant
                    views(lines@) =~= entry_lines(es@).take(i as int),
            {
                let mut line: Vec<char> = Vec::new();
                if es[i].is_dir {
                    extend_chars(&mut line, &chars_of("[dir] "));
                } else {
                    extend_chars(&mut line, &chars_of("[file] "));
                }
                extend_chars(&mut line, &chars_of(es[i].name.as_str()));
                let ghost before = views(lines@);
                lines.push(line);
                assert(views(lines@) =~= before.push(line@));
                assert(entry_lines(es@).take(i + 1) =~= entry_lines(es@).take(i as int).push(
                    entry_line(es@[i as int].name@, es@[i as int].is_dir),
                ));
            }
            assert(entry_lines(es@).take(es@.len() as int) =~= entry_lines(es@));
            let sorted = sort_lines(lines);
            let mut nl: Vec<char> = Vec::new();
            nl.push('\n');
            assert(nl@ =~= seq!['\n']);
            let joined = join_chars(&sorted, 0, &nl);
            assert(views(sorted@).skip(0) =~= views(sorted@));
            Ok(string_of(&joined))
        },
    }
}

/// Law: `list_dir` shows every entry's line once, in order: its lines are
/// those of the entries, rearranged, and sorted.
pub proof fn lemma_listing_sorted(entries: Seq<DirEntryInfo>)
    ensures
        entry_lines(entries).sort_by(lex_order()).to_multiset() == entry_lines(entries).to_multiset(),
        sorted_by(entry_lines(entries).sort_by(lex_order()), lex_order()),
{
    lemma_lex_total_ordering();
    entry_lines(entries).lemma_sort_by_ensures(lex_order());
}

/// The most of the test run's output that `run_tests` shows, in chars.
pub const RUN_OUTPUT_LIMIT: usize = 3000;

/// The outcome of `run_tests`, given pytest's standard output and standard
/// error, or the reason it could not be started: the output followed by
/// the error output, cut to its first [`RUN_OUTPUT_LIMIT`] chars.
pub fn run_tests_output(run: Result<(String, String), String>) -> (r: Result<String, ToolError>)
    ensures
        match run {
            Ok((o, e)) => r is Ok && r->Ok_0@ == prefix_of_len(o@ + e@, RUN_OUTPUT_LIMIT as nat),
            Err(e) => r is Err && r->Err_0@ == ToolErrorView::PytestUnavailable(e@),
        },
{
    match run {
        Ok((o, e)) => {
            let mut c = o;
            c.append(e.as_str());
            Ok(prefix_chars(c.as_str(), RUN_OUTPUT_LIMIT))
        },
        Err(e) => Err(ToolError::PytestUnavailable(e)),
    }
}

/// How many chars of a result an action record keeps.
pub const SUMMARY_LIMIT: usize = 120;

/// The episode `v` with a successful call of `tool` with `args` recorded
/// under its current step, keeping `summary` of the result.
pub open spec fn recorded(
    v: EpisodeView,
    tool: Seq<char>,
    args: Map<Seq<char>, ArgValueView>,
    summary: Seq<char>,
) -> EpisodeView {
    EpisodeView {
        episode_id: v.episode_id,
        workspace: v.workspace,
        task_name: v.task_name,
        steps: v.steps,
        done: v.done,
        history: v.history.push(
            ActionRecordView { step: v.steps, tool: tool, args: args, result_summary: summary },
        ),
    }
}

/// Records the outcome of a call of `tool` with `args` in the episode and
/// hands it back: a success is added to the history, under the current
/// step, with the first [`SUMMARY_LIMIT`] chars of its text; a failure
/// leaves the episode as it was.
pub fn dispatch(
    state: &mut EpisodeState,
    tool: &str,
    args: &ToolArgs,
    outcome: Result<String, ToolError>,
) -> (r: Result<String, ToolError>)
    ensures
        r == outcome,
        final(state).started_at == old(state).started_at,
        match outcome {
            Ok(s) => final(state)@ == recorded(
                old(state)@,
                tool@,
                args@,
                prefix_of_len(s@, SUMMARY_LIMIT as nat),
            ),
            Err(_) => final(state)@ == old(state)@,
        },
{
    if let Ok(s) = &outcome {
        let record = ActionRecord {
            step: state.steps,
            tool: tool.to_string(),
            args: args.duplicate(),
            result_summary: prefix_chars(s.as_str(), SUMMARY_LIMIT),
        };
        let ghost before = old(state).action_history@;
        state.action_history.push(record);
        assert(state.action_history@.map_values(|a: ActionRecord| a@) =~= before.map_values(
            |a: ActionRecord| a@,
        ).push(record@));
    }
    outcome
}

} // verus!
