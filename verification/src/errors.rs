//! The ways a tool call fails, and the text each failure shows the agent.
use vstd::prelude::*;

verus! {

/// Why a tool call failed. The `String`s carry the names and the texts of
/// the operating system's errors that the message quotes.
#[derive(Debug)]
pub enum ToolError {
    /// The tool name is none of the four tools.
    UnknownTool(String),
    /// The `path` argument is missing or not a string.
    MissingPath,
    /// The `content` argument is missing or not a string.
    MissingContent,
    /// Reading the file failed: the path asked for, and the reason.
    CannotRead(String, String),
    /// A file-system operation failed, with its reason.
    Io(String),
    /// pytest could not be started, with the reason.
    PytestUnavailable(String),
    /// The workspace path could not be resolved, with the reason.
    WorkspaceUnresolved(String),
    /// The target path exists but could not be resolved, with the reason.
    TargetUnresolved(String),
    /// The target path has no parent directory.
    NoParent,
    /// The target path resolves outside the workspace; it carries the path.
    PathEscape(String),
}

/// A [`ToolError`] with its texts as sequences of chars.
pub enum ToolErrorView {
    UnknownTool(Seq<char>),
    MissingPath,
    MissingContent,
    CannotRead(Seq<char>, Seq<char>),
    Io(Seq<char>),
    PytestUnavailable(Seq<char>),
    WorkspaceUnresolved(Seq<char>),
    TargetUnresolved(Seq<char>),
    NoParent,
    PathEscape(Seq<char>),
}

impl View for ToolError {
    type V = ToolErrorView;

    open spec fn view(&self) -> ToolErrorView {
        match self {
            ToolError::UnknownTool(t) => ToolErrorView::UnknownTool(t@),
            ToolError::MissingPath => ToolErrorView::MissingPath,
            ToolError::MissingContent => ToolErrorView::MissingContent,
            ToolError::CannotRead(p, e) => ToolErrorView::CannotRead(p@, e@),
            ToolError::Io(e) => ToolErrorView::Io(e@),
            ToolError::PytestUnavailable(e) => ToolErrorView::PytestUnavailable(e@),
            ToolError::WorkspaceUnresolved(e) => ToolErrorView::WorkspaceUnresolved(e@),
            ToolError::TargetUnresolved(e) => ToolErrorView::TargetUnresolved(e@),
            ToolError::NoParent => ToolErrorView::NoParent,
            ToolError::PathEscape(p) => ToolErrorView::PathEscape(p@),
        }
    }
}

/// The text that a failure shows.
pub open spec fn error_message(e: ToolErrorView) -> Seq<char> {
    match e {
        ToolErrorView::UnknownTool(t) => "unknown tool: "@ + t
            + ". Availabe tools: read_file, write_file, list_dir, run_tests"@,
        ToolErrorView::MissingPath => "path is required as an arg"@,
        ToolErrorView::MissingContent => "content is required as an arg"@,
        ToolErrorView::CannotRead(p, r) => "Cannot Read "@ + p + ": "@ + r,
        ToolErrorView::Io(r) => r,
        ToolErrorView::PytestUnavailable(r) => "Failed to run pytest: "@ + r
            + ". Is pytest installed?"@,
        ToolErrorView::WorkspaceUnresolved(r) => "Cannot canonicalize workspace: "@ + r,
        ToolErrorView::TargetUnresolved(r) => "Cannot canonicalize target: "@ + r,
        ToolErrorView::NoParent => "No parent directory"@,
        ToolErrorView::PathEscape(p) => "Path escape attempt: '"@ + p
            + "' is outside the workspace"@,
    }
}

impl ToolError {
    /// The text this failure shows.
    pub fn message(&self) -> (r: String)
        ensures
            r@ == error_message(self@),
    {
        let mut r = String::new();
        match self {
            ToolError::UnknownTool(t) => {
                r.append("unknown tool: ");
                r.append(t.as_str());
                r.append(". Availabe tools: read_file, write_file, list_dir, run_tests");
            },
            ToolError::MissingPath => {
                r.append("path is required as an arg");
            },
            ToolError::MissingContent => {
                r.append("content is required as an arg");
            },
            ToolError::CannotRead(p, e) => {
                r.append("Cannot Read ");
                r.append(p.as_str());
                r.append(": ");
                r.append(e.as_str());
            },
            ToolError::Io(e) => {
                r.append(e.as_str());
            },
            ToolError::PytestUnavailable(e) => {
                r.append("Failed to run pytest: ");
                r.append(e.as_str());
                r.append(". Is pytest installed?");
            },
            ToolError::WorkspaceUnresolved(e) => {
                r.append("Cannot canonicalize workspace: ");
                r.append(e.as_str());
            },
            ToolError::TargetUnresolved(e) => {
                r.append("Cannot canonicalize target: ");
                r.append(e.as_str());
            },
            ToolError::NoParent => {
                r.append("No parent directory");
            },
            ToolError::PathEscape(p) => {
                r.append("Path escape attempt: '");
                r.append(p.as_str());
                r.append("' is outside the workspace");
            },
        }
        r
    }
}

} // verus!
