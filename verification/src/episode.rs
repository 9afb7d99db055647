//! Episodes: how one begins, what the agent is told, and how each step is
//! taken and counted.
//!
//! An episode takes at most [`MAX_STEPS`] steps; the step that reaches the
//! limit marks it done, and a done episode refuses further steps. Each step
//! is begun ([`begin_step`]), its tool call is run and recorded
//! ([`crate::tools::dispatch`]), and it is finished ([`finish_step`]).
use vstd::prelude::*;
use crate::errors::{error_message, ToolError};
use crate::paths::{list_workspace_files, relative_paths};
use crate::text::{decimal, join_strings, join_with, push_decimal, starts_with, starts_with_str, string_views};
use crate::tools::recorded;
use crate::types::{
    ActionRecordView, ArgValueView, EpisodeState, EpisodeView, ErrorResponse, ResetRequest,
    ResetResponse, StepInfo,
};

verus! {

/// The steps an episode takes before it is done.
pub const MAX_STEPS: u32 = 30;

/// The task started when a reset names none.
pub open spec fn default_task() -> Seq<char> {
    "buggy"@
}

impl ResetRequest {
    /// The task to start: the one named, else the default task.
    pub fn task_name(&self) -> (r: String)
        ensures
            r@ == match self.task {
                Some(t) => t@,
                None => default_task(),
            },
    {
        match &self.task {
            Some(t) => t.clone(),
            None => "buggy".to_string(),
        }
    }
}

/// A lowercase hexadecimal digit.
pub open spec fn is_lower_hex(c: char) -> bool {
    ('0' as int <= c as int <= '9' as int) || ('a' as int <= c as int <= 'f' as int)
}

/// `s` is a version 4 UUID in lowercase hyphenated form: 36 chars, `-` at
/// 8, 13, 18 and 23, hexadecimal digits elsewhere, the version digit `4`
/// at 14 and one of `8`, `9`, `a`, `b` at 19.
pub open spec fn is_v4_id(s: Seq<char>) -> bool {
    &&& s.len() == 36
    &&& forall|i: int|
        0 <= i < 36 ==> if i == 8 || i == 13 || i == 18 || i == 23 {
            #[trigger] s[i] == '-'
        } else {
            is_lower_hex(s[i])
        }
    &&& s[14] == '4'
    &&& (s[19] == '8' || s[19] == '9' || s[19] == 'a' || s[19] == 'b')
}

/// `uuid::Uuid::new_v4` written with `to_string`: a random version 4 UUID
/// in lowercase hyphenated form. Which one comes out rests on chance; the
/// contract states the shape that every outcome has, and nothing of how
/// two outcomes differ. The call panics when the operating system yields
/// no random bytes, which no argument can rule out.
#[verifier::external_body]
fn new_episode_id() -> (r: String)
    ensures
        is_v4_id(r@),
{
    uuid::Uuid::new_v4().to_string()
}

/// `std::time::Instant::now`: the current instant of the monotonic clock.
/// Nothing is stated of it.
#[verifier::external_body]
fn now() -> std::time::Instant {
    std::time::Instant::now()
}

/// The workspace directory of the episode `id`.
pub open spec fn workspace_of(id: Seq<char>) -> Seq<char> {
    "/tmp/mini-env-"@ + id
}

/// Why an episode could not be started.
#[derive(Debug)]
pub enum ResetError {
    /// No task of this name exists.
    TaskNotFound(String),
    /// Setting up the workspace failed, with the reason.
    Io(String),
}

/// A [`ResetError`] with its text as a sequence of chars.
pub enum ResetErrorView {
    TaskNotFound(Seq<char>),
    Io(Seq<char>),
}

impl View for ResetError {
    type V = ResetErrorView;

    open spec fn view(&self) -> ResetErrorView {
        match self {
            ResetError::TaskNotFound(t) => ResetErrorView::TaskNotFound(t@),
            ResetError::Io(e) => ResetErrorView::Io(e@),
        }
    }
}

/// The text a failed reset answers with.
pub open spec fn reset_error_message(e: ResetErrorView) -> Seq<char> {
    match e {
        ResetErrorView::TaskNotFound(t) => "Task '"@ + t + "' not found in tasks/"@,
        ResetErrorView::Io(r) => r,
    }
}

impl ResetError {
    /// The answer to a reset that failed so.
    pub fn response(&self) -> (r: ErrorResponse)
        ensures
            r.error@ == reset_error_message(self@),
    {
        let mut m = String::new();
        match self {
            ResetError::TaskNotFound(t) => {
                m.append("Task '");
                m.append(t.as_str());
                m.append("' not found in tasks/");
            },
            ResetError::Io(e) => {
                m.append(e.as_str());
            },
        }
        ErrorResponse { error: m }
    }
}

/// An episode can be in this state: at most [`MAX_STEPS`] steps taken,
/// done exactly when all were taken, and a history of at most one record
/// per step, in the order of the steps, each under a step already taken.
pub open spec fn episode_wf(v: EpisodeView) -> bool {
    &&& v.steps <= MAX_STEPS
    &&& (v.done <==> v.steps >= MAX_STEPS)
    &&& forall|i: int| 0 <= i < v.history.len() ==> 1 <= #[trigger] v.history[i].step <= v.steps
    &&& forall|i: int, j: int|
        0 <= i < j < v.history.len() ==> #[trigger] v.history[i].step < #[trigger] v.history[j].step
}

/// A fresh episode of the task `task_name`, which exists when
/// `task_exists` says so, under the id `id`, begun at `started_at`: its
/// workspace named after the id, no steps taken and nothing recorded. An
/// unknown task is refused.
pub fn episode_with_id(
    task_name: &str,
    task_exists: bool,
    id: String,
    started_at: std::time::Instant,
) -> (r: Result<EpisodeState, ResetError>)
    ensures
        match r {
            Ok(s) => {
                &&& task_exists
                &&& s@.task_name == task_name@
                &&& s@.episode_id == id@
                &&& s@.workspace == workspace_of(id@)
                &&& s@.steps == 0
                &&& !s@.done
                &&& s@.history == Seq::<ActionRecordView>::empty()
                &&& s.started_at == Some(started_at)
                &&& episode_wf(s@)
            },
            Err(e) => !task_exists && e@ == ResetErrorView::TaskNotFound(task_name@),
        },
{
    if !task_exists {
        return Err(ResetError::TaskNotFound(task_name.to_string()));
    }
    let mut workspace = String::new();
    workspace.append("/tmp/mini-env-");
    workspace.append(id.as_str());
    let s = EpisodeState {
        episode_id: id,
        workspace,
        task_name: task_name.to_string(),
        steps: 0,
        done: false,
        action_history: Vec::new(),
        started_at: Some(started_at),
    };
    assert(s@.history =~= Seq::<ActionRecordView>::empty());
    Ok(s)
}

/// Starts an episode of the task `task_name`, which exists when
/// `task_exists` says so: a fresh random id, a workspace named after it, no
/// steps taken and nothing recorded, begun now. An unknown task is refused
/// before any id is drawn.
pub fn create_episode(task_name: &str, task_exists: bool) -> (r: Result<EpisodeState, ResetError>)
    ensures
        match r {
            Ok(s) => {
                &&& task_exists
                &&& s@.task_name == task_name@
                &&& is_v4_id(s@.episode_id)
                &&& s@.workspace == workspace_of(s@.episode_id)
                &&& s@.steps == 0
                &&& !s@.done
                &&& s@.history == Seq::<ActionRecordView>::empty()
                &&& s.started_at is Some
                &&& episode_wf(s@)
            },
            Err(e) => !task_exists && e@ == ResetErrorView::TaskNotFound(task_name@),
        },
{
    if !task_exists {
        return Err(ResetError::TaskNotFound(task_name.to_string()));
    }
    episode_with_id(task_name, true, new_episode_id(), now())
}

/// What the agent is told of an episode whose workspace holds `files`
/// (relative paths) after `steps` steps.
pub open spec fn observation_text(files: Seq<Seq<char>>, steps: nat) -> Seq<char> {
    "Task: Fix the bugs in the codebase so all tes pass. \nWorkspace files: "@ + join_with(
        files,
        ", "@,
    ) + "\nSteps taken: "@ + decimal(steps)
        + "\navailable tools: read_file, write_file, list_dir, run_tests\nTip: Start with run_tests to see what's failing."@
}

/// What the agent is told of the episode, given the paths of the files
/// found under its workspace: the files relative to the workspace, and the
/// steps taken.
pub fn build_observation(state: &EpisodeState, found: &Vec<String>) -> (r: String)
    ensures
        r@ == observation_text(
            relative_paths(state.workspace@, string_views(found@)),
            state.steps as nat,
        ),
{
    let files = list_workspace_files(state.workspace.as_str(), found);
    let mut r = String::new();
    r.append("Task: Fix the bugs in the codebase so all tes pass. \nWorkspace files: ");
    r.append(join_strings(&files, ", ").as_str());
    r.append("\nSteps taken: ");
    push_decimal(&mut r, state.steps as u64);
    r.append(
        "\navailable tools: read_file, write_file, list_dir, run_tests\nTip: Start with run_tests to see what's failing.",
    );
    r
}

/// The description of the task that a reset answers with.
pub open spec fn task_description_text() -> Seq<char> {
    "Fix the bug in solution.py so all tests pass."@
}

/// The answer to a reset that started `state`, whose agent is told
/// `observation`.
pub fn reset_response(state: &EpisodeState, observation: String) -> (r: ResetResponse)
    ensures
        r.episode_id@ == state.episode_id@,
        r.observation@ == observation@,
        r.task_description@ == task_description_text(),
{
    ResetResponse {
        episode_id: state.episode_id.clone(),
        observation,
        task_description: "Fix the bug in solution.py so all tests pass.".to_string(),
    }
}

/// The episode `v` with one more step taken.
pub open spec fn begun(v: EpisodeView) -> EpisodeView {
    EpisodeView {
        episode_id: v.episode_id,
        workspace: v.workspace,
        task_name: v.task_name,
        steps: (v.steps + 1) as u32,
        done: v.done,
        history: v.history,
    }
}

/// The text of the refusal of a step in a done episode.
pub open spec fn already_done_text() -> Seq<char> {
    "Episode already done"@
}

/// Begins a step: refused when the episode is done; otherwise the step
/// count goes up by one and the new count is the step's number.
pub fn begin_step(state: &mut EpisodeState) -> (r: Result<u32, ErrorResponse>)
    requires
        old(state).done || old(state).steps < u32::MAX,
    ensures
        final(state).started_at == old(state).started_at,
        match r {
            Ok(step) => {
                &&& !old(state).done
                &&& final(state)@ == begun(old(state)@)
                &&& step == final(state).steps
            },
            Err(e) => {
                &&& old(state).done
                &&& final(state)@ == old(state)@
                &&& e.error@ == already_done_text()
            },
        },
{
    if state.done {
        return Err(ErrorResponse { error: "Episode already done".to_string() });
    }
    state.steps = state.steps + 1;
    Ok(state.steps)
}

/// The episode `v` after its step numbered `step` was finished: done once
/// that step reaches [`MAX_STEPS`].
pub open spec fn finished(v: EpisodeView, step: u32) -> EpisodeView {
    EpisodeView {
        episode_id: v.episode_id,
        workspace: v.workspace,
        task_name: v.task_name,
        steps: v.steps,
        done: v.done || step >= MAX_STEPS,
        history: v.history,
    }
}

/// What the agent sees of a tool call's outcome: its text, or the error's
/// text after `Tool Error: `.
pub open spec fn observation_of(result: Result<String, ToolError>) -> Seq<char> {
    match result {
        Ok(s) => s@,
        Err(e) => "Tool Error: "@ + error_message(e@),
    }
}

/// The mark that an observation reports a failure.
pub open spec fn tool_error_mark() -> Seq<char> {
    "Tool Error"@
}

/// What a finished step reports.
#[derive(Debug)]
pub struct StepOutcome {
    pub observation: String,
    /// The episode is done.
    pub done: bool,
    pub info: StepInfo,
}

/// Finishes the step numbered `step`, whose call of `tool` had `result`:
/// the observation, whether the episode is now done (and marks it so), and
/// whether the observation reports success.
pub fn finish_step(
    state: &mut EpisodeState,
    step: u32,
    tool: &str,
    result: Result<String, ToolError>,
) -> (r: StepOutcome)
    ensures
        final(state).started_at == old(state).started_at,
        final(state)@ == finished(old(state)@, step),
        r.observation@ == observation_of(result),
        result is Ok ==> r.observation@ == result->Ok_0@,
        r.done == (step >= MAX_STEPS),
        r.info.step == step,
        r.info.tool_used@ == tool@,
        r.info.success == !starts_with(r.observation@, tool_error_mark()),
{
    let observation = match result {
        Ok(s) => s,
        Err(e) => {
            let mut o = String::new();
            o.append("Tool Error: ");
            o.append(e.message().as_str());
            o
        },
    };
    let done = step >= MAX_STEPS;
    if done {
        state.done = true;
    }
    let success = !starts_with_str(observation.as_str(), "Tool Error");
    StepOutcome {
        observation,
        done,
        info: StepInfo { step, tool_used: tool.to_string(), success },
    }
}

/// Law: a step taken in a well-formed episode that is not done keeps it
/// well formed, whether or not its call was recorded: the step count never
/// passes [`MAX_STEPS`], the episode is done exactly when it reaches it (so
/// the step that makes it done is the last one accepted), and records stay
/// one per step, in order.
pub proof fn lemma_step_keeps_wf(
    v: EpisodeView,
    tool: Seq<char>,
    args: Map<Seq<char>, ArgValueView>,
    summary: Seq<char>,
)
    requires
        episode_wf(v),
        !v.done,
    ensures
        episode_wf(finished(begun(v), begun(v).steps)),
        episode_wf(finished(recorded(begun(v), tool, args, summary), begun(v).steps)),
        finished(begun(v), begun(v).steps).done <==> v.steps + 1 == MAX_STEPS,
{
    let b = begun(v);
    let w = finished(recorded(b, tool, args, summary), b.steps);
    assert forall|i: int, j: int| 0 <= i < j < w.history.len() implies #[trigger] w.history[i].step
        < #[trigger] w.history[j].step by {
        if j < v.history.len() {
            assert(w.history[i] == v.history[i] && w.history[j] == v.history[j]);
        } else {
            assert(w.history[i] == v.history[i]);
        }
    }
    assert forall|i: int| 0 <= i < w.history.len() implies 1 <= #[trigger] w.history[i].step
        <= w.steps by {
        if i < v.history.len() {
            assert(w.history[i] == v.history[i]);
        }
    }
}

/// Law: the agent sees the whole text of a successful call, unchanged and
/// uncut; the step counts as a success unless that text itself begins
/// with `Tool Error`.
pub proof fn lemma_success_observed(s: String)
    ensures
        observation_of(Ok(s)) == s@,
        observation_of(Ok(s)).len() == s@.len(),
        !starts_with(s@, tool_error_mark()) ==> !starts_with(observation_of(Ok(s)), tool_error_mark()),
{
}

/// Law: an observation made from a failed call reports failure, so the
/// step that made it is never counted a success.
pub proof fn lemma_failure_observed(e: ToolError)
    ensures
        starts_with(observation_of(Err(e)), tool_error_mark()),
{
    reveal_strlit("Tool Error: ");
    reveal_strlit("Tool Error");
    let o = observation_of(Err(e));
    assert(o.take(10) =~= tool_error_mark());
}

/// Law: episodes with different ids work in different directories, so no
/// episode's tools reach another's files through its own workspace path.
pub proof fn lemma_workspaces_distinct(a: Seq<char>, b: Seq<char>)
    requires
        a != b,
    ensures
        workspace_of(a) != workspace_of(b),
{
    let p = "/tmp/mini-env-"@;
    if workspace_of(a) == workspace_of(b) {
        assert(workspace_of(a).skip(p.len() as int) =~= a);
        assert(workspace_of(b).skip(p.len() as int) =~= b);
    }
}

/// Law: the workspace of one episode never lies below that of another:
/// for two well-formed ids, the one workspace path does not begin with the
/// other followed by `/`.
pub proof fn lemma_workspaces_not_nested(a: Seq<char>, b: Seq<char>)
    requires
        is_v4_id(a),
        is_v4_id(b),
    ensures
        !starts_with(workspace_of(b), workspace_of(a) + seq!['/']),
{
}

/// One request to take a step: the record its call leaves (tool,
/// arguments, summary of the result) when it succeeded, or none.
pub type StepRecord = Option<(Seq<char>, Map<Seq<char>, ArgValueView>, Seq<char>)>;

/// The episode `v` after one step request: refused when it is done;
/// otherwise begun, its call recorded when it succeeded, and finished.
pub open spec fn after_request(v: EpisodeView, rec: StepRecord) -> EpisodeView {
    if v.done {
        v
    } else {
        let b = begun(v);
        let d = match rec {
            Some((t, a, s)) => recorded(b, t, a, s),
            None => b,
        };
        finished(d, b.steps)
    }
}

/// The episode `v` after the step requests `rs`, in order.
pub open spec fn after_requests(v: EpisodeView, rs: Seq<StepRecord>) -> EpisodeView
    decreases rs.len(),
{
    if rs.len() == 0 {
        v
    } else {
        after_request(after_requests(v, rs.drop_last()), rs.last())
    }
}

/// Law: whatever step requests a freshly started episode receives, it stays
/// well formed and has taken one step per request up to [`MAX_STEPS`], and
/// no more: it is done exactly once that many requests came.
pub proof fn lemma_requests_keep_wf(v: EpisodeView, rs: Seq<StepRecord>)
    requires
        v.steps == 0,
        !v.done,
        v.history.len() == 0,
    ensures
        episode_wf(after_requests(v, rs)),
        after_requests(v, rs).steps == if rs.len() < MAX_STEPS {
            rs.len() as int
        } else {
            MAX_STEPS as int
        },
    decreases rs.len(),
{
    if rs.len() > 0 {
        lemma_requests_keep_wf(v, rs.drop_last());
        let w = after_requests(v, rs.drop_last());
        if !w.done {
            match rs.last() {
                Some((t, a, sm)) => lemma_step_keeps_wf(w, t, a, sm),
                None => lemma_step_keeps_wf(w, Seq::empty(), Map::empty(), Seq::empty()),
            }
        }
    }
}

impl ErrorResponse {
    /// The answer to a step for the episode `id` that does not exist.
    pub fn episode_not_found(id: &str) -> (r: ErrorResponse)
        ensures
            r.error@ == "Episode "@ + id@ + " not found"@,
    {
        let mut m = String::new();
        m.append("Episode ");
        m.append(id);
        m.append(" not found");
        ErrorResponse { error: m }
    }

    /// The answer to a verification of the episode `id` that does not exist.
    pub fn unknown_episode(id: &str) -> (r: ErrorResponse)
        ensures
            r.error@ == "Episode '"@ + id@ + "' not found"@,
    {
        let mut m = String::new();
        m.append("Episode '");
        m.append(id);
        m.append("' not found");
        ErrorResponse { error: m }
    }

    /// The answer when the grader could not be started, for `reason`.
    pub fn verifier_failed(reason: &str) -> (r: ErrorResponse)
        ensures
            r.error@ == "Verifier failed to run: "@ + reason@
                + ". Did you build it? cargo build --bin verifier"@,
    {
        let mut m = String::new();
        m.append("Verifier failed to run: ");
        m.append(reason);
        m.append(". Did you build it? cargo build --bin verifier");
        ErrorResponse { error: m }
    }

    /// The answer when the grader's `output` could not be read, for `reason`.
    pub fn verifier_output_unreadable(reason: &str, output: &str) -> (r: ErrorResponse)
        ensures
            r.error@ == "Verifier output parse error: "@ + reason@ + ". Output was: "@ + output@,
    {
        let mut m = String::new();
        m.append("Verifier output parse error: ");
        m.append(reason);
        m.append(". Output was: ");
        m.append(output);
        ErrorResponse { error: m }
    }
}

} // verus!
