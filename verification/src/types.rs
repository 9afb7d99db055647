//! The values that requests, responses and episodes are made of.
//!
//! A tool call's arguments arrive as a JSON object; here they are a list of
//! (name, value) pairs in which a later pair for a name replaces an earlier
//! one, and a value is either a JSON string, by its text, or any other JSON
//! value, by its JSON notation.
use vstd::prelude::*;
use crate::text::str_eq;

verus! {

/// `std::time::Instant`, carried through an episode and never read.
#[verifier::external_type_specification]
#[verifier::external_body]
pub struct ExInstant(std::time::Instant);

/// The value of one tool argument.
#[derive(Debug)]
pub enum ArgValue {
    /// A JSON string, by its text.
    Text(String),
    /// Any other JSON value, in JSON notation.
    Other(String),
}

/// An [`ArgValue`] with its text as a sequence of chars.
pub enum ArgValueView {
    Text(Seq<char>),
    Other(Seq<char>),
}

impl View for ArgValue {
    type V = ArgValueView;

    open spec fn view(&self) -> ArgValueView {
        match self {
            ArgValue::Text(s) => ArgValueView::Text(s@),
            ArgValue::Other(s) => ArgValueView::Other(s@),
        }
    }
}

impl ArgValue {
    /// A copy of this value.
    pub fn duplicate(&self) -> (r: ArgValue)
        ensures
            r@ == self@,
    {
        match self {
            ArgValue::Text(s) => ArgValue::Text(s.clone()),
            ArgValue::Other(s) => ArgValue::Other(s.clone()),
        }
    }
}

/// The map that the pairs `s` spell out: a later pair for a name replaces
/// an earlier one.
pub open spec fn args_map(s: Seq<(String, ArgValue)>) -> Map<Seq<char>, ArgValueView>
    decreases s.len(),
{
    if s.len() == 0 {
        Map::empty()
    } else {
        args_map(s.drop_last()).insert(s.last().0@, s.last().1@)
    }
}

/// Pairs after the first `m` that do not name `k` leave its entry as the
/// first `m` pairs made it.
proof fn lemma_args_map_tail(s: Seq<(String, ArgValue)>, k: Seq<char>, m: int)
    requires
        0 <= m <= s.len(),
        forall|j: int| m <= j < s.len() ==> #[trigger] s[j].0@ != k,
    ensures
        args_map(s).contains_key(k) == args_map(s.take(m)).contains_key(k),
        args_map(s).contains_key(k) ==> args_map(s)[k] == args_map(s.take(m))[k],
    decreases s.len(),
{
    if s.len() > m {
        let t = s.drop_last();
        assert(t.take(m) =~= s.take(m));
        assert forall|j: int| m <= j < t.len() implies #[trigger] t[j].0@ != k by {
            assert(t[j] == s[j]);
        }
        lemma_args_map_tail(t, k, m);
        assert(s[s.len() - 1].0@ != k);
    } else {
        assert(s.take(m) =~= s);
    }
}

/// The arguments of a tool call, by name.
#[derive(Debug)]
pub struct ToolArgs {
    /// The (name, value) pairs; a later pair for a name replaces an earlier one.
    pub entries: Vec<(String, ArgValue)>,
}

impl View for ToolArgs {
    type V = Map<Seq<char>, ArgValueView>;

    open spec fn view(&self) -> Map<Seq<char>, ArgValueView> {
        args_map(self.entries@)
    }
}

impl ToolArgs {
    /// The value of the argument `name`, if there is one.
    pub fn get(&self, name: &str) -> (r: Option<&ArgValue>)
        ensures
            match r {
                Some(v) => self@.contains_key(name@) && self@[name@] == v@,
                None => !self@.contains_key(name@),
            },
    {
        let ghost s = self.entries@;
        let mut i = self.entries.len();
        while i > 0
            invariant
                i <= s.len(),
                s == self.entries@,
                forall|j: int| i <= j < s.len() ==> #[trigger] s[j].0@ != name@,
            decreases i,
        {
            let found = str_eq(self.entries[i - 1].0.as_str(), name);
            if found {
                proof {
                    lemma_args_map_tail(s, name@, i as int);
                    assert(s.take(i as int).drop_last() =~= s.take(i - 1));
                    assert(s.take(i as int).last() == s[i - 1]);
                }
                return Some(&self.entries[i - 1].1);
            }
            i -= 1;
        }
        proof {
            lemma_args_map_tail(s, name@, 0);
            assert(s.take(0) =~= Seq::<(String, ArgValue)>::empty());
        }
        None
    }

    /// A copy of these arguments.
    pub fn duplicate(&self) -> (r: ToolArgs)
        ensures
            r@ == self@,
    {
        let mut entries: Vec<(String, ArgValue)> = Vec::new();
        let ghost s = self.entries@;
        for i in 0..self.entries.len()
            invariant
                s == self.entries@,
                entries@.len() == i,
                forall|j: int| 0 <= j < i ==> same_entry(#[trigger] entries@[j], s[j]),
        {
            let e = &self.entries[i];
            let name = e.0.clone();
            let value = e.1.duplicate();
            let ghost before = entries@;
            entries.push((name, value));
            assert(same_entry(entries@[i as int], s[i as int]));
            assert forall|j: int| 0 <= j < i + 1 implies same_entry(#[trigger] entries@[j], s[j]) by {
                if j < i {
                    assert(entries@[j] == before[j]);
                }
            }
        }
        proof {
            lemma_args_map_same(entries@, s);
        }
        ToolArgs { entries }
    }
}

/// Two pairs with the same name and value.
spec fn same_entry(a: (String, ArgValue), b: (String, ArgValue)) -> bool {
    a.0@ == b.0@ && a.1@ == b.1@
}

/// Pairs with the same names and values, one for one, spell out the same map.
proof fn lemma_args_map_same(a: Seq<(String, ArgValue)>, b: Seq<(String, ArgValue)>)
    requires
        a.len() == b.len(),
        forall|j: int| 0 <= j < a.len() ==> same_entry(#[trigger] a[j], b[j]),
    ensures
        args_map(a) == args_map(b),
    decreases a.len(),
{
    if a.len() > 0 {
        let (x, y) = (a.drop_last(), b.drop_last());
        assert forall|j: int| 0 <= j < x.len() implies same_entry(#[trigger] x[j], y[j]) by {
            assert(x[j] == a[j] && y[j] == b[j]);
        }
        lemma_args_map_same(x, y);
        assert(same_entry(a[a.len() - 1], b[b.len() - 1]));
    }
}

/// One successful tool call, as the episode remembers it.
#[derive(Debug)]
pub struct ActionRecord {
    /// The step during which the tool ran.
    pub step: u32,
    /// The tool's name.
    pub tool: String,
    /// The arguments it was called with.
    pub args: ToolArgs,
    /// The first 120 chars of what it returned.
    pub result_summary: String,
}

/// An [`ActionRecord`] by its values.
pub struct ActionRecordView {
    pub step: u32,
    pub tool: Seq<char>,
    pub args: Map<Seq<char>, ArgValueView>,
    pub result_summary: Seq<char>,
}

impl View for ActionRecord {
    type V = ActionRecordView;

    open spec fn view(&self) -> ActionRecordView {
        ActionRecordView {
            step: self.step,
            tool: self.tool@,
            args: self.args@,
            result_summary: self.result_summary@,
        }
    }
}

/// The state of one episode.
#[derive(Debug)]
pub struct EpisodeState {
    pub episode_id: String,
    /// The episode's own workspace directory.
    pub workspace: String,
    pub task_name: String,
    /// The steps taken so far.
    pub steps: u32,
    /// No more steps are accepted.
    pub done: bool,
    /// The successful tool calls, oldest first.
    pub action_history: Vec<ActionRecord>,
    /// When the episode began.
    pub started_at: Option<std::time::Instant>,
}

/// An [`EpisodeState`] by its values (the start instant left out).
pub struct EpisodeView {
    pub episode_id: Seq<char>,
    pub workspace: Seq<char>,
    pub task_name: Seq<char>,
    pub steps: u32,
    pub done: bool,
    pub history: Seq<ActionRecordView>,
}

impl View for EpisodeState {
    type V = EpisodeView;

    open spec fn view(&self) -> EpisodeView {
        EpisodeView {
            episode_id: self.episode_id@,
            workspace: self.workspace@,
            task_name: self.task_name@,
            steps: self.steps,
            done: self.done,
            history: self.action_history@.map_values(|r: ActionRecord| r@),
        }
    }
}

/// The body of a reset request.
#[derive(Debug)]
pub struct ResetRequest {
    /// The task to start; the default task when absent.
    pub task: Option<String>,
}

/// The answer to a reset.
#[derive(Debug)]
pub struct ResetResponse {
    pub episode_id: String,
    pub observation: String,
    pub task_description: String,
}

/// The body of a step request.
#[derive(Debug)]
pub struct StepRequest {
    pub episode_id: String,
    pub tool: String,
    pub args: ToolArgs,
}

/// What a step reports besides its observation.
#[derive(Debug)]
pub struct StepInfo {
    /// The step's number, counted from 1.
    pub step: u32,
    pub tool_used: String,
    /// The observation is not a tool error.
    pub success: bool,
}

/// The body of a verify request.
#[derive(Debug)]
pub struct VerifyRequest {
    pub episode_id: String,
}

/// The body of an error answer.
#[derive(Debug)]
pub struct ErrorResponse {
    pub error: String,
}

} // verus!
