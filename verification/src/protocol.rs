//! What the editor and the language server say to each other, as plain values.
use vstd::prelude::*;
use crate::json::{Json, Value};
use crate::text::texts;
use crate::views::viewed;

verus! {

/// A place in a document: a line and a character of it, both counted from 0.
#[derive(Clone, Copy, Debug, PartialEq, Eq, Structural)]
pub struct Position {
    pub line: u32,
    pub character: u32,
}

impl Position {
    pub fn new(line: u32, character: u32) -> (position: Self)
        ensures
            position == (Position { line, character }),
    {
        Position { line, character }
    }

    /// Whether both counts can be written from 1.
    pub open spec fn countable(self) -> bool {
        self.line < u32::MAX && self.character < u32::MAX
    }
}

/// The places from `start` up to `end`.
#[derive(Clone, Copy, Debug, PartialEq, Eq, Structural)]
pub struct Range {
    pub start: Position,
    pub end: Position,
}

impl Range {
    /// Whether the counts of both ends can be written from 1.
    pub open spec fn countable(self) -> bool {
        self.start.countable() && self.end.countable()
    }
}

/// A document, by the serialization of its URL.
#[derive(Debug, PartialEq, Eq)]
pub struct TextDocumentIdentifier {
    pub uri: String,
}

impl TextDocumentIdentifier {
    pub fn new(uri: String) -> (identifier: Self)
        ensures
            identifier == (TextDocumentIdentifier { uri }),
    {
        TextDocumentIdentifier { uri }
    }
}

impl Clone for TextDocumentIdentifier {
    fn clone(&self) -> (copy: Self)
        ensures
            copy == *self,
    {
        TextDocumentIdentifier { uri: self.uri.clone() }
    }
}

/// A place in a document.
#[derive(Debug, PartialEq, Eq)]
pub struct TextDocumentPositionParams {
    pub text_document: TextDocumentIdentifier,
    pub position: Position,
}

/// How grave a diagnostic is.
#[derive(Clone, Copy, Debug, PartialEq, Eq, Structural)]
pub enum DiagnosticSeverity {
    Error,
    Warning,
    Information,
    Hint,
    Other,
}

/// The code of a diagnostic.
#[derive(Debug, PartialEq, Eq)]
pub enum NumberOrString {
    Number(i32),
    Text(String),
}

/// Where a code is explained.
#[derive(Debug, PartialEq, Eq)]
pub struct CodeDescription {
    pub href: String,
}

/// A message about a range of a document.
#[derive(Debug, PartialEq, Eq)]
pub struct Diagnostic {
    pub range: Range,
    pub severity: Option<DiagnosticSeverity>,
    pub code: Option<NumberOrString>,
    pub code_description: Option<CodeDescription>,
    pub message: String,
}

impl Clone for Diagnostic {
    fn clone(&self) -> (copy: Self)
        ensures
            copy == *self,
    {
        Diagnostic {
            range: self.range,
            severity: self.severity,
            code: match &self.code {
                Some(NumberOrString::Number(n)) => Some(NumberOrString::Number(*n)),
                Some(NumberOrString::Text(text)) => Some(NumberOrString::Text(text.clone())),
                None => None,
            },
            code_description: match &self.code_description {
                Some(description) => Some(CodeDescription { href: description.href.clone() }),
                None => None,
            },
            message: self.message.clone(),
        }
    }
}

/// A range of a document.
#[derive(Debug, PartialEq, Eq)]
pub struct Location {
    pub uri: String,
    pub range: Range,
}

/// The goals at a place, as text.
#[derive(Debug)]
pub struct PlainGoalResult {
    pub goals: Vec<String>,
    pub rendered: String,
}

/// The mathematical value of a [`PlainGoalResult`].
pub struct PlainGoal {
    pub goals: Seq<Seq<char>>,
    pub rendered: Seq<char>,
}

impl View for PlainGoalResult {
    type V = PlainGoal;

    open spec fn view(&self) -> PlainGoal {
        PlainGoal { goals: texts(self.goals@), rendered: self.rendered@ }
    }
}

/// The expected type at a place, as text.
#[derive(Debug)]
pub struct PlainTermGoalResult {
    pub goal: Option<String>,
    pub range: Option<Range>,
}

/// The mathematical value of a [`PlainTermGoalResult`].
pub struct PlainTermGoal {
    pub goal: Option<Seq<char>>,
    pub range: Option<Range>,
}

impl View for PlainTermGoalResult {
    type V = PlainTermGoal;

    open spec fn view(&self) -> PlainTermGoal {
        PlainTermGoal { goal: viewed(self.goal), range: self.range }
    }
}

/// The goals at a place, with the values that their parts refer to.
#[derive(Debug)]
pub struct InteractiveGoalsResult {
    pub goals: Vec<InteractiveGoal>,
}

/// A goal, with the values that its parts refer to.
#[derive(Debug)]
pub struct InteractiveGoal {
    pub goal_prefix: Option<String>,
    pub user_name: Option<String>,
    pub hyps: Vec<InteractiveHypothesis>,
    pub ty: Value,
}

/// A hypothesis of a goal.
#[derive(Debug)]
pub struct InteractiveHypothesis {
    pub names: Vec<String>,
    pub ty: Value,
    pub val: Option<Value>,
}

/// The mathematical value of an [`InteractiveHypothesis`].
pub struct Hypothesis {
    pub names: Seq<Seq<char>>,
    pub ty: Json,
    pub val: Option<Json>,
}

/// The mathematical value of an [`InteractiveGoal`].
pub struct Goal {
    pub goal_prefix: Option<Seq<char>>,
    pub user_name: Option<Seq<char>>,
    pub hyps: Seq<Hypothesis>,
    pub ty: Json,
}

impl View for InteractiveHypothesis {
    type V = Hypothesis;

    open spec fn view(&self) -> Hypothesis {
        Hypothesis { names: texts(self.names@), ty: self.ty@, val: viewed(self.val) }
    }
}

impl View for InteractiveGoal {
    type V = Goal;

    open spec fn view(&self) -> Goal {
        Goal {
            goal_prefix: viewed(self.goal_prefix),
            user_name: viewed(self.user_name),
            hyps: self.hyps@.map_values(|hyp: InteractiveHypothesis| hyp@),
            ty: self.ty@,
        }
    }
}

impl Default for InteractiveHypothesis {
    /// A hypothesis without names.
    fn default() -> (hyp: Self)
        ensures
            hyp@ == (Hypothesis { names: Seq::empty(), ty: Json::Null, val: None }),
    {
        let hyp = InteractiveHypothesis { names: Vec::new(), ty: Value::Null, val: None };
        assert(hyp@.names =~= Seq::empty());
        hyp
    }
}

impl Default for InteractiveGoal {
    /// A goal without a type.
    fn default() -> (goal: Self)
        ensures
            goal@ == (Goal {
                goal_prefix: None,
                user_name: None,
                hyps: Seq::empty(),
                ty: Json::Null,
            }),
    {
        let goal = InteractiveGoal {
            goal_prefix: None,
            user_name: None,
            hyps: Vec::new(),
            ty: Value::Null,
        };
        assert(goal@.hyps =~= Seq::empty());
        goal
    }
}

impl Default for InteractiveGoalsResult {
    /// No goals.
    fn default() -> (result: Self)
        ensures
            result@ == Seq::<Goal>::empty(),
    {
        let result = InteractiveGoalsResult { goals: Vec::new() };
        assert(result@ =~= Seq::empty());
        result
    }
}

impl View for InteractiveGoalsResult {
    type V = Seq<Goal>;

    open spec fn view(&self) -> Seq<Goal> {
        self.goals@.map_values(|goal: InteractiveGoal| goal@)
    }
}

/// Replies stand for all that they hold: the goals in their order, each with its hypotheses in their
/// order, and every name and type.
pub proof fn law_replies_are_what_they_hold(
    plain_goal: PlainGoalResult,
    plain_term_goal: PlainTermGoalResult,
    goals: InteractiveGoalsResult,
    goal: InteractiveGoal,
    hyp: InteractiveHypothesis,
)
    ensures
        plain_goal@.goals.len() == plain_goal.goals@.len(),
        forall|i: int|
            0 <= i < plain_goal.goals@.len() ==> #[trigger] plain_goal@.goals[i]
                == plain_goal.goals@[i]@,
        plain_goal@.rendered == plain_goal.rendered@,
        plain_term_goal@.goal == match plain_term_goal.goal {
            Some(goal) => Some(goal@),
            None => None,
        },
        plain_term_goal@.range == plain_term_goal.range,
        goals@.len() == goals.goals@.len(),
        forall|i: int| 0 <= i < goals.goals@.len() ==> #[trigger] goals@[i] == goals.goals@[i]@,
        goal@.goal_prefix == match goal.goal_prefix {
            Some(prefix) => Some(prefix@),
            None => None,
        },
        goal@.user_name == match goal.user_name {
            Some(name) => Some(name@),
            None => None,
        },
        goal@.hyps.len() == goal.hyps@.len(),
        forall|i: int|
            0 <= i < goal.hyps@.len() ==> #[trigger] goal@.hyps[i] == goal.hyps@[i]@,
        goal@.ty == goal.ty@,
        hyp@.names.len() == hyp.names@.len(),
        forall|i: int| 0 <= i < hyp.names@.len() ==> #[trigger] hyp@.names[i] == hyp.names@[i]@,
        hyp@.ty == hyp.ty@,
        hyp@.val == match hyp.val {
            Some(value) => Some(value@),
            None => None,
        },
{
}

} // verus!
