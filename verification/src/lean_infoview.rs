//! The commands that open, close, focus and refresh the infoview.
//!
//! A command runs in steps. A step lists actions for the editor, in order. It then either asks for
//! a new infoview, whose ids go to [`infoview_created`], or says what is left to do, which goes to
//! [`advance`] once the actions are done.
use vstd::prelude::*;
use crate::editor::{is_doc, is_lean_source, DocumentId, Editor, SourceContext, ViewId};
use crate::goto::{candidates_of, goto_target_view, target_view};
use crate::state::{
    current_source_context, infoview_status_payload, is_infoview_doc, sync_state,
    update_infoview_buffer, BufferUpdate, Infoview, Refreshed, RpcSession, State, Update,
};

verus! {

/// The title of the infoview's document.
pub const INFOVIEW_TITLE: &'static str = "Lean Infoview";

/// What a refresh is to find out.
#[derive(Debug, PartialEq, Eq)]
pub struct RefreshJob {
    pub source: SourceContext,
    pub request_seq: u64,
    pub session: Option<RpcSession>,
    /// The document and the line for which to ask whether its goals are accomplished. Without
    /// them the goals are not.
    pub accomplished_query: Option<(DocumentId, u32)>,
}

/// Something for the editor to do.
#[derive(Debug, PartialEq, Eq)]
pub enum Action {
    Focus(ViewId),
    CloseDocument(DocumentId),
    /// Gives the view its share, `share` of `whole`, of the split that it is one side of.
    SetSplitFraction { view_id: ViewId, share: u16, whole: u16 },
    ShowText(BufferUpdate),
    StartRefresh(RefreshJob),
}

/// The mathematical value of an [`Action`].
pub enum Effect {
    Focus(ViewId),
    CloseDocument(DocumentId),
    SetSplitFraction { view_id: ViewId, share: u16, whole: u16 },
    ShowText(Update),
    StartRefresh(RefreshJob),
}

impl View for Action {
    type V = Effect;

    open spec fn view(&self) -> Effect {
        match *self {
            Action::Focus(view_id) => Effect::Focus(view_id),
            Action::CloseDocument(doc_id) => Effect::CloseDocument(doc_id),
            Action::SetSplitFraction { view_id, share, whole } => Effect::SetSplitFraction {
                view_id,
                share,
                whole,
            },
            Action::ShowText(update) => Effect::ShowText(update@),
            Action::StartRefresh(job) => Effect::StartRefresh(job),
        }
    }
}

/// What is left to do.
#[derive(Debug, PartialEq, Eq)]
pub enum After {
    Finish,
    /// Refresh the infoview, opening it where it is not open.
    Refresh,
    /// Refresh the infoview about a source that was found before.
    RefreshFrom(Option<SourceContext>),
    /// Refresh an open infoview about the focused document, if it is the given one.
    RefreshCurrent(Option<DocumentId>),
}

/// A new infoview to open to the side.
#[derive(Debug, PartialEq, Eq)]
pub struct Opening {
    pub focus: bool,
    pub previous_focus: ViewId,
    pub after: After,
}

/// How a command goes on.
#[derive(Debug, PartialEq, Eq)]
pub enum Next {
    Create(Opening),
    Proceed(After),
}

/// One step of a command.
#[derive(Debug, PartialEq, Eq)]
pub struct Step {
    pub actions: Vec<Action>,
    pub next: Next,
}

impl Step {
    /// What the step does.
    pub open spec fn effects(self) -> Seq<Effect> {
        self.actions@.map_values(|action: Action| action@)
    }
}

/// What a step leaves remembered, does and leaves to do.
pub struct Outcome {
    pub state: Infoview,
    pub effects: Seq<Effect>,
    pub next: Next,
}

impl Outcome {
    /// Whether a request is started, which takes a number above those of all before it.
    pub open spec fn starts_request(self) -> bool {
        self.effects.len() > 0 && self.effects[0] is StartRefresh
    }
}

/// The outcome of a step that leaves `state` remembered.
pub open spec fn outcome(state: State, step: Step) -> Outcome {
    Outcome {
        state: state@,
        effects: step.effects(),
        next: step.next,
    }
}

/// The command is at its end.
pub open spec fn finish() -> Next {
    Next::Proceed(After::Finish)
}

/// The document and the line for which to ask whether its goals are accomplished.
pub open spec fn accomplished_query(editor: Editor, source: SourceContext) -> Option<
    (DocumentId, u32),
> {
    match source.doc_id {
        Some(doc_id) if editor.document(doc_id) is Some => Some((doc_id, source.position.line)),
        _ => None,
    }
}

impl Infoview {
    /// Opens the infoview where it is not open.
    pub open spec fn open_infoview(self, editor: Editor, focus: bool, after: After) -> Outcome {
        let state = self.synced(editor);
        if self.is_shown(editor) {
            Outcome {
                state,
                effects: if focus {
                    seq![Effect::Focus(self.infoview_view->0)]
                } else {
                    Seq::empty()
                },
                next: Next::Proceed(after),
            }
        } else {
            Outcome {
                state,
                effects: Seq::empty(),
                next: Next::Create(Opening { focus, previous_focus: editor.focus, after }),
            }
        }
    }

    /// Takes note of the new infoview, gives it two fifths of the split, and puts the focus where
    /// it belongs. Where its document has gone again, nothing more is done about it.
    pub open spec fn with_infoview(
        self,
        editor: Editor,
        opening: Opening,
        doc_id: DocumentId,
        view_id: ViewId,
    ) -> Outcome {
        if editor.document(doc_id) is None {
            Outcome {
                state: self,
                effects: Seq::empty(),
                next: match opening.after {
                    After::RefreshCurrent(_) => Next::Proceed(opening.after),
                    _ => finish(),
                },
            }
        } else {
            let share = Effect::SetSplitFraction { view_id, share: 2, whole: 5 };
            let focused = if opening.focus {
                Some(view_id)
            } else if editor.pane(opening.previous_focus) is Some {
                Some(opening.previous_focus)
            } else {
                target_view(None, Some(doc_id), candidates_of(editor.panes@))
            };
            Outcome {
                state: Infoview {
                    infoview_doc: Some(doc_id),
                    infoview_view: Some(view_id),
                    spans: Seq::empty(),
                    auto_open_suppressed_doc: None,
                    ..self
                },
                effects: match focused {
                    Some(view) => seq![share].push(Effect::Focus(view)),
                    None => seq![share],
                },
                next: Next::Proceed(opening.after),
            }
        }
    }

    /// Whether the infoview opens by itself: a Lean document is focused for which it was not
    /// closed.
    pub open spec fn opens_by_itself(self, editor: Editor) -> bool {
        &&& !self.is_shown(editor)
        &&& editor.has_focus()
        &&& self.auto_open_suppressed_doc != Some(editor.focused().doc)
        &&& editor.document(editor.focused().doc) matches Some(doc)
        &&& doc.is_lean_source()
    }

    /// Opens the infoview where it opens by itself.
    pub open spec fn auto_open(self, editor: Editor, after: After) -> Outcome {
        if self.opens_by_itself(editor) {
            self.open_infoview(editor, false, after)
        } else {
            Outcome {
                state: self.synced(editor),
                effects: Seq::empty(),
                next: Next::Proceed(after),
            }
        }
    }

    /// Closes the infoview.
    pub open spec fn close(self, editor: Editor) -> Outcome {
        Outcome {
            state: self.synced(editor).closed(),
            effects: if self.is_shown(editor) {
                seq![Effect::CloseDocument(self.infoview_doc->0)]
            } else {
                Seq::empty()
            },
            next: finish(),
        }
    }

    /// Whether there is a number for the request that the outcome starts, if it starts one.
    pub open spec fn numbers(self, outcome: Outcome) -> bool {
        outcome.starts_request() ==> self.request_seq < u64::MAX
    }

    /// Shows a line that says how things stand.
    pub open spec fn say(self, editor: Editor, source: Option<SourceContext>, message: Seq<char>) -> Outcome {
        let payload = Refreshed::status(source, message);
        Outcome {
            state: self.updated(editor, payload),
            effects: match self.update(editor, payload) {
                Some(update) => seq![Effect::ShowText(update)],
                None => Seq::empty(),
            },
            next: finish(),
        }
    }

    /// Starts a refresh about `source`, or says why that cannot be.
    pub open spec fn refresh_from(self, editor: Editor, source: Option<SourceContext>) -> Outcome {
        match source {
            None => self.say(editor, None, "Open a Lean buffer to populate the infoview."@),
            Some(source) => if !editor.runs(source.server_id) {
                self.say(editor, Some(source), "Lean language server is not available."@)
            } else {
                let synced = self.synced(editor);
                let request_seq = (self.request_seq + 1) as u64;
                Outcome {
                    state: Infoview { request_seq, ..synced },
                    effects: seq![
                        Effect::StartRefresh(
                            RefreshJob {
                                source,
                                request_seq,
                                session: self.rpc_session,
                                accomplished_query: accomplished_query(editor, source),
                            },
                        ),
                    ],
                    next: finish(),
                }
            },
        }
    }

    /// Refreshes the infoview about what is focused, or else about what it was last about.
    pub open spec fn refresh(self, editor: Editor) -> Outcome {
        let source = self.synced(editor).source(editor, true);
        if self.is_shown(editor) {
            self.refresh_from(editor, source)
        } else {
            self.open_infoview(editor, false, After::RefreshFrom(source))
        }
    }

    /// Refreshes an open infoview about the focused document, if it is `doc_id`, where that is
    /// given.
    pub open spec fn refresh_current(self, editor: Editor, doc_id: Option<DocumentId>) -> Outcome {
        let state = self.synced(editor);
        let source = state.source(editor, false);
        if !self.is_shown(editor) || state.is_focused(editor) || (source is Some && doc_id is Some
            && source->0.doc_id != doc_id) {
            Outcome { state, effects: Seq::empty(), next: finish() }
        } else {
            self.refresh_from(editor, source)
        }
    }

    /// Closes an open infoview, and opens a closed one. An infoview that is closed from a source
    /// does not open by itself for it again.
    pub open spec fn toggle(self, editor: Editor) -> Outcome {
        let state = self.synced(editor);
        if !self.is_shown(editor) {
            self.open_infoview(editor, false, After::Refresh)
        } else if state.is_focused(editor) {
            self.close(editor)
        } else {
            match state.source(editor, true) {
                Some(source) if source.doc_id is Some => Infoview {
                    auto_open_suppressed_doc: source.doc_id,
                    ..self
                }.close(editor),
                _ => self.close(editor),
            }
        }
    }
}

impl After {
    /// What has to hold for the rest to be done.
    pub open spec fn ready(self, state: Infoview, editor: Editor) -> bool {
        match self {
            After::Finish => true,
            After::Refresh => editor.has_focus() && state.numbers(state.refresh(editor)),
            After::RefreshFrom(source) => state.numbers(state.refresh_from(editor, source)),
            After::RefreshCurrent(doc_id) => state.fits(editor) && state.numbers(
                state.refresh_current(editor, doc_id),
            ),
        }
    }
}

impl Infoview {
    /// Does what is left to do.
    pub open spec fn advance(self, editor: Editor, after: After) -> Outcome {
        match after {
            After::Finish => Outcome { state: self, effects: Seq::empty(), next: finish() },
            After::Refresh => self.refresh(editor),
            After::RefreshFrom(source) => self.refresh_from(editor, source),
            After::RefreshCurrent(doc_id) => self.refresh_current(editor, doc_id),
        }
    }
}

/// A step without actions.
fn idle(next: Next) -> (step: Step)
    ensures
        step.effects() == Seq::<Effect>::empty(),
        step.next == next,
{
    let step = Step { actions: Vec::new(), next };
    assert(step.effects() =~= Seq::empty());
    step
}

/// A step with one action.
fn single(action: Action, next: Next) -> (step: Step)
    ensures
        step.effects() == seq![action@],
        step.next == next,
{
    let mut actions: Vec<Action> = Vec::new();
    actions.push(action);
    let step = Step { actions, next };
    assert(step.effects() =~= seq![action@]);
    step
}

/// The step with one more action.
fn and_also(step: Step, action: Action) -> (longer: Step)
    ensures
        longer.effects() == step.effects().push(action@),
        longer.next == step.next,
{
    let mut actions = step.actions;
    actions.push(action);
    let longer = Step { actions, next: step.next };
    assert(longer.effects() =~= step.effects().push(action@));
    longer
}

/// Opens the infoview where it is not open, and goes on with `after`.
pub fn ensure_infoview_open(editor: &Editor, state: &mut State, focus: bool, after: After) -> (step:
    Step)
    ensures
        outcome(*final(state), step) == old(state)@.open_infoview(*editor, focus, after),
{
    sync_state(editor, state);
    match (state.infoview_doc, state.infoview_view) {
        (Some(_), Some(view_id)) => if focus {
            single(Action::Focus(view_id), Next::Proceed(after))
        } else {
            idle(Next::Proceed(after))
        },
        _ => idle(Next::Create(Opening { focus, previous_focus: editor.focus, after })),
    }
}

/// Takes note of the infoview that was opened.
pub fn infoview_created(
    editor: &Editor,
    state: &mut State,
    opening: Opening,
    doc_id: DocumentId,
    view_id: ViewId,
) -> (step: Step)
    ensures
        outcome(*final(state), step) == old(state)@.with_infoview(*editor, opening, doc_id, view_id),
{
    if editor.get_document(doc_id).is_none() {
        return match opening.after {
            After::RefreshCurrent(_) => idle(Next::Proceed(opening.after)),
            _ => idle(Next::Proceed(After::Finish)),
        };
    }
    state.infoview_doc = Some(doc_id);
    state.infoview_view = Some(view_id);
    state.spans.clear();
    state.auto_open_suppressed_doc = None;
    assert(state@.spans =~= Seq::empty());
    let step = single(
        Action::SetSplitFraction { view_id, share: 2, whole: 5 },
        Next::Proceed(opening.after),
    );
    if opening.focus {
        and_also(step, Action::Focus(view_id))
    } else if editor.try_get(opening.previous_focus).is_some() {
        and_also(step, Action::Focus(opening.previous_focus))
    } else {
        match goto_target_view(editor, state, None) {
            Some(target_view) => and_also(step, Action::Focus(target_view)),
            None => step,
        }
    }
}

/// Opens the infoview where it opens by itself, and goes on with `after`.
pub fn maybe_auto_open(editor: &Editor, state: &mut State, after: After) -> (step: Step)
    requires
        old(state)@.fits(*editor),
    ensures
        outcome(*final(state), step) == old(state)@.auto_open(*editor, after),
{
    if is_infoview_doc(editor, state) {
        return idle(Next::Proceed(after));
    }
    if state.infoview_doc.is_some() {
        return idle(Next::Proceed(after));
    }
    match editor.try_get(editor.focus) {
        None => idle(Next::Proceed(after)),
        Some(pane) => {
            if is_doc(state.auto_open_suppressed_doc, pane.doc) {
                return idle(Next::Proceed(after));
            }
            match editor.get_document(pane.doc) {
                Some(doc) => if is_lean_source(doc) {
                    ensure_infoview_open(editor, state, false, after)
                } else {
                    idle(Next::Proceed(after))
                },
                None => idle(Next::Proceed(after)),
            }
        },
    }
}

/// Closes the infoview.
pub fn close_infoview(editor: &Editor, state: &mut State) -> (step: Step)
    ensures
        outcome(*final(state), step) == old(state)@.close(*editor),
{
    sync_state(editor, state);
    let doc_id = state.infoview_doc;
    state.infoview_doc = None;
    state.infoview_view = None;
    state.spans.clear();
    assert(state@.spans =~= Seq::empty());
    match doc_id {
        Some(doc_id) => single(Action::CloseDocument(doc_id), Next::Proceed(After::Finish)),
        None => idle(Next::Proceed(After::Finish)),
    }
}

/// Closes the infoview, which does not open by itself for `doc_id` again.
pub fn suppress_auto_open_for_doc(editor: &Editor, state: &mut State, doc_id: DocumentId) -> (step:
    Step)
    ensures
        outcome(*final(state), step) == (Infoview {
            auto_open_suppressed_doc: Some(doc_id),
            ..old(state)@
        }).close(*editor),
{
    state.auto_open_suppressed_doc = Some(doc_id);
    close_infoview(editor, state)
}

/// Shows a line that says how things stand.
fn say(editor: &Editor, state: &mut State, source: Option<SourceContext>, message: &str) -> (step: Step)
    ensures
        outcome(*final(state), step) == old(state)@.say(*editor, source, message@),
{
    match update_infoview_buffer(editor, state, infoview_status_payload(source, message)) {
        Some(update) => single(Action::ShowText(update), Next::Proceed(After::Finish)),
        None => idle(Next::Proceed(After::Finish)),
    }
}

/// The document and the line for which to ask whether its goals are accomplished.
pub fn current_line_goals_query(editor: &Editor, source: &SourceContext) -> (query: Option<
    (DocumentId, u32),
>)
    ensures
        query == accomplished_query(*editor, *source),
{
    match source.doc_id {
        Some(doc_id) => if editor.get_document(doc_id).is_some() {
            Some((doc_id, source.position.line))
        } else {
            None
        },
        None => None,
    }
}

/// Starts a refresh about `source`, or says why that cannot be.
pub fn refresh_from(editor: &Editor, state: &mut State, source: Option<SourceContext>) -> (step: Step)
    requires
        old(state)@.numbers(old(state)@.refresh_from(*editor, source)),
    ensures
        outcome(*final(state), step) == old(state)@.refresh_from(*editor, source),
{
    match source {
        None => say(editor, state, None, "Open a Lean buffer to populate the infoview."),
        Some(source) => {
            if !editor.is_running(source.server_id) {
                return say(editor, state, Some(source), "Lean language server is not available.");
            }
            sync_state(editor, state);
            state.request_seq = state.request_seq + 1;
            let session = match &state.rpc_session {
                Some(session) => Some(session.clone()),
                None => None,
            };
            let accomplished_query = current_line_goals_query(editor, &source);
            let job = RefreshJob {
                source,
                request_seq: state.request_seq,
                session,
                accomplished_query,
            };
            single(Action::StartRefresh(job), Next::Proceed(After::Finish))
        },
    }
}

/// Refreshes the infoview about what is focused, or else about what it was last about.
pub fn schedule_refresh(editor: &Editor, state: &mut State) -> (step: Step)
    requires
        editor.has_focus(),
        old(state)@.numbers(old(state)@.refresh(*editor)),
    ensures
        outcome(*final(state), step) == old(state)@.refresh(*editor),
{
    let source = current_source_context(editor, state, true);
    if state.infoview_doc.is_some() {
        refresh_from(editor, state, source)
    } else {
        ensure_infoview_open(editor, state, false, After::RefreshFrom(source))
    }
}

/// Refreshes an open infoview about the focused document.
pub fn maybe_auto_refresh(editor: &Editor, state: &mut State) -> (step: Step)
    requires
        old(state)@.fits(*editor),
        old(state)@.numbers(old(state)@.refresh_current(*editor, None)),
    ensures
        outcome(*final(state), step) == old(state)@.refresh_current(*editor, None),
{
    if is_infoview_doc(editor, state) || state.infoview_doc.is_none() {
        return idle(Next::Proceed(After::Finish));
    }
    if current_source_context(editor, state, false).is_some() {
        schedule_refresh(editor, state)
    } else {
        say(editor, state, None, "Open a Lean buffer to populate the infoview.")
    }
}

/// Refreshes an open infoview about the focused document, if it is `doc_id`, where that is given.
pub fn refresh_current(editor: &Editor, state: &mut State, doc_id: Option<DocumentId>) -> (step: Step)
    requires
        old(state)@.fits(*editor),
        old(state)@.numbers(old(state)@.refresh_current(*editor, doc_id)),
    ensures
        outcome(*final(state), step) == old(state)@.refresh_current(*editor, doc_id),
{
    if is_infoview_doc(editor, state) || state.infoview_doc.is_none() {
        return idle(Next::Proceed(After::Finish));
    }
    let source = current_source_context(editor, state, false);
    if let (Some(source), Some(doc_id)) = (&source, doc_id) {
        if !is_doc(source.doc_id, doc_id) {
            return idle(Next::Proceed(After::Finish));
        }
    }
    refresh_from(editor, state, source)
}

/// Opens the infoview where it opens by itself, and refreshes it about the focused document, if it
/// is `doc_id`, where that is given.
pub fn maybe_auto_refresh_editor(editor: &Editor, state: &mut State, doc_id: Option<DocumentId>) -> (step:
    Step)
    requires
        old(state)@.fits(*editor),
        old(state)@.numbers(old(state)@.refresh_current(*editor, doc_id)),
    ensures
        outcome(*final(state), step) == if old(state)@.opens_by_itself(*editor) {
            old(state)@.open_infoview(*editor, false, After::RefreshCurrent(doc_id))
        } else {
            old(state)@.refresh_current(*editor, doc_id)
        },
{
    let step = maybe_auto_open(editor, state, After::RefreshCurrent(doc_id));
    match step.next {
        Next::Create(_) => step,
        Next::Proceed(_) => refresh_current(editor, state, doc_id),
    }
}

/// Does what is left to do.
pub fn advance(editor: &Editor, state: &mut State, after: After) -> (step: Step)
    requires
        after.ready(old(state)@, *editor),
    ensures
        outcome(*final(state), step) == old(state)@.advance(*editor, after),
{
    match after {
        After::Finish => idle(Next::Proceed(After::Finish)),
        After::Refresh => schedule_refresh(editor, state),
        After::RefreshFrom(source) => refresh_from(editor, state, source),
        After::RefreshCurrent(doc_id) => refresh_current(editor, state, doc_id),
    }
}

/// Closes an open infoview, and opens a closed one.
pub fn lean_infoview_toggle(editor: &Editor, state: &mut State) -> (step: Step)
    requires
        old(state)@.fits(*editor),
    ensures
        outcome(*final(state), step) == old(state)@.toggle(*editor),
{
    if is_infoview_doc(editor, state) {
        return close_infoview(editor, state);
    }
    if state.infoview_doc.is_some() {
        if let Some(source) = current_source_context(editor, state, true) {
            if source.doc_id.is_some() {
                state.auto_open_suppressed_doc = source.doc_id;
            }
        }
        return close_infoview(editor, state);
    }
    ensure_infoview_open(editor, state, false, After::Refresh)
}

/// Opens the infoview where it is not open, focuses it, and refreshes it.
pub fn lean_infoview_focus(editor: &Editor, state: &mut State) -> (step: Step)
    ensures
        outcome(*final(state), step) == old(state)@.open_infoview(*editor, true, After::Refresh),
{
    ensure_infoview_open(editor, state, true, After::Refresh)
}

/// Opens the infoview where it is not open, and refreshes it.
pub fn lean_infoview_refresh(editor: &Editor, state: &mut State) -> (step: Step)
    ensures
        outcome(*final(state), step) == old(state)@.open_infoview(*editor, false, After::Refresh),
{
    ensure_infoview_open(editor, state, false, After::Refresh)
}

impl After {
    /// How many steps may still follow.
    pub open spec fn rank(self) -> nat {
        match self {
            After::Finish => 0,
            After::RefreshFrom(_) => 2,
            After::RefreshCurrent(_) => 2,
            After::Refresh => 4,
        }
    }
}

impl Next {
    /// How many steps may still follow.
    pub open spec fn rank(self) -> nat {
        match self {
            Next::Create(opening) => opening.after.rank() + 1,
            Next::Proceed(after) => after.rank(),
        }
    }
}

/// Every command comes to its end: each step leaves less to do than there was before it.
pub proof fn law_commands_come_to_an_end(
    state: Infoview,
    editor: Editor,
    after: After,
    opening: Opening,
    doc_id: DocumentId,
    view_id: ViewId,
)
    ensures
        after != After::Finish ==> state.advance(editor, after).next.rank() < after.rank(),
        state.advance(editor, After::Finish).next == finish(),
        state.with_infoview(editor, opening, doc_id, view_id).next.rank() < Next::Create(
            opening,
        ).rank(),
        state.toggle(editor).next.rank() <= 5,
        state.open_infoview(editor, true, After::Refresh).next.rank() <= 5,
        state.open_infoview(editor, false, After::Refresh).next.rank() <= 5,
{
}

/// A new infoview that the editor has is the one that is shown from then on, without any spans, and
/// the infoview opens by itself again.
pub proof fn law_new_infoview_is_shown(
    state: Infoview,
    editor: Editor,
    opening: Opening,
    doc_id: DocumentId,
    view_id: ViewId,
)
    requires
        editor.document(doc_id) is Some,
        editor.pane(view_id) matches Some(pane) && pane.doc == doc_id,
    ensures
        ({
            let after = state.with_infoview(editor, opening, doc_id, view_id).state;
            &&& after.is_shown(editor)
            &&& after.infoview_doc == Some(doc_id)
            &&& after.infoview_view == Some(view_id)
            &&& after.spans.len() == 0
            &&& after.auto_open_suppressed_doc is None
        }),
{
}

/// Opening the infoview where it is shown opens no second one, and forgets nothing about it.
pub proof fn law_infoview_is_opened_once(state: Infoview, editor: Editor, focus: bool, after: After)
    ensures
        state.open_infoview(editor, focus, after).next is Create <==> !state.is_shown(editor),
        state.is_shown(editor) ==> {
            &&& state.open_infoview(editor, focus, after).state.infoview_doc == state.infoview_doc
            &&& state.open_infoview(editor, focus, after).state.infoview_view
                == state.infoview_view
            &&& state.open_infoview(editor, focus, after).state.spans == state.spans
        },
{
}

/// Closing the infoview closes its document, and leaves it shown nowhere, in whatever editor.
pub proof fn law_closed_infoview_is_not_shown(state: Infoview, before: Editor, later: Editor)
    ensures
        !state.close(before).state.is_shown(later),
        state.close(before).state.spans.len() == 0,
        state.is_shown(before) ==> state.close(before).effects == seq![
            Effect::CloseDocument(state.infoview_doc->0),
        ],
{
}

/// A toggle closes an infoview that is shown, and opens one otherwise.
pub proof fn law_toggle_closes_or_opens(state: Infoview, editor: Editor, later: Editor)
    ensures
        state.is_shown(editor) ==> {
            &&& state.toggle(editor).next == finish()
            &&& state.toggle(editor).effects == seq![
                Effect::CloseDocument(state.infoview_doc->0),
            ]
            &&& !state.toggle(editor).state.is_shown(later)
        },
        !state.is_shown(editor) ==> state.toggle(editor).next == Next::Create(
            Opening { focus: false, previous_focus: editor.focus, after: After::Refresh },
        ),
{
}

/// An infoview that was closed by a toggle from a Lean document does not open by itself while that
/// document is focused, until it has been opened again.
pub proof fn law_toggled_infoview_stays_closed(
    state: Infoview,
    editor: Editor,
    later: Editor,
    after: After,
)
    requires
        state.is_shown(editor),
        !state.synced(editor).is_focused(editor),
        state.synced(editor).source(editor, true) is Some,
        later.has_focus(),
        later.focused().doc == editor.focused().doc,
    ensures
        ({
            let closed = state.toggle(editor).state;
            &&& closed.auto_open_suppressed_doc == Some(editor.focused().doc)
            &&& !closed.opens_by_itself(later)
            &&& closed.auto_open(later, after).next == Next::Proceed(after)
            &&& closed.auto_open(later, after).effects.len() == 0
        }),
{
}

/// The infoview does not open by itself for a document for which that was suppressed.
pub proof fn law_suppressed_document_stays_alone(state: Infoview, editor: Editor, doc_id: DocumentId)
    requires
        state.auto_open_suppressed_doc == Some(doc_id),
        editor.has_focus(),
        editor.focused().doc == doc_id,
    ensures
        !state.opens_by_itself(editor),
{
}

/// Every request that is started has a number of its own, one above the last, so that only the last
/// one started is shown.
pub proof fn law_requests_are_numbered(
    state: Infoview,
    editor: Editor,
    source: SourceContext,
    later: Editor,
    earlier: Refreshed,
)
    requires
        editor.runs(source.server_id),
        state.request_seq < u64::MAX,
        0 < earlier.request_seq <= state.request_seq,
    ensures
        ({
            let started = state.refresh_from(editor, Some(source));
            &&& started.state.request_seq == state.request_seq + 1
            &&& started.effects.len() == 1
            &&& started.effects[0] matches Effect::StartRefresh(job)
            &&& job.request_seq == started.state.request_seq
            &&& job.source == source
            &&& started.state.update(later, earlier) is None
        }),
{
}

/// A refresh of an open infoview from a Lean document is about that document and its cursor.
pub proof fn law_refresh_is_about_the_focused_document(state: Infoview, editor: Editor)
    requires
        state.is_shown(editor),
        !state.synced(editor).is_focused(editor),
    ensures
        match state.synced(editor).source(editor, true) {
            Some(source) => {
                &&& source.doc_id == Some(editor.focused().doc)
                &&& source.view_id == Some(editor.focused().id)
                &&& state.refresh(editor) == state.refresh_from(editor, Some(source))
                &&& state.refresh_current(editor, Some(editor.focused().doc))
                    == state.refresh(editor)
            },
            None => true,
        },
{
}

/// A new infoview gets two fifths of the split. Then it is focused where that was asked for, and
/// otherwise the focus goes back to where it was, or else to the first view of another document.
pub proof fn law_focus_goes_back(
    state: Infoview,
    editor: Editor,
    opening: Opening,
    doc_id: DocumentId,
    view_id: ViewId,
)
    requires
        editor.document(doc_id) is Some,
    ensures
        ({
            let opened = state.with_infoview(editor, opening, doc_id, view_id);
            let target = target_view(None, Some(doc_id), candidates_of(editor.panes@));
            &&& opened.effects.len() > 0
            &&& opened.effects[0] == (Effect::SetSplitFraction { view_id, share: 2, whole: 5 })
            &&& opening.focus ==> opened.effects.len() == 2 && opened.effects[1] == Effect::Focus(
                view_id,
            )
            &&& !opening.focus && editor.pane(opening.previous_focus) is Some
                ==> opened.effects.len() == 2 && opened.effects[1] == Effect::Focus(
                opening.previous_focus,
            )
            &&& !opening.focus && editor.pane(opening.previous_focus) is None && target is Some
                ==> opened.effects.len() == 2 && opened.effects[1] == Effect::Focus(target->0)
            &&& !opening.focus && editor.pane(opening.previous_focus) is None && target is None
                ==> opened.effects.len() == 1
            &&& opened.next == Next::Proceed(opening.after)
            &&& opened.state.last_source_doc == state.last_source_doc
            &&& opened.state.last_source_view == state.last_source_view
            &&& opened.state.last_source_server == state.last_source_server
            &&& opened.state.last_source_uri == state.last_source_uri
            &&& opened.state.last_source_position == state.last_source_position
            &&& opened.state.rpc_session == state.rpc_session
            &&& opened.state.request_seq == state.request_seq
        }),
{
}

/// An infoview whose document has gone is not noted, and only a refresh of an open infoview goes on.
pub proof fn law_infoview_that_has_gone_is_not_noted(
    state: Infoview,
    editor: Editor,
    opening: Opening,
    doc_id: DocumentId,
    view_id: ViewId,
)
    requires
        editor.document(doc_id) is None,
    ensures
        ({
            let opened = state.with_infoview(editor, opening, doc_id, view_id);
            &&& opened.state == state
            &&& opened.effects.len() == 0
            &&& opening.after is RefreshCurrent ==> opened.next == Next::Proceed(opening.after)
            &&& !(opening.after is RefreshCurrent) ==> opened.next == Next::Proceed(After::Finish)
        }),
{
}

/// An open infoview is focused where that is asked for, and what is left to do goes on. A closed one is
/// asked for, and the view that was focused is remembered for it.
pub proof fn law_opening_focuses_or_creates(
    state: Infoview,
    editor: Editor,
    focus: bool,
    after: After,
)
    ensures
        ({
            let opened = state.open_infoview(editor, focus, after);
            &&& opened.state == state.synced(editor)
            &&& state.is_shown(editor) ==> {
                &&& opened.next == Next::Proceed(after)
                &&& focus ==> opened.effects.len() == 1 && opened.effects[0] == Effect::Focus(
                    state.infoview_view->0,
                )
                &&& !focus ==> opened.effects.len() == 0
            }
            &&& !state.is_shown(editor) ==> {
                &&& opened.effects.len() == 0
                &&& opened.next matches Next::Create(opening)
                &&& opening.focus == focus
                &&& opening.previous_focus == editor.focus
                &&& opening.after == after
            }
        }),
{
}

/// The infoview opens by itself, unfocused, exactly where it is not shown and a Lean document with a
/// path is focused for which that is not suppressed.
pub proof fn law_infoview_opens_by_itself_for_lean(state: Infoview, editor: Editor, after: After)
    ensures
        ({
            let document = editor.document(editor.focused().doc);
            let opens = !state.is_shown(editor) && editor.pane(editor.focus) is Some
                && state.auto_open_suppressed_doc != Some(editor.focused().doc) && document is Some
                && document->0.has_path && document->0.language_name is Some
                && document->0.language_name->0@ == "lean"@;
            let opened = state.auto_open(editor, after);
            &&& state.opens_by_itself(editor) <==> opens
            &&& opened.state == state.synced(editor)
            &&& opened.effects.len() == 0
            &&& opens ==> opened.next == Next::Create(
                Opening { focus: false, previous_focus: editor.focus, after },
            )
            &&& !opens ==> opened.next == Next::Proceed(after)
        }),
{
}

/// Closing forgets where the infoview is and its spans, and nothing else that is still there.
pub proof fn law_closing_forgets_the_infoview(state: Infoview, editor: Editor)
    ensures
        ({
            let closed = state.close(editor);
            let before = state.synced(editor);
            &&& closed.state.infoview_doc is None && closed.state.infoview_view is None
                && closed.state.spans.len() == 0
            &&& closed.state.last_source_doc == before.last_source_doc
            &&& closed.state.last_source_view == before.last_source_view
            &&& closed.state.last_source_server == before.last_source_server
            &&& closed.state.last_source_uri == before.last_source_uri
            &&& closed.state.last_source_position == before.last_source_position
            &&& closed.state.rpc_session == before.rpc_session
            &&& closed.state.request_seq == before.request_seq
            &&& closed.state.auto_open_suppressed_doc == before.auto_open_suppressed_doc
            &&& closed.next == Next::Proceed(After::Finish)
            &&& state.is_shown(editor) ==> closed.effects == seq![
                Effect::CloseDocument(state.infoview_doc->0),
            ]
            &&& !state.is_shown(editor) ==> closed.effects.len() == 0
        }),
{
}

/// A refresh without a source, or with a server that does not run, says so in a shown infoview, and
/// starts nothing.
pub proof fn law_refresh_says_what_is_missing(
    state: Infoview,
    editor: Editor,
    source: Option<SourceContext>,
)
    requires
        source matches Some(place) ==> !editor.running@.contains(place.server_id),
    ensures
        ({
            let said = state.refresh_from(editor, source);
            let text = if source is None {
                "Open a Lean buffer to populate the infoview."@
            } else {
                "Lean language server is not available."@
            } + seq!['\n'];
            &&& said.next == Next::Proceed(After::Finish)
            &&& said.state == state.updated(
                editor,
                Refreshed::status(
                    source,
                    if source is None {
                        "Open a Lean buffer to populate the infoview."@
                    } else {
                        "Lean language server is not available."@
                    },
                ),
            )
            &&& said.state.request_seq == state.request_seq
            &&& state.is_shown(editor) ==> said.effects == seq![
                Effect::ShowText(
                    Update {
                        doc_id: state.infoview_doc->0,
                        view_id: state.infoview_view->0,
                        text,
                    },
                ),
            ]
            &&& !state.is_shown(editor) ==> said.effects.len() == 0
        }),
{
    let none = "Open a Lean buffer to populate the infoview."@;
    let away = "Lean language server is not available."@;
    assert(none.push('\n') =~= none + seq!['\n']);
    assert(away.push('\n') =~= away + seq!['\n']);
}

/// A refresh with a source whose server runs starts one request, about that source and within the
/// session that is there, and asks about the goals of the line where the document is open. It changes
/// nothing but the number of requests.
pub proof fn law_refresh_starts_a_request(state: Infoview, editor: Editor, source: SourceContext)
    requires
        editor.running@.contains(source.server_id),
        state.request_seq < u64::MAX,
    ensures
        ({
            let started = state.refresh_from(editor, Some(source));
            let open = source.doc_id is Some && editor.document(source.doc_id->0) is Some;
            &&& started.next == Next::Proceed(After::Finish)
            &&& started.effects.len() == 1
            &&& started.effects[0] matches Effect::StartRefresh(job)
            &&& job.source == source
            &&& job.request_seq == state.request_seq + 1
            &&& job.session == state.rpc_session
            &&& open ==> job.accomplished_query == Some((source.doc_id->0, source.position.line))
            &&& !open ==> job.accomplished_query is None
            &&& started.state.request_seq == state.request_seq + 1
            &&& (Infoview { request_seq: state.request_seq, ..started.state }) == state.synced(editor)
        }),
{
}

/// A refresh is about the source of the moment, the last one where the infoview is focused. It goes on
/// at once in a shown infoview, and else once one is there.
pub proof fn law_refresh_takes_the_source_of_the_moment(state: Infoview, editor: Editor)
    ensures
        ({
            let source = state.synced(editor).source(editor, true);
            &&& state.is_shown(editor) ==> state.refresh(editor) == state.refresh_from(editor, source)
            &&& !state.is_shown(editor) ==> state.refresh(editor) == state.open_infoview(
                editor,
                false,
                After::RefreshFrom(source),
            )
        }),
{
}

/// An infoview that is not shown, or that is focused, is not refreshed by itself, nor one about another
/// document than the one that changed. Any other is refreshed about what is focused.
pub proof fn law_open_infoview_follows_the_focus(
    state: Infoview,
    editor: Editor,
    doc_id: Option<DocumentId>,
)
    ensures
        ({
            let synced = state.synced(editor);
            let source = synced.source(editor, false);
            let followed = state.refresh_current(editor, doc_id);
            let elsewhere = source is Some && doc_id is Some && source->0.doc_id != doc_id;
            &&& !state.is_shown(editor) || state.infoview_doc == Some(editor.focused().doc)
                || elsewhere ==> followed.state == synced && followed.effects.len() == 0
                && followed.next == Next::Proceed(After::Finish)
            &&& state.is_shown(editor) && state.infoview_doc != Some(editor.focused().doc)
                && !elsewhere ==> followed == state.refresh_from(editor, source)
        }),
{
}

/// A toggle of a shown infoview keeps all that closing it keeps, and suppresses the opening by itself
/// for the document of the source, if another document than the infoview is focused.
pub proof fn law_toggle_suppresses_its_source(state: Infoview, editor: Editor)
    requires
        state.is_shown(editor),
    ensures
        ({
            let toggled = state.toggle(editor);
            let source = state.synced(editor).source(editor, true);
            let closed = state.close(editor);
            let suppresses = state.infoview_doc != Some(editor.focused().doc) && source is Some
                && source->0.doc_id is Some;
            &&& toggled.effects == closed.effects
            &&& toggled.next == closed.next
            &&& (Infoview {
                auto_open_suppressed_doc: closed.state.auto_open_suppressed_doc,
                ..toggled.state
            }) == closed.state
            &&& suppresses ==> toggled.state.auto_open_suppressed_doc == source->0.doc_id
            &&& !suppresses ==> toggled.state.auto_open_suppressed_doc
                == state.auto_open_suppressed_doc
        }),
{
}

/// What is left to do is done by the function for it.
pub proof fn law_rest_is_what_was_left(
    state: Infoview,
    editor: Editor,
    source: Option<SourceContext>,
    doc_id: Option<DocumentId>,
)
    ensures
        state.advance(editor, After::Finish).state == state,
        state.advance(editor, After::Finish).effects.len() == 0,
        state.advance(editor, After::Finish).next == Next::Proceed(After::Finish),
        state.advance(editor, After::Refresh) == state.refresh(editor),
        state.advance(editor, After::RefreshFrom(source)) == state.refresh_from(editor, source),
        state.advance(editor, After::RefreshCurrent(doc_id)) == state.refresh_current(
            editor,
            doc_id,
        ),
{
}

/// A step is its actions in their order, and what comes next.
pub proof fn law_step_is_its_actions(state: State, step: Step)
    ensures
        outcome(state, step).state == state@,
        outcome(state, step).next == step.next,
        outcome(state, step).effects.len() == step.actions@.len(),
        forall|i: int|
            0 <= i < step.actions@.len() ==> #[trigger] outcome(state, step).effects[i]
                == match step.actions@[i] {
                Action::Focus(view_id) => Effect::Focus(view_id),
                Action::CloseDocument(doc_id) => Effect::CloseDocument(doc_id),
                Action::SetSplitFraction { view_id, share, whole } => Effect::SetSplitFraction {
                    view_id,
                    share,
                    whole,
                },
                Action::ShowText(update) => Effect::ShowText(update@),
                Action::StartRefresh(job) => Effect::StartRefresh(job),
            },
{
}

} // verus!
