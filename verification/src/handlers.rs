//! What the events of the editor lead to.
use vstd::prelude::*;
use crate::editor::{DocumentId, Editor};
use crate::lean_infoview::{
    maybe_auto_open, maybe_auto_refresh, maybe_auto_refresh_editor, outcome, After, Next, Outcome,
    Step,
};
use crate::state::{Infoview, State};

verus! {

/// An event of the editor.
#[derive(Clone, Copy, Debug, PartialEq, Eq, Structural)]
pub enum Event {
    DocumentDidOpen,
    LanguageServerInitialized,
    DiagnosticsDidChange(DocumentId),
    PostCommand,
    PostInsertChar,
}

impl Event {
    /// Whether the event leads to a refresh.
    pub open spec fn refreshes(self) -> bool {
        !(self is DocumentDidOpen) && !(self is LanguageServerInitialized)
    }

    /// The document that has to be focused for a refresh, where it has to be a certain one.
    pub open spec fn document(self) -> Option<DocumentId> {
        match self {
            Event::DiagnosticsDidChange(doc_id) => Some(doc_id),
            _ => None,
        }
    }
}

impl Infoview {
    /// Opens the infoview where it opens by itself, and refreshes it where the event asks for that.
    pub open spec fn react(self, editor: Editor, event: Event) -> Outcome {
        if !event.refreshes() {
            self.auto_open(editor, After::Finish)
        } else if self.opens_by_itself(editor) {
            self.auto_open(editor, After::RefreshCurrent(event.document()))
        } else {
            self.refresh_current(editor, event.document())
        }
    }
}

/// What an event leads to.
pub fn handle_event(editor: &Editor, state: &mut State, event: Event) -> (step: Step)
    requires
        old(state)@.fits(*editor),
        old(state)@.numbers(old(state)@.react(*editor, event)),
    ensures
        outcome(*final(state), step) == old(state)@.react(*editor, event),
{
    match event {
        Event::DocumentDidOpen => maybe_auto_open(editor, state, After::Finish),
        Event::LanguageServerInitialized => maybe_auto_open(editor, state, After::Finish),
        Event::DiagnosticsDidChange(doc_id) => maybe_auto_refresh_editor(
            editor,
            state,
            Some(doc_id),
        ),
        Event::PostCommand => open_and_refresh(editor, state),
        Event::PostInsertChar => open_and_refresh(editor, state),
    }
}

/// Opens the infoview where it opens by itself, and refreshes it about the focused document.
fn open_and_refresh(editor: &Editor, state: &mut State) -> (step: Step)
    requires
        old(state)@.fits(*editor),
        old(state)@.numbers(old(state)@.refresh_current(*editor, None)),
    ensures
        outcome(*final(state), step) == if old(state)@.opens_by_itself(*editor) {
            old(state)@.auto_open(*editor, After::RefreshCurrent(None))
        } else {
            old(state)@.refresh_current(*editor, None)
        },
{
    let step = maybe_auto_open(editor, state, After::RefreshCurrent(None));
    match step.next {
        Next::Create(_) => step,
        Next::Proceed(_) => maybe_auto_refresh(editor, state),
    }
}

/// An opened document and a started server open the infoview where it opens by itself, and refresh
/// nothing. Everything else opens it, too, and refreshes an open one: changed diagnostics only where
/// theirs is the focused document, a command or a character wherever.
pub proof fn law_events_open_and_refresh(state: Infoview, editor: Editor, doc_id: DocumentId)
    ensures
        state.react(editor, Event::DocumentDidOpen) == state.auto_open(editor, After::Finish),
        state.react(editor, Event::LanguageServerInitialized) == state.auto_open(
            editor,
            After::Finish,
        ),
        !state.opens_by_itself(editor) ==> {
            &&& state.react(editor, Event::DiagnosticsDidChange(doc_id)) == state.refresh_current(
                editor,
                Some(doc_id),
            )
            &&& state.react(editor, Event::PostCommand) == state.refresh_current(editor, None)
            &&& state.react(editor, Event::PostInsertChar) == state.refresh_current(editor, None)
        },
        state.opens_by_itself(editor) ==> {
            &&& state.react(editor, Event::DiagnosticsDidChange(doc_id)) == state.auto_open(
                editor,
                After::RefreshCurrent(Some(doc_id)),
            )
            &&& state.react(editor, Event::PostCommand) == state.auto_open(
                editor,
                After::RefreshCurrent(None),
            )
            &&& state.react(editor, Event::PostInsertChar) == state.auto_open(
                editor,
                After::RefreshCurrent(None),
            )
        },
{
}

} // verus!
