//! What the infoview remembers between one command and the next.
use vstd::prelude::*;
use crate::buffer::{spans_of, InfoSpan, Span};
use crate::editor::{
    find_lean_language_server, is_lean_source, DocumentId, Editor, LanguageServerId, SourceContext,
    ViewId,
};
use crate::protocol::{Position, TextDocumentIdentifier};
use crate::views::viewed;

verus! {

/// A session in which a language server answers requests.
#[derive(Debug, PartialEq, Eq)]
pub struct RpcSession {
    pub server_id: LanguageServerId,
    pub uri: String,
    pub session_id: String,
}

impl Clone for RpcSession {
    fn clone(&self) -> (copy: Self)
        ensures
            copy == *self,
    {
        RpcSession {
            server_id: self.server_id,
            uri: self.uri.clone(),
            session_id: self.session_id.clone(),
        }
    }
}

/// Where the infoview is shown, what it was last about, and the spans of its text.
#[derive(Debug)]
pub struct State {
    pub infoview_doc: Option<DocumentId>,
    pub infoview_view: Option<ViewId>,
    pub last_source_doc: Option<DocumentId>,
    pub last_source_view: Option<ViewId>,
    pub last_source_server: Option<LanguageServerId>,
    pub last_source_uri: Option<String>,
    pub last_source_position: Option<Position>,
    pub rpc_session: Option<RpcSession>,
    pub spans: Vec<InfoSpan>,
    pub request_seq: u64,
    pub auto_open_suppressed_doc: Option<DocumentId>,
}

/// The mathematical value of a [`State`].
pub struct Infoview {
    pub infoview_doc: Option<DocumentId>,
    pub infoview_view: Option<ViewId>,
    pub last_source_doc: Option<DocumentId>,
    pub last_source_view: Option<ViewId>,
    pub last_source_server: Option<LanguageServerId>,
    pub last_source_uri: Option<String>,
    pub last_source_position: Option<Position>,
    pub rpc_session: Option<RpcSession>,
    pub spans: Seq<Span>,
    pub request_seq: u64,
    pub auto_open_suppressed_doc: Option<DocumentId>,
}

impl View for State {
    type V = Infoview;

    open spec fn view(&self) -> Infoview {
        Infoview {
            infoview_doc: self.infoview_doc,
            infoview_view: self.infoview_view,
            last_source_doc: self.last_source_doc,
            last_source_view: self.last_source_view,
            last_source_server: self.last_source_server,
            last_source_uri: self.last_source_uri,
            last_source_position: self.last_source_position,
            rpc_session: self.rpc_session,
            spans: spans_of(self.spans@),
            request_seq: self.request_seq,
            auto_open_suppressed_doc: self.auto_open_suppressed_doc,
        }
    }
}

impl Default for State {
    /// Nothing is shown, and nothing is remembered.
    fn default() -> (state: Self)
        ensures
            state@ == Infoview::initial(),
    {
        let state = State {
            infoview_doc: None,
            infoview_view: None,
            last_source_doc: None,
            last_source_view: None,
            last_source_server: None,
            last_source_uri: None,
            last_source_position: None,
            rpc_session: None,
            spans: Vec::new(),
            request_seq: 0,
            auto_open_suppressed_doc: None,
        };
        assert(state@.spans =~= Seq::empty());
        state
    }
}

impl Infoview {
    /// Nothing is shown, and nothing is remembered.
    pub open spec fn initial() -> Infoview {
        Infoview {
            infoview_doc: None,
            infoview_view: None,
            last_source_doc: None,
            last_source_view: None,
            last_source_server: None,
            last_source_uri: None,
            last_source_position: None,
            rpc_session: None,
            spans: Seq::empty(),
            request_seq: 0,
            auto_open_suppressed_doc: None,
        }
    }

    /// Whether the editor still shows the infoview where it is remembered to be.
    pub open spec fn is_shown(self, editor: Editor) -> bool {
        match (self.infoview_doc, self.infoview_view) {
            (Some(doc), Some(view)) => {
                &&& editor.document(doc) is Some
                &&& editor.pane(view) matches Some(pane)
                &&& pane.doc == doc
            },
            _ => false,
        }
    }

    /// Whether the editor still has the document and the view that the infoview is about.
    pub open spec fn has_source(self, editor: Editor) -> bool {
        match (self.last_source_doc, self.last_source_view) {
            (Some(doc), Some(view)) => editor.document(doc) is Some && editor.pane(view) is Some,
            _ => true,
        }
    }

    /// The infoview is shown nowhere.
    pub open spec fn closed(self) -> Infoview {
        Infoview { infoview_doc: None, infoview_view: None, spans: Seq::empty(), ..self }
    }

    /// What is left to remember, given what the editor has.
    pub open spec fn synced(self, editor: Editor) -> Infoview {
        let shown = if self.is_shown(editor) {
            self
        } else {
            self.closed()
        };
        if self.has_source(editor) {
            shown
        } else {
            Infoview { last_source_doc: None, last_source_view: None, ..shown }
        }
    }

    /// Where the infoview is shown, the editor has a focused view whose document is open.
    pub open spec fn fits(self, editor: Editor) -> bool {
        self.is_shown(editor) ==> editor.wf()
    }

    /// Whether the focused view shows the infoview.
    pub open spec fn is_focused(self, editor: Editor) -> bool {
        self.infoview_doc == Some(editor.focused().doc)
    }

    /// The place that was last shown.
    pub open spec fn stored_source(self) -> Option<SourceContext> {
        match (self.last_source_server, self.last_source_uri, self.last_source_position) {
            (Some(server_id), Some(uri), Some(position)) => Some(
                SourceContext {
                    doc_id: self.last_source_doc,
                    view_id: self.last_source_view,
                    server_id,
                    uri,
                    position,
                    text_document: TextDocumentIdentifier { uri },
                },
            ),
            _ => None,
        }
    }

    /// The place that the infoview is to be about: that of the cursor in a Lean document, or the
    /// one last shown where the infoview itself is focused and `prefer_stored` asks for it.
    pub open spec fn source(self, editor: Editor, prefer_stored: bool) -> Option<SourceContext> {
        let pane = editor.focused();
        match editor.document(pane.doc) {
            None => None,
            Some(doc) => if self.is_focused(editor) {
                if prefer_stored {
                    self.stored_source()
                } else {
                    None
                }
            } else if !doc.is_lean_source() {
                None
            } else {
                match (doc.lean_server(), doc.url) {
                    (Some(server), Some(uri)) => Some(
                        SourceContext {
                            doc_id: Some(pane.doc),
                            view_id: Some(pane.id),
                            server_id: server.id,
                            uri,
                            position: server.cursor,
                            text_document: TextDocumentIdentifier { uri },
                        },
                    ),
                    _ => None,
                }
            },
        }
    }
}

/// What a refresh found out: a text to show, with the place that it is about.
#[derive(Debug)]
pub struct RefreshPayload {
    pub request_seq: u64,
    pub source_doc: Option<DocumentId>,
    pub source_view: Option<ViewId>,
    pub source_server: Option<LanguageServerId>,
    pub source_uri: Option<String>,
    pub source_position: Option<Position>,
    pub session: Option<RpcSession>,
    pub text: String,
    pub spans: Vec<InfoSpan>,
}

/// The mathematical value of a [`RefreshPayload`].
pub struct Refreshed {
    pub request_seq: u64,
    pub source_doc: Option<DocumentId>,
    pub source_view: Option<ViewId>,
    pub source_server: Option<LanguageServerId>,
    pub source_uri: Option<String>,
    pub source_position: Option<Position>,
    pub session: Option<RpcSession>,
    pub text: Seq<char>,
    pub spans: Seq<Span>,
}

impl View for RefreshPayload {
    type V = Refreshed;

    open spec fn view(&self) -> Refreshed {
        Refreshed {
            request_seq: self.request_seq,
            source_doc: self.source_doc,
            source_view: self.source_view,
            source_server: self.source_server,
            source_uri: self.source_uri,
            source_position: self.source_position,
            session: self.session,
            text: self.text@,
            spans: spans_of(self.spans@),
        }
    }
}

/// The text that a view of a document is to show.
#[derive(Debug, PartialEq, Eq)]
pub struct BufferUpdate {
    pub doc_id: DocumentId,
    pub view_id: ViewId,
    pub text: String,
}

/// The mathematical value of a [`BufferUpdate`].
pub struct Update {
    pub doc_id: DocumentId,
    pub view_id: ViewId,
    pub text: Seq<char>,
}

impl View for BufferUpdate {
    type V = Update;

    open spec fn view(&self) -> Update {
        Update { doc_id: self.doc_id, view_id: self.view_id, text: self.text@ }
    }
}

/// The first that is there.
pub open spec fn first_of<T>(first: Option<T>, second: Option<T>) -> Option<T> {
    if first is Some {
        first
    } else {
        second
    }
}

impl Refreshed {
    /// A refresh about `source` that found `text`.
    pub open spec fn about(
        source: SourceContext,
        request_seq: u64,
        session: Option<RpcSession>,
        text: Seq<char>,
        spans: Seq<Span>,
    ) -> Refreshed {
        Refreshed {
            request_seq,
            source_doc: source.doc_id,
            source_view: source.view_id,
            source_server: Some(source.server_id),
            source_uri: Some(source.uri),
            source_position: Some(source.position),
            session,
            text,
            spans,
        }
    }

    /// A line that says how things stand.
    pub open spec fn status(source: Option<SourceContext>, message: Seq<char>) -> Refreshed {
        match source {
            Some(source) => Refreshed::about(source, 0, None, message.push('\n'), Seq::empty()),
            None => Refreshed {
                request_seq: 0,
                source_doc: None,
                source_view: None,
                source_server: None,
                source_uri: None,
                source_position: None,
                session: None,
                text: message.push('\n'),
                spans: Seq::empty(),
            },
        }
    }
}

impl Infoview {
    /// Whether a later request than that of `payload` was made. Number zero stands for no request.
    pub open spec fn is_stale(self, payload: Refreshed) -> bool {
        self.request_seq != 0 && payload.request_seq != 0 && payload.request_seq
            != self.request_seq
    }

    /// Whether `payload` is to be shown.
    pub open spec fn takes(self, editor: Editor, payload: Refreshed) -> bool {
        self.is_shown(editor) && !self.is_stale(payload)
    }

    /// What is remembered when `payload` is shown: all that it says of its source. The session is
    /// forgotten where `payload` has a document and no session.
    pub open spec fn showing(self, payload: Refreshed) -> Infoview {
        Infoview {
            last_source_doc: first_of(payload.source_doc, self.last_source_doc),
            last_source_view: first_of(payload.source_view, self.last_source_view),
            last_source_server: first_of(payload.source_server, self.last_source_server),
            last_source_uri: first_of(payload.source_uri, self.last_source_uri),
            last_source_position: first_of(payload.source_position, self.last_source_position),
            rpc_session: if payload.source_uri is Some {
                payload.session
            } else {
                first_of(payload.session, self.rpc_session)
            },
            spans: payload.spans,
            ..self
        }
    }

    /// What is remembered after `payload` came back.
    pub open spec fn updated(self, editor: Editor, payload: Refreshed) -> Infoview {
        let state = self.synced(editor);
        if self.takes(editor, payload) {
            state.showing(payload)
        } else {
            state
        }
    }

    /// What is to be shown after `payload` came back.
    pub open spec fn update(self, editor: Editor, payload: Refreshed) -> Option<Update> {
        if self.takes(editor, payload) {
            Some(
                Update {
                    doc_id: self.infoview_doc->0,
                    view_id: self.infoview_view->0,
                    text: payload.text,
                },
            )
        } else {
            None
        }
    }
}

/// Forgets what the editor has no more.
pub fn sync_state(editor: &Editor, state: &mut State)
    ensures
        final(state)@ == old(state)@.synced(*editor),
{
    let valid = match (state.infoview_doc, state.infoview_view) {
        (Some(doc_id), Some(view_id)) => editor.get_document(doc_id).is_some() && match editor.try_get(
            view_id,
        ) {
            Some(pane) => pane.doc == doc_id,
            None => false,
        },
        _ => false,
    };
    let source_valid = match (state.last_source_doc, state.last_source_view) {
        (Some(doc_id), Some(view_id)) => editor.get_document(doc_id).is_some() && editor.try_get(
            view_id,
        ).is_some(),
        _ => true,
    };
    if !valid {
        state.infoview_doc = None;
        state.infoview_view = None;
        state.spans.clear();
        assert(state@.spans =~= Seq::empty());
    }
    if !source_valid {
        state.last_source_doc = None;
        state.last_source_view = None;
    }
}

/// Whether the focused view shows the infoview.
pub fn is_infoview_doc(editor: &Editor, state: &mut State) -> (yes: bool)
    requires
        old(state)@.fits(*editor),
    ensures
        final(state)@ == old(state)@.synced(*editor),
        yes == final(state)@.is_focused(*editor),
{
    sync_state(editor, state);
    match state.infoview_doc {
        Some(doc_id) => editor.focused_pane().doc == doc_id,
        None => false,
    }
}

/// The place that the infoview is to be about.
pub fn current_source_context(editor: &Editor, state: &mut State, prefer_stored: bool) -> (source:
    Option<SourceContext>)
    requires
        editor.has_focus(),
    ensures
        final(state)@ == old(state)@.synced(*editor),
        source == final(state)@.source(*editor, prefer_stored),
{
    sync_state(editor, state);
    let pane = editor.focused_pane();
    match editor.get_document(pane.doc) {
        None => None,
        Some(doc) => {
            let is_infoview = match state.infoview_doc {
                Some(doc_id) => doc_id == pane.doc,
                None => false,
            };
            if is_infoview {
                if !prefer_stored {
                    return None;
                }
                match (state.last_source_server, &state.last_source_uri, state.last_source_position) {
                    (Some(server_id), Some(uri), Some(position)) => Some(
                        SourceContext {
                            doc_id: state.last_source_doc,
                            view_id: state.last_source_view,
                            server_id,
                            uri: uri.clone(),
                            position,
                            text_document: TextDocumentIdentifier::new(uri.clone()),
                        },
                    ),
                    _ => None,
                }
            } else if !is_lean_source(doc) {
                None
            } else {
                match (find_lean_language_server(doc), &doc.url) {
                    (Some(server), Some(uri)) => Some(
                        SourceContext {
                            doc_id: Some(pane.doc),
                            view_id: Some(pane.id),
                            server_id: server.id,
                            uri: uri.clone(),
                            position: server.cursor,
                            text_document: TextDocumentIdentifier::new(uri.clone()),
                        },
                    ),
                    _ => None,
                }
            }
        },
    }
}

/// Takes in what a refresh found out, and says what is to be shown.
pub fn update_infoview_buffer(editor: &Editor, state: &mut State, payload: RefreshPayload) -> (update:
    Option<BufferUpdate>)
    ensures
        final(state)@ == old(state)@.updated(*editor, payload@),
        viewed(update) == old(state)@.update(*editor, payload@),
{
    sync_state(editor, state);
    if state.request_seq != 0 && payload.request_seq != 0 && payload.request_seq
        != state.request_seq {
        return None;
    }
    match (state.infoview_doc, state.infoview_view) {
        (Some(doc_id), Some(view_id)) => {
            if payload.source_doc.is_some() {
                state.last_source_doc = payload.source_doc;
            }
            if payload.source_view.is_some() {
                state.last_source_view = payload.source_view;
            }
            if payload.source_server.is_some() {
                state.last_source_server = payload.source_server;
            }
            if payload.source_position.is_some() {
                state.last_source_position = payload.source_position;
            }
            if payload.session.is_some() || payload.source_uri.is_some() {
                state.rpc_session = payload.session;
            }
            if payload.source_uri.is_some() {
                state.last_source_uri = payload.source_uri;
            }
            state.spans = payload.spans;
            Some(BufferUpdate { doc_id, view_id, text: payload.text })
        },
        _ => None,
    }
}

/// A line that says how things stand.
pub fn infoview_status_payload(source: Option<SourceContext>, message: &str) -> (payload:
    RefreshPayload)
    ensures
        payload@ == Refreshed::status(source, message@),
{
    let mut text = message.to_string();
    text.push('\n');
    let spans: Vec<InfoSpan> = Vec::new();
    assert(spans_of(spans@) =~= Seq::empty());
    match source {
        Some(source) => RefreshPayload {
            request_seq: 0,
            source_doc: source.doc_id,
            source_view: source.view_id,
            source_server: Some(source.server_id),
            source_uri: Some(source.uri),
            source_position: Some(source.position),
            session: None,
            text,
            spans,
        },
        None => RefreshPayload {
            request_seq: 0,
            source_doc: None,
            source_view: None,
            source_server: None,
            source_uri: None,
            source_position: None,
            session: None,
            text,
            spans,
        },
    }
}

/// Forgetting what the editor has no more is done once and for all, and what is still remembered
/// of the infoview is shown.
pub proof fn law_sync_is_done_at_once(state: Infoview, editor: Editor)
    ensures
        state.synced(editor).synced(editor) == state.synced(editor),
        state.synced(editor).infoview_doc is Some <==> state.is_shown(editor),
        state.synced(editor).infoview_view is Some <==> state.is_shown(editor),
        state.synced(editor).is_shown(editor) == state.is_shown(editor),
        state.synced(editor).has_source(editor),
{
}

/// What comes back from any request but the last is not shown, and changes nothing.
pub proof fn law_stale_payload_is_ignored(state: Infoview, editor: Editor, payload: Refreshed)
    requires
        state.request_seq != 0,
        payload.request_seq != 0,
        payload.request_seq != state.request_seq,
    ensures
        state.updated(editor, payload) == state.synced(editor),
        state.update(editor, payload) is None,
{
}

/// What comes back from the last request is shown, as long as the infoview is.
pub proof fn law_last_payload_is_shown(state: Infoview, editor: Editor, payload: Refreshed)
    requires
        payload.request_seq == state.request_seq,
        state.is_shown(editor),
    ensures
        state.update(editor, payload) == Some(
            Update {
                doc_id: state.infoview_doc->0,
                view_id: state.infoview_view->0,
                text: payload.text,
            },
        ),
        state.updated(editor, payload).spans == payload.spans,
        state.updated(editor, payload).request_seq == state.request_seq,
{
}

/// The source of what is shown is what a focused infoview is about from then on.
pub proof fn law_shown_source_is_remembered(
    state: Infoview,
    editor: Editor,
    source: SourceContext,
    request_seq: u64,
    session: Option<RpcSession>,
    text: Seq<char>,
    spans: Seq<Span>,
)
    requires
        source.doc_id is Some,
        source.view_id is Some,
        state.takes(editor, Refreshed::about(source, request_seq, session, text, spans)),
    ensures
        ({
            let payload = Refreshed::about(source, request_seq, session, text, spans);
            let after = state.updated(editor, payload);
            &&& after.rpc_session == session
            &&& after.stored_source() == Some(
                SourceContext {
                    text_document: TextDocumentIdentifier { uri: source.uri },
                    ..source
                },
            )
        }),
{
}

/// What is shown never moves the infoview, and never starts a request.
pub proof fn law_update_keeps_the_infoview(state: Infoview, editor: Editor, payload: Refreshed)
    ensures
        ({
            let after = state.updated(editor, payload);
            let synced = state.synced(editor);
            &&& after.infoview_doc == synced.infoview_doc
            &&& after.infoview_view == synced.infoview_view
            &&& after.request_seq == state.request_seq
            &&& after.auto_open_suppressed_doc == state.auto_open_suppressed_doc
        }),
{
}

/// The infoview is shown where the editor has its document, and its view shows that document.
pub proof fn law_infoview_is_shown_where_the_editor_has_it(state: Infoview, editor: Editor)
    ensures
        state.is_shown(editor) <==> state.infoview_doc is Some && state.infoview_view is Some
            && editor.document(state.infoview_doc->0) is Some && editor.pane(
            state.infoview_view->0,
        ) is Some && editor.pane(state.infoview_view->0)->0.doc == state.infoview_doc->0,
{
}

/// Of the infoview all is kept while it is shown, and nothing else. The document and the view of the
/// source are forgotten together, once one of them has gone. All else is kept.
pub proof fn law_sync_forgets_only_what_has_gone(state: Infoview, editor: Editor)
    ensures
        ({
            let after = state.synced(editor);
            let gone = state.last_source_doc is Some && state.last_source_view is Some && (
            editor.document(state.last_source_doc->0) is None || editor.pane(
                state.last_source_view->0,
            ) is None);
            &&& state.is_shown(editor) ==> after.infoview_doc == state.infoview_doc
                && after.infoview_view == state.infoview_view && after.spans == state.spans
            &&& !state.is_shown(editor) ==> after.infoview_doc is None && after.infoview_view is None
                && after.spans.len() == 0
            &&& gone ==> after.last_source_doc is None && after.last_source_view is None
            &&& !gone ==> after.last_source_doc == state.last_source_doc && after.last_source_view
                == state.last_source_view
            &&& after.last_source_server == state.last_source_server
            &&& after.last_source_uri == state.last_source_uri
            &&& after.last_source_position == state.last_source_position
            &&& after.rpc_session == state.rpc_session
            &&& after.request_seq == state.request_seq
            &&& after.auto_open_suppressed_doc == state.auto_open_suppressed_doc
        }),
{
}

/// A focused Lean document with a path, a server and a URL is the source, at the cursor as the server
/// counts. Any other document is none.
pub proof fn law_focused_lean_document_is_the_source(
    state: Infoview,
    editor: Editor,
    prefer_stored: bool,
)
    requires
        state.infoview_doc != Some(editor.focused().doc),
    ensures
        ({
            let source = state.source(editor, prefer_stored);
            let document = editor.document(editor.focused().doc);
            let found = document is Some && document->0.has_path
                && document->0.language_name is Some && document->0.language_name->0@ == "lean"@
                && document->0.lean_server() is Some && document->0.url is Some;
            &&& source is Some <==> found
            &&& source matches Some(place) ==> {
                &&& place.doc_id == Some(editor.focused().doc)
                &&& place.view_id == Some(editor.focused().id)
                &&& place.server_id == document->0.lean_server()->0.id
                &&& place.position == document->0.lean_server()->0.cursor
                &&& place.uri == document->0.url->0
                &&& place.text_document.uri == document->0.url->0
            }
        }),
{
}

/// A focused infoview has the source that it was last about, where that is asked for and known, and
/// else none.
pub proof fn law_focused_infoview_has_its_last_source(
    state: Infoview,
    editor: Editor,
    prefer_stored: bool,
)
    requires
        state.infoview_doc == Some(editor.focused().doc),
        editor.document(editor.focused().doc) is Some,
    ensures
        ({
            let source = state.source(editor, prefer_stored);
            &&& source is Some <==> prefer_stored && state.last_source_server is Some
                && state.last_source_uri is Some && state.last_source_position is Some
            &&& source matches Some(place) ==> {
                &&& place.doc_id == state.last_source_doc
                &&& place.view_id == state.last_source_view
                &&& place.server_id == state.last_source_server->0
                &&& place.position == state.last_source_position->0
                &&& place.uri == state.last_source_uri->0
                &&& place.text_document.uri == state.last_source_uri->0
            }
        }),
{
}

/// What came back is shown in a shown infoview, unless both it and the last request have numbers, and
/// these differ.
pub proof fn law_payload_is_shown_unless_stale(state: Infoview, editor: Editor, payload: Refreshed)
    ensures
        state.update(editor, payload) is Some <==> state.is_shown(editor) && (state.request_seq == 0
            || payload.request_seq == 0 || payload.request_seq == state.request_seq),
        state.update(editor, payload) matches Some(update) ==> {
            &&& Some(update.doc_id) == state.infoview_doc
            &&& Some(update.view_id) == state.infoview_view
            &&& update.text == payload.text
        },
        state.update(editor, payload) is None ==> state.updated(editor, payload) == state.synced(
            editor,
        ),
{
}

/// What is shown replaces the spans, and all that it says of its source. What it does not say is kept,
/// but for a session where it says the document alone.
pub proof fn law_payload_replaces_what_it_says(state: Infoview, editor: Editor, payload: Refreshed)
    requires
        state.update(editor, payload) is Some,
    ensures
        ({
            let before = state.synced(editor);
            let after = state.updated(editor, payload);
            &&& after.spans == payload.spans
            &&& after.last_source_doc == if payload.source_doc is Some {
                payload.source_doc
            } else {
                before.last_source_doc
            }
            &&& after.last_source_view == if payload.source_view is Some {
                payload.source_view
            } else {
                before.last_source_view
            }
            &&& after.last_source_server == if payload.source_server is Some {
                payload.source_server
            } else {
                before.last_source_server
            }
            &&& after.last_source_uri == if payload.source_uri is Some {
                payload.source_uri
            } else {
                before.last_source_uri
            }
            &&& after.last_source_position == if payload.source_position is Some {
                payload.source_position
            } else {
                before.last_source_position
            }
            &&& after.rpc_session == if payload.session is Some {
                payload.session
            } else if payload.source_uri is Some {
                None
            } else {
                before.rpc_session
            }
            &&& after.infoview_doc == before.infoview_doc
            &&& after.infoview_view == before.infoview_view
            &&& after.request_seq == before.request_seq
            &&& after.auto_open_suppressed_doc == before.auto_open_suppressed_doc
        }),
{
}

/// A status is one line, without spans, a session or a number, and says of its source all that there
/// is to say. What a refresh found is said with its number, its session, its text and its spans.
pub proof fn law_payloads_say_where_they_are_from(
    source: SourceContext,
    message: Seq<char>,
    request_seq: u64,
    session: Option<RpcSession>,
    text: Seq<char>,
    spans: Seq<Span>,
)
    ensures
        ({
            let bare = Refreshed::status(None, message);
            &&& bare.text == message + seq!['\n']
            &&& bare.spans.len() == 0 && bare.request_seq == 0 && bare.session is None
            &&& bare.source_doc is None && bare.source_view is None && bare.source_server is None
                && bare.source_uri is None && bare.source_position is None
        }),
        Refreshed::status(Some(source), message) == Refreshed::about(
            source,
            0,
            None,
            message + seq!['\n'],
            Seq::empty(),
        ),
        ({
            let found = Refreshed::about(source, request_seq, session, text, spans);
            &&& found.request_seq == request_seq && found.session == session && found.text == text
                && found.spans == spans
            &&& found.source_doc == source.doc_id && found.source_view == source.view_id
            &&& found.source_server == Some(source.server_id) && found.source_uri == Some(source.uri)
                && found.source_position == Some(source.position)
        }),
{
    assert(message.push('\n') =~= message + seq!['\n']);
}

/// States, payloads and updates are what they hold.
pub proof fn law_states_are_what_they_hold(
    state: State,
    payload: RefreshPayload,
    update: BufferUpdate,
)
    ensures
        state@.infoview_doc == state.infoview_doc,
        state@.infoview_view == state.infoview_view,
        state@.last_source_doc == state.last_source_doc,
        state@.last_source_view == state.last_source_view,
        state@.last_source_server == state.last_source_server,
        state@.last_source_uri == state.last_source_uri,
        state@.last_source_position == state.last_source_position,
        state@.rpc_session == state.rpc_session,
        state@.request_seq == state.request_seq,
        state@.auto_open_suppressed_doc == state.auto_open_suppressed_doc,
        state@.spans.len() == state.spans@.len(),
        forall|i: int|
            0 <= i < state.spans@.len() ==> #[trigger] state@.spans[i] == state.spans@[i]@,
        payload@.request_seq == payload.request_seq,
        payload@.source_doc == payload.source_doc,
        payload@.source_view == payload.source_view,
        payload@.source_server == payload.source_server,
        payload@.source_uri == payload.source_uri,
        payload@.source_position == payload.source_position,
        payload@.session == payload.session,
        payload@.text == payload.text@,
        payload@.spans.len() == payload.spans@.len(),
        forall|i: int|
            0 <= i < payload.spans@.len() ==> #[trigger] payload@.spans[i] == payload.spans@[i]@,
        update@.doc_id == update.doc_id,
        update@.view_id == update.view_id,
        update@.text == update.text@,
{
}

/// At first nothing is shown, remembered, suppressed or asked for.
pub proof fn law_nothing_is_remembered_at_first(editor: Editor)
    ensures
        ({
            let first = Infoview::initial();
            &&& !first.is_shown(editor)
            &&& first.last_source_doc is None && first.last_source_view is None
                && first.last_source_server is None && first.last_source_uri is None
                && first.last_source_position is None
            &&& first.rpc_session is None && first.spans.len() == 0 && first.request_seq == 0
            &&& first.auto_open_suppressed_doc is None
            &&& first.synced(editor) == first
        }),
{
}

} // verus!
