use lean_support::buffer::InfoSpan;
use lean_support::editor::{
    Document, DocumentId, Editor, LanguageServer, LanguageServerId, Pane, SourceContext, ViewId,
};
use lean_support::goto::{
    goto_from_infoview, goto_locations, line_end, lookup_info_at_cursor, CursorLine, GotoReply,
    GotoStart, LeanGotoLocation,
};
use lean_support::handlers::{handle_event, Event};
use lean_support::json::{Member, Value};
use lean_support::lean_infoview::{
    advance, close_infoview, infoview_created, lean_infoview_focus, lean_infoview_refresh,
    lean_infoview_toggle, maybe_auto_open, maybe_auto_refresh, maybe_auto_refresh_editor,
    suppress_auto_open_for_doc, Action, After, Next, Opening, RefreshJob, Step, INFOVIEW_TITLE,
};
use lean_support::protocol::{Location, Position, Range, TextDocumentIdentifier};
use lean_support::state::{
    current_source_context, infoview_status_payload, is_infoview_doc, sync_state,
    update_infoview_buffer, BufferUpdate, RefreshPayload, RpcSession, State,
};

const LEAN: DocumentId = DocumentId(1);
const OTHER: DocumentId = DocumentId(2);
const INFO: DocumentId = DocumentId(9);
const LEAN_VIEW: ViewId = ViewId(11);
const OTHER_VIEW: ViewId = ViewId(12);
const INFO_VIEW: ViewId = ViewId(19);
const SERVER: LanguageServerId = LanguageServerId(5);

fn document(id: DocumentId, language: Option<&str>, url: Option<&str>) -> Document {
    Document {
        id,
        has_path: url.is_some(),
        language_name: language.map(|name| name.to_string()),
        url: url.map(|url| url.to_string()),
        language_servers: vec![],
    }
}

fn server(id: LanguageServerId, name: &str, line: u32) -> LanguageServer {
    LanguageServer { id, name: name.to_string(), cursor: Position::new(line, 0) }
}

/// A Lean document and another one, without an infoview.
fn editor() -> Editor {
    let mut lean = document(LEAN, Some("lean"), Some("file:///a.lean"));
    lean.language_servers =
        vec![server(LanguageServerId(4), "spelling", 1), server(SERVER, "lean", 2)];
    Editor {
        documents: vec![lean, document(OTHER, Some("rust"), Some("file:///b.rs"))],
        panes: vec![Pane { id: LEAN_VIEW, doc: LEAN }, Pane { id: OTHER_VIEW, doc: OTHER }],
        focus: LEAN_VIEW,
        running: vec![LanguageServerId(4), SERVER],
    }
}

/// The editor with the infoview in it.
fn editor_with_infoview() -> Editor {
    let mut editor = editor();
    editor.documents.push(document(INFO, None, None));
    editor.panes.push(Pane { id: INFO_VIEW, doc: INFO });
    editor
}

fn shown_state() -> State {
    State { infoview_doc: Some(INFO), infoview_view: Some(INFO_VIEW), ..State::default() }
}

fn lean_source() -> SourceContext {
    SourceContext {
        doc_id: Some(LEAN),
        view_id: Some(LEAN_VIEW),
        server_id: SERVER,
        uri: "file:///a.lean".to_string(),
        position: Position::new(2, 0),
        text_document: TextDocumentIdentifier::new("file:///a.lean".to_string()),
    }
}

fn session() -> RpcSession {
    RpcSession {
        server_id: SERVER,
        uri: "file:///a.lean".to_string(),
        session_id: "id".to_string(),
    }
}

fn finished(actions: Vec<Action>) -> Step {
    Step { actions, next: Next::Proceed(After::Finish) }
}

fn show(text: &str) -> Action {
    Action::ShowText(BufferUpdate { doc_id: INFO, view_id: INFO_VIEW, text: text.to_string() })
}

fn start(request_seq: u64, session: Option<RpcSession>) -> Action {
    Action::StartRefresh(RefreshJob {
        source: lean_source(),
        request_seq,
        session,
        accomplished_query: Some((LEAN, 2)),
    })
}

fn payload(request_seq: u64, session: Option<RpcSession>) -> RefreshPayload {
    RefreshPayload {
        request_seq,
        source_doc: Some(LEAN),
        source_view: Some(LEAN_VIEW),
        source_server: Some(SERVER),
        source_uri: Some("file:///a.lean".to_string()),
        source_position: Some(Position::new(2, 0)),
        session,
        text: "⊢ x\n".to_string(),
        spans: vec![InfoSpan { start: 2, end: 3, info: Value::Text("info".to_string()) }],
    }
}

#[test]
fn the_infoview_has_a_title() {
    assert_eq!(INFOVIEW_TITLE, "Lean Infoview");
}

#[test]
fn what_the_editor_has_no_more_is_forgotten() {
    let mut state = shown_state();
    state.last_source_doc = Some(LEAN);
    state.last_source_view = Some(LEAN_VIEW);
    state.spans.push(InfoSpan { start: 0, end: 1, info: Value::Null });
    sync_state(&editor_with_infoview(), &mut state);
    assert_eq!(state.infoview_doc, Some(INFO));
    assert_eq!(state.spans.len(), 1);
    sync_state(&editor(), &mut state);
    assert_eq!((state.infoview_doc, state.infoview_view), (None, None));
    assert!(state.spans.is_empty());
    assert_eq!(state.last_source_doc, Some(LEAN));

    // A view that shows another document is not the infoview.
    let mut editor = editor_with_infoview();
    editor.panes[2].doc = OTHER;
    let mut state = shown_state();
    sync_state(&editor, &mut state);
    assert_eq!(state.infoview_doc, None);

    let mut editor = editor_with_infoview();
    editor.panes.remove(0);
    let mut state = shown_state();
    state.last_source_doc = Some(LEAN);
    state.last_source_view = Some(LEAN_VIEW);
    state.last_source_server = Some(SERVER);
    sync_state(&editor, &mut state);
    assert_eq!((state.last_source_doc, state.last_source_view), (None, None));
    assert_eq!(state.last_source_server, Some(SERVER));
    assert_eq!(state.infoview_doc, Some(INFO));
}

#[test]
fn the_source_is_the_focused_lean_document() {
    let mut state = shown_state();
    let mut editor = editor_with_infoview();
    assert!(!is_infoview_doc(&editor, &mut state));
    assert_eq!(current_source_context(&editor, &mut state, false), Some(lean_source()));
    assert_eq!(current_source_context(&editor, &mut state, true), Some(lean_source()));
    editor.documents[0].language_servers.remove(1);
    let first = current_source_context(&editor, &mut state, true).unwrap();
    assert_eq!((first.server_id, first.position), (LanguageServerId(4), Position::new(1, 0)));
    editor.documents[0].language_servers.clear();
    assert_eq!(current_source_context(&editor, &mut state, true), None);
    editor.focus = OTHER_VIEW;
    assert_eq!(current_source_context(&editor, &mut state, true), None);
}

#[test]
fn the_source_needs_a_path_and_a_url() {
    let mut state = State::default();
    let mut editor = editor();
    editor.documents[0].has_path = false;
    assert_eq!(current_source_context(&editor, &mut state, true), None);
    editor.documents[0].has_path = true;
    editor.documents[0].url = None;
    assert_eq!(current_source_context(&editor, &mut state, true), None);
    editor.documents.remove(0);
    assert_eq!(current_source_context(&editor, &mut state, true), None);
}

#[test]
fn a_focused_infoview_is_about_what_it_was_about() {
    let mut state = shown_state();
    let mut editor = editor_with_infoview();
    editor.focus = INFO_VIEW;
    assert!(is_infoview_doc(&editor, &mut state));
    assert_eq!(current_source_context(&editor, &mut state, true), None);
    let update = update_infoview_buffer(&editor, &mut state, payload(0, Some(session())));
    assert_eq!(update.unwrap().text, "⊢ x\n");
    assert_eq!(current_source_context(&editor, &mut state, true), Some(lean_source()));
    assert_eq!(current_source_context(&editor, &mut state, false), None);
}

#[test]
fn only_the_last_request_is_shown() {
    let editor = editor_with_infoview();
    let mut state = shown_state();
    state.request_seq = 7;
    assert_eq!(update_infoview_buffer(&editor, &mut state, payload(6, None)), None);
    assert_eq!(state.last_source_doc, None);
    assert!(state.spans.is_empty());
    assert_eq!(
        update_infoview_buffer(&editor, &mut state, payload(7, Some(session()))),
        Some(BufferUpdate { doc_id: INFO, view_id: INFO_VIEW, text: "⊢ x\n".to_string() })
    );
    assert_eq!(state.spans.len(), 1);
    assert_eq!(state.rpc_session, Some(session()));
    assert!(update_infoview_buffer(&editor, &mut state, payload(0, None)).is_some());
    assert_eq!(state.rpc_session, None);
    state.request_seq = 0;
    assert!(update_infoview_buffer(&editor, &mut state, payload(3, None)).is_some());
    assert_eq!(update_infoview_buffer(&self::editor(), &mut state, payload(3, None)), None);
}

#[test]
fn a_status_without_source_keeps_the_source() {
    let editor = editor_with_infoview();
    let mut state = shown_state();
    update_infoview_buffer(&editor, &mut state, payload(0, Some(session())));
    let status = infoview_status_payload(None, "Wait.");
    assert_eq!(update_infoview_buffer(&editor, &mut state, status).unwrap().text, "Wait.\n");
    assert_eq!(state.last_source_uri.as_deref(), Some("file:///a.lean"));
    assert_eq!(state.rpc_session, Some(session()));
    assert!(state.spans.is_empty());
    let status = infoview_status_payload(Some(lean_source()), "Wait.");
    update_infoview_buffer(&editor, &mut state, status);
    assert_eq!(state.rpc_session, None);
}

#[test]
fn toggling_opens_then_refreshes() {
    let mut state = State::default();
    state.auto_open_suppressed_doc = Some(LEAN);
    let step = lean_infoview_toggle(&editor(), &mut state);
    let opening = Opening { focus: false, previous_focus: LEAN_VIEW, after: After::Refresh };
    assert_eq!(step, Step { actions: vec![], next: Next::Create(opening) });

    let opening = Opening { focus: false, previous_focus: LEAN_VIEW, after: After::Refresh };
    let mut editor = editor_with_infoview();
    editor.focus = INFO_VIEW;
    let step = infoview_created(&editor, &mut state, opening, INFO, INFO_VIEW);
    assert_eq!(
        step,
        Step {
            actions: vec![
                Action::SetSplitFraction { view_id: INFO_VIEW, share: 2, whole: 5 },
                Action::Focus(LEAN_VIEW),
            ],
            next: Next::Proceed(After::Refresh),
        }
    );
    assert_eq!((state.infoview_doc, state.infoview_view), (Some(INFO), Some(INFO_VIEW)));
    assert_eq!(state.auto_open_suppressed_doc, None);

    editor.focus = LEAN_VIEW;
    assert_eq!(advance(&editor, &mut state, After::Refresh), finished(vec![start(1, None)]));
    assert_eq!(state.request_seq, 1);
    assert_eq!(advance(&editor, &mut state, After::Finish), finished(vec![]));
}

#[test]
fn toggling_an_open_infoview_closes_it_for_good() {
    let mut state = shown_state();
    let step = lean_infoview_toggle(&editor_with_infoview(), &mut state);
    assert_eq!(step, finished(vec![Action::CloseDocument(INFO)]));
    assert_eq!(state.infoview_doc, None);
    assert_eq!(state.auto_open_suppressed_doc, Some(LEAN));
    assert_eq!(maybe_auto_open(&editor(), &mut state, After::Finish), finished(vec![]));

    // From the infoview itself nothing is suppressed, nor from another document.
    let mut state = shown_state();
    let mut editor = editor_with_infoview();
    editor.focus = INFO_VIEW;
    let step = lean_infoview_toggle(&editor, &mut state);
    assert_eq!(step, finished(vec![Action::CloseDocument(INFO)]));
    assert_eq!(state.auto_open_suppressed_doc, None);
    let mut state = shown_state();
    editor.focus = OTHER_VIEW;
    let step = lean_infoview_toggle(&editor, &mut state);
    assert_eq!(step, finished(vec![Action::CloseDocument(INFO)]));
    assert_eq!(state.auto_open_suppressed_doc, None);
}

#[test]
fn focusing_opens_or_moves_the_focus() {
    let mut state = shown_state();
    assert_eq!(
        lean_infoview_focus(&editor_with_infoview(), &mut state),
        Step { actions: vec![Action::Focus(INFO_VIEW)], next: Next::Proceed(After::Refresh) }
    );
    let mut state = State::default();
    let step = lean_infoview_focus(&editor(), &mut state);
    let opening = Opening { focus: true, previous_focus: LEAN_VIEW, after: After::Refresh };
    assert_eq!(step, Step { actions: vec![], next: Next::Create(opening) });
    let opening = Opening { focus: true, previous_focus: LEAN_VIEW, after: After::Refresh };
    let step = infoview_created(&editor_with_infoview(), &mut state, opening, INFO, INFO_VIEW);
    assert_eq!(step.actions[1], Action::Focus(INFO_VIEW));
}

#[test]
fn the_focus_falls_back_to_another_view() {
    let opening = || Opening { focus: false, previous_focus: ViewId(99), after: After::Finish };
    let mut editor = editor_with_infoview();
    let step = infoview_created(&editor, &mut State::default(), opening(), INFO, INFO_VIEW);
    assert_eq!(step.actions[1], Action::Focus(LEAN_VIEW));
    editor.panes = vec![Pane { id: INFO_VIEW, doc: INFO }];
    let step = infoview_created(&editor, &mut State::default(), opening(), INFO, INFO_VIEW);
    assert_eq!(step.actions.len(), 1);
}

#[test]
fn an_infoview_that_has_gone_again_is_not_noted() {
    let gone = |after: After| {
        let mut state = State::default();
        let opening = Opening { focus: true, previous_focus: LEAN_VIEW, after };
        let step = infoview_created(&editor(), &mut state, opening, INFO, INFO_VIEW);
        assert_eq!(state.infoview_doc, None);
        step
    };
    assert_eq!(gone(After::Refresh), finished(vec![]));
    assert_eq!(
        gone(After::RefreshCurrent(None)),
        Step { actions: vec![], next: Next::Proceed(After::RefreshCurrent(None)) }
    );
}

#[test]
fn refreshing_says_what_is_missing() {
    let mut state = shown_state();
    let mut editor = editor_with_infoview();
    assert_eq!(
        lean_infoview_refresh(&editor, &mut state),
        Step { actions: vec![], next: Next::Proceed(After::Refresh) }
    );
    editor.running.clear();
    assert_eq!(
        advance(&editor, &mut state, After::Refresh),
        finished(vec![show("Lean language server is not available.\n")])
    );
    assert_eq!(state.last_source_doc, Some(LEAN));
    editor.focus = OTHER_VIEW;
    assert_eq!(
        advance(&editor, &mut state, After::Refresh),
        finished(vec![show("Open a Lean buffer to populate the infoview.\n")])
    );
    assert_eq!(state.request_seq, 0);
    assert_eq!(
        advance(&editor, &mut State::default(), After::RefreshFrom(None)),
        finished(vec![])
    );
}

#[test]
fn refreshing_a_closed_infoview_opens_it_about_the_source() {
    let mut state = State::default();
    let step = advance(&editor(), &mut state, After::Refresh);
    let after = After::RefreshFrom(Some(lean_source()));
    let opening = Opening { focus: false, previous_focus: LEAN_VIEW, after };
    assert_eq!(step, Step { actions: vec![], next: Next::Create(opening) });
}

#[test]
fn a_refresh_takes_the_session_along() {
    let mut state = shown_state();
    state.rpc_session = Some(session());
    state.request_seq = 41;
    assert_eq!(
        advance(&editor_with_infoview(), &mut state, After::RefreshFrom(Some(lean_source()))),
        finished(vec![start(42, Some(session()))])
    );
    // A source whose document has gone has no line to ask about.
    let mut source = lean_source();
    source.doc_id = Some(DocumentId(77));
    let step = advance(&editor_with_infoview(), &mut state, After::RefreshFrom(Some(source)));
    match &step.actions[0] {
        Action::StartRefresh(job) => assert_eq!(job.accomplished_query, None),
        _ => panic!("not a refresh"),
    }
}

#[test]
fn the_infoview_opens_by_itself_for_lean() {
    let opened = |editor: &Editor, state: &mut State| {
        matches!(maybe_auto_open(editor, state, After::Finish).next, Next::Create(_))
    };
    let mut editor = editor();
    assert!(opened(&editor, &mut State::default()));
    editor.focus = OTHER_VIEW;
    assert!(!opened(&editor, &mut State::default()));
    editor.focus = ViewId(99);
    assert!(!opened(&editor, &mut State::default()));
    assert!(!opened(&editor_with_infoview(), &mut shown_state()));
    let mut editor = editor_with_infoview();
    editor.focus = INFO_VIEW;
    assert!(!opened(&editor, &mut shown_state()));
    editor.focus = LEAN_VIEW;
    editor.documents[0].has_path = false;
    assert!(!opened(&editor, &mut State::default()));
}

#[test]
fn suppressing_closes_and_keeps_closed() {
    let mut state = shown_state();
    let step = suppress_auto_open_for_doc(&editor_with_infoview(), &mut state, LEAN);
    assert_eq!(step, finished(vec![Action::CloseDocument(INFO)]));
    assert_eq!(maybe_auto_open(&editor(), &mut state, After::Finish), finished(vec![]));
    assert_eq!(close_infoview(&editor(), &mut state), finished(vec![]));
}

#[test]
fn an_open_infoview_follows_the_cursor() {
    let mut state = shown_state();
    let mut editor = editor_with_infoview();
    assert_eq!(maybe_auto_refresh(&editor, &mut state), finished(vec![start(1, None)]));
    editor.focus = OTHER_VIEW;
    assert_eq!(
        maybe_auto_refresh(&editor, &mut state),
        finished(vec![show("Open a Lean buffer to populate the infoview.\n")])
    );
    editor.focus = INFO_VIEW;
    assert_eq!(maybe_auto_refresh(&editor, &mut state), finished(vec![]));
    assert_eq!(maybe_auto_refresh(&self::editor(), &mut State::default()), finished(vec![]));
}

#[test]
fn the_last_number_of_a_request_stops_only_requests() {
    let mut state = shown_state();
    state.request_seq = u64::MAX;
    let mut editor = editor_with_infoview();
    editor.focus = OTHER_VIEW;
    let said = finished(vec![show("Open a Lean buffer to populate the infoview.\n")]);
    assert_eq!(maybe_auto_refresh(&editor, &mut state), said);
    assert_eq!(advance(&editor, &mut state, After::Refresh), said);
    editor.focus = INFO_VIEW;
    assert_eq!(handle_event(&editor, &mut state, Event::PostCommand), finished(vec![]));
}

#[test]
fn diagnostics_refresh_their_document() {
    let mut state = shown_state();
    let editor = editor_with_infoview();
    assert_eq!(
        maybe_auto_refresh_editor(&editor, &mut state, Some(LEAN)),
        finished(vec![start(1, None)])
    );
    assert_eq!(maybe_auto_refresh_editor(&editor, &mut state, None), finished(vec![start(2, None)]));
    assert_eq!(maybe_auto_refresh_editor(&editor, &mut state, Some(OTHER)), finished(vec![]));
    let step = maybe_auto_refresh_editor(&self::editor(), &mut State::default(), Some(LEAN));
    let after = After::RefreshCurrent(Some(LEAN));
    let opening = Opening { focus: false, previous_focus: LEAN_VIEW, after };
    assert_eq!(step, Step { actions: vec![], next: Next::Create(opening) });
    assert_eq!(
        advance(&editor, &mut state, After::RefreshCurrent(Some(LEAN))),
        finished(vec![start(3, None)])
    );
}

#[test]
fn the_cursor_finds_its_span_or_the_one_before() {
    let span = |start: usize, end: usize, info: &str| InfoSpan {
        start,
        end,
        info: Value::Text(info.to_string()),
    };
    let spans = vec![span(0, 2, "a"), span(5, 7, "b"), span(9, 11, "c"), span(20, 22, "d")];
    let found = |cursor: usize| {
        let at = CursorLine { cursor, line_start: 4, line_end: 16 };
        lookup_info_at_cursor(&spans, at).map(|info| match info {
            Value::Text(text) => text,
            _ => panic!("not a text"),
        })
    };
    assert_eq!(found(4), None);
    assert_eq!(found(5).as_deref(), Some("b"));
    assert_eq!(found(6).as_deref(), Some("b"));
    assert_eq!(found(8).as_deref(), Some("b"));
    assert_eq!(found(10).as_deref(), Some("c"));
    assert_eq!(found(15).as_deref(), Some("c"));
}

#[test]
fn lines_end_where_the_next_one_starts() {
    assert_eq!(line_end(0, 2, 4, 9), 4);
    assert_eq!(line_end(1, 2, 4, 9), 9);
    assert_eq!(line_end(0, 0, 4, 9), 9);
    assert_eq!(line_end(usize::MAX, usize::MAX, 4, 9), 9);
}

#[test]
fn goto_asks_for_the_info_under_the_cursor() {
    let at = CursorLine { cursor: 2, line_start: 0, line_end: 4 };
    let mut editor = editor_with_infoview();
    let mut state = shown_state();
    assert_eq!(goto_from_infoview(&editor, &mut state, "definition", at), GotoStart::NotHandled);
    editor.focus = INFO_VIEW;
    let failed = |editor: &Editor, state: &mut State| {
        match goto_from_infoview(editor, state, "definition", at) {
            GotoStart::Failed(message) => message,
            other => panic!("{:?}", other),
        }
    };
    assert_eq!(failed(&editor, &mut state), "No Lean info at cursor.");
    update_infoview_buffer(&editor, &mut state, payload(0, None));
    assert_eq!(failed(&editor, &mut state), "Lean infoview is not ready yet.");
    let mut other = session();
    other.server_id = LanguageServerId(6);
    state.rpc_session = Some(other);
    assert_eq!(failed(&editor, &mut state), "Lean infoview session is stale; refresh first.");
    state.rpc_session = Some(session());
    let running = std::mem::take(&mut editor.running);
    assert_eq!(failed(&editor, &mut state), "Lean language server is not available.");
    editor.running = running;
    match goto_from_infoview(&editor, &mut state, "definition", at) {
        GotoStart::Request { server_id, call, target_view } => {
            assert_eq!(server_id, SERVER);
            assert_eq!(target_view, Some(LEAN_VIEW));
            assert_eq!(call.text_document.uri, "file:///a.lean");
            assert_eq!(call.position, Position::new(2, 0));
            assert_eq!(call.session_id, "id");
            assert_eq!(call.method, "Lean.Widget.getGoToLocation");
            let member = |key: &str, value: &str| Member {
                key: key.to_string(),
                value: Value::Text(value.to_string()),
            };
            let asked = Value::Object(vec![member("info", "info"), member("kind", "definition")]);
            assert_eq!(call.params, asked);
        }
        other => panic!("{:?}", other),
    }
    // Info within info is unwrapped.
    let inner = Value::Object(vec![Member { key: "info".to_string(), value: Value::Bool(true) }]);
    state.spans[0].info = inner;
    match goto_from_infoview(&editor, &mut state, "type", at) {
        GotoStart::Request { call, .. } => {
            assert_eq!(call.params.get("info"), Some(&Value::Bool(true)));
            assert_eq!(call.params.get("kind"), Some(&Value::Text("type".to_string())));
        }
        other => panic!("{:?}", other),
    }
}

#[test]
fn goto_shows_the_places_that_are_linked() {
    let place = |line: u32| Range { start: Position::new(line, 0), end: Position::new(line, 1) };
    let links = vec![
        LeanGotoLocation { uri: Some("file:///a".to_string()), ..Default::default() },
        LeanGotoLocation { range: Some(place(1)), ..Default::default() },
        LeanGotoLocation {
            uri: Some("file:///b".to_string()),
            target_uri: Some("file:///c".to_string()),
            target_range: Some(place(2)),
            range: Some(place(3)),
            ..Default::default()
        },
    ];
    assert_eq!(
        goto_locations(&links, Some(LEAN_VIEW)),
        GotoReply::Show {
            focus: Some(LEAN_VIEW),
            locations: vec![Location { uri: "file:///c".to_string(), range: place(2) }],
        }
    );
    assert_eq!(
        goto_locations(&vec![LeanGotoLocation::default()], None),
        GotoReply::Failed("No Lean locations found.".to_string())
    );
}

#[test]
fn events_open_and_refresh_the_infoview() {
    let creates = |event: Event| {
        let step = handle_event(&editor(), &mut State::default(), event);
        match step.next {
            Next::Create(opening) => opening.after,
            other => panic!("{:?}", other),
        }
    };
    assert_eq!(creates(Event::DocumentDidOpen), After::Finish);
    assert_eq!(creates(Event::LanguageServerInitialized), After::Finish);
    assert_eq!(creates(Event::DiagnosticsDidChange(OTHER)), After::RefreshCurrent(Some(OTHER)));
    assert_eq!(creates(Event::PostCommand), After::RefreshCurrent(None));
    assert_eq!(creates(Event::PostInsertChar), After::RefreshCurrent(None));

    let editor = editor_with_infoview();
    let mut state = shown_state();
    assert_eq!(handle_event(&editor, &mut state, Event::DocumentDidOpen), finished(vec![]));
    let diagnosed = Event::DiagnosticsDidChange(OTHER);
    assert_eq!(handle_event(&editor, &mut state, diagnosed), finished(vec![]));
    assert_eq!(
        handle_event(&editor, &mut state, Event::PostCommand),
        finished(vec![start(1, None)])
    );
    assert_eq!(
        handle_event(&editor, &mut state, Event::DiagnosticsDidChange(LEAN)),
        finished(vec![start(2, None)])
    );
}
