use lean_support::editor::{DocumentId, LanguageServerId, SourceContext, ViewId};
use lean_support::json::{Member, Number, Value};
use lean_support::protocol::{
    Diagnostic, InteractiveGoal, InteractiveGoalsResult, PlainGoalResult, PlainTermGoalResult,
    Position, Range, TextDocumentIdentifier,
};
use lean_support::refresh::{
    best_interactive_goals, best_interactive_term_goal, best_plain_goal, best_plain_term_goal,
    best_replies, finish_refresh, is_countable, Answers, Replies,
};
use lean_support::rpc::{
    connected_session, ensure_rpc_session, envelope_with, goal_query_places, interactive_calls,
    pos_with_offset, rpc_call, rpc_envelope_context, RpcConnectParams, SessionStep,
};
use lean_support::state::RpcSession;

fn text(text: &str) -> Value {
    Value::Text(text.to_string())
}

fn number(n: u64) -> Value {
    Value::Number(Number::Unsigned(n))
}

fn object(members: Vec<(&str, Value)>) -> Value {
    let mut all = Vec::new();
    for (key, value) in members {
        all.push(Member { key: key.to_string(), value });
    }
    Value::Object(all)
}

fn source(character: u32) -> SourceContext {
    SourceContext {
        doc_id: Some(DocumentId(1)),
        view_id: Some(ViewId(2)),
        server_id: LanguageServerId(3),
        uri: "file:///tmp/a.lean".to_string(),
        position: Position::new(7, character),
        text_document: TextDocumentIdentifier::new("file:///tmp/a.lean".to_string()),
    }
}

fn session(server: u64, uri: &str) -> RpcSession {
    RpcSession {
        server_id: LanguageServerId(server),
        uri: uri.to_string(),
        session_id: "id".to_string(),
    }
}

fn envelope(params: &Value) -> (String, Position) {
    let (document, position) = rpc_envelope_context(&source(9), params);
    (document.uri, position)
}

#[test]
fn documents_in_parameters_are_read_as_urls() {
    let own = "file:///tmp/a.lean".to_string();
    let about = |document: Value| envelope(&object(vec![("textDocument", document)])).0;
    assert_eq!(about(object(vec![("uri", text("file:///tmp/a b.lean"))])), "file:///tmp/a%20b.lean");
    assert_eq!(about(object(vec![("uri", text("HTTP://EXAMPLE.com"))])), "http://example.com/");
    assert_eq!(about(Value::Array(vec![text("file:///x")])), "file:///x");
    assert_eq!(about(object(vec![("uri", text("no url"))])), own);
    assert_eq!(about(object(vec![("uri", number(1))])), own);
    assert_eq!(about(object(vec![("url", text("file:///x"))])), own);
    assert_eq!(about(Value::Array(vec![])), own);
    assert_eq!(about(Value::Array(vec![text("file:///x"), text("file:///y")])), own);
    assert_eq!(about(text("file:///x")), own);
    assert_eq!(envelope(&Value::Null).0, own);
}

#[test]
fn a_named_document_goes_before_that_of_the_source() {
    let at = object(vec![("position", Value::Array(vec![number(1), number(2)]))]);
    let (document, position) = envelope_with(&source(9), Some("file:///x".to_string()), &at);
    assert_eq!((document.uri.as_str(), position), ("file:///x", Position::new(1, 2)));
    let (document, position) = envelope_with(&source(9), None, &Value::Null);
    assert_eq!((document.uri.as_str(), position), ("file:///tmp/a.lean", Position::new(7, 9)));
}

#[test]
fn positions_in_parameters_are_read_as_counts() {
    let own = Position::new(7, 9);
    let about = |position: Value| envelope(&object(vec![("position", position)])).1;
    let pair = |line: Value, character: Value| {
        about(object(vec![("line", line), ("character", character), ("more", Value::Null)]))
    };
    assert_eq!(pair(number(3), number(4294967295)), Position::new(3, 4294967295));
    assert_eq!(pair(number(3), number(4294967296)), own);
    assert_eq!(pair(Value::Number(Number::Negative(-1)), number(0)), own);
    assert_eq!(pair(Value::Number(Number::Double(0)), number(0)), own);
    assert_eq!(pair(text("3"), number(0)), own);
    assert_eq!(about(object(vec![("line", number(3))])), own);
    assert_eq!(about(Value::Array(vec![number(3), number(4)])), Position::new(3, 4));
    assert_eq!(about(Value::Array(vec![number(3)])), own);
    assert_eq!(about(Value::Array(vec![number(3), number(4), number(5)])), own);
    assert_eq!(about(number(3)), own);
    assert_eq!(envelope(&Value::Array(vec![])).1, own);
}

#[test]
fn offsets_stay_within_the_line() {
    let at = |character: u32, offset: i32| pos_with_offset(&source(character), offset).position;
    assert_eq!(at(5, 0), Position::new(7, 5));
    assert_eq!(at(5, -2), Position::new(7, 3));
    assert_eq!(at(1, -2), Position::new(7, 0));
    assert_eq!(at(5, 2), Position::new(7, 7));
    assert_eq!(at(4294967294, 2), Position::new(7, 4294967295));
    assert_eq!(at(5, i32::MIN), Position::new(7, 0));
    assert_eq!(at(4294967295, i32::MIN), Position::new(7, 2147483647));
    assert_eq!(at(2147483648, i32::MAX), Position::new(7, 4294967295));
}

#[test]
fn goals_are_looked_for_around_the_cursor() {
    let places: Vec<u32> = goal_query_places(&source(1))
        .into_iter()
        .map(|place| {
            assert_eq!(place.text_document.uri, "file:///tmp/a.lean");
            assert_eq!(place.position.line, 7);
            place.position.character
        })
        .collect();
    assert_eq!(places, vec![1, 0, 2, 0, 3]);
}

#[test]
fn query_calls_name_their_place() {
    let held = Some(session(3, "file:///tmp/a.lean"));
    let (calls, term_calls) = interactive_calls(&source(5), &held);
    let characters: Vec<u32> = calls.iter().map(|call| call.position.character).collect();
    assert_eq!(characters, vec![5, 4, 6, 3, 7]);
    assert_eq!(calls[1].method, "Lean.Widget.getInteractiveGoals");
    assert_eq!(calls[1].session_id, "id");
    assert_eq!(calls[1].text_document.uri, "file:///tmp/a.lean");
    assert_eq!(
        calls[1].params,
        object(vec![
            ("position", object(vec![("character", number(4)), ("line", number(7))])),
            ("textDocument", object(vec![("uri", text("file:///tmp/a.lean"))])),
        ])
    );
    assert_eq!(term_calls.len(), 5);
    assert_eq!(term_calls[4].method, "Lean.Widget.getInteractiveTermGoal");
    assert_eq!(term_calls[4].position, Position::new(7, 7));
    assert_eq!(interactive_calls(&source(5), &None), (vec![], vec![]));
}

#[test]
fn calls_carry_their_parameters() {
    let call = rpc_call(&source(5), &session(3, "x"), "m", text("p"));
    assert_eq!(call.method, "m");
    assert_eq!(call.params, text("p"));
    assert_eq!(call.session_id, "id");
    assert_eq!(call.position, Position::new(7, 5));
    assert_eq!(call.text_document.uri, "file:///tmp/a.lean");
}

#[test]
fn sessions_are_kept_for_their_document_and_server() {
    let connect = SessionStep::Connect(RpcConnectParams { uri: "file:///tmp/a.lean".to_string() });
    let held = session(3, "file:///tmp/a.lean");
    assert_eq!(
        ensure_rpc_session(&source(0), Some(held.clone())),
        SessionStep::Ready(held)
    );
    assert_eq!(ensure_rpc_session(&source(0), None), connect);
    assert_eq!(ensure_rpc_session(&source(0), Some(session(4, "file:///tmp/a.lean"))), connect);
    assert_eq!(ensure_rpc_session(&source(0), Some(session(3, "file:///tmp/b.lean"))), connect);
    assert_eq!(connected_session(&source(0), None), None);
    let opened = connected_session(&source(0), Some("new".to_string())).unwrap();
    assert_eq!(opened.session_id, "new");
    assert_eq!(ensure_rpc_session(&source(0), Some(opened.clone())), SessionStep::Ready(opened));
}

fn plain(rendered: &str, goals: &[&str]) -> Option<PlainGoalResult> {
    Some(PlainGoalResult {
        goals: goals.iter().map(|goal| goal.to_string()).collect(),
        rendered: rendered.to_string(),
    })
}

fn term(goal: Option<&str>, range: Option<Range>) -> Option<PlainTermGoalResult> {
    Some(PlainTermGoalResult { goal: goal.map(|goal| goal.to_string()), range })
}

fn goal(shown: &str) -> InteractiveGoal {
    InteractiveGoal { ty: text(shown), ..InteractiveGoal::default() }
}

#[test]
fn the_first_of_the_best_replies_is_taken() {
    let replies = vec![None, plain("a", &[]), plain("b", &["g"]), plain("c", &["g"]), plain("d", &[])];
    assert_eq!(best_plain_goal(replies).unwrap().rendered, "b");
    assert_eq!(best_plain_goal(vec![None, plain("a", &[]), plain("b", &[])]).unwrap().rendered, "a");
    assert!(best_plain_goal(vec![None, None]).is_none());
    assert!(best_plain_goal(vec![]).is_none());

    let found = best_plain_term_goal(vec![term(None, None), term(Some("x"), None), term(Some("y"), None)]);
    assert_eq!(found.unwrap().goal.as_deref(), Some("x"));
    assert!(best_plain_term_goal(vec![term(None, None), None]).is_none());

    let goals = |all: Vec<InteractiveGoal>| Some(InteractiveGoalsResult { goals: all });
    let found = best_interactive_goals(vec![
        goals(vec![]),
        goals(vec![goal(" ")]),
        goals(vec![goal("x")]),
        goals(vec![goal("y"), goal("z")]),
    ]);
    assert_eq!(found.unwrap().goals[0].ty, text("x"));
    assert!(best_interactive_goals(vec![goals(vec![]), None]).is_none());

    let found = best_interactive_term_goal(vec![None, Some(goal("")), Some(goal("x"))]);
    assert_eq!(found.unwrap().ty, text("x"));
    assert_eq!(best_interactive_term_goal(vec![None, Some(goal(""))]).unwrap().ty, text(""));
}

fn answers() -> Answers {
    Answers {
        plain_goals: vec![None, plain("a", &["A"])],
        plain_term_goals: vec![term(Some("T"), None)],
        interactive_goals: vec![Some(InteractiveGoalsResult { goals: vec![goal("B")] })],
        interactive_term_goals: vec![Some(goal("C"))],
    }
}

#[test]
fn without_a_session_only_plain_replies_count() {
    let held = Some(session(3, "file:///tmp/a.lean"));
    let replies = best_replies(answers(), &held, vec![], false);
    assert!(is_countable(&replies));
    let payload = finish_refresh(source(5), 4, held.clone(), replies);
    assert_eq!(payload.text, "⊢ B\n\n▼ expected type\n⊢ C\n");
    assert_eq!(payload.request_seq, 4);
    assert_eq!(payload.session, held);
    assert_eq!(payload.source_doc, Some(DocumentId(1)));
    assert_eq!(payload.source_view, Some(ViewId(2)));
    assert_eq!(payload.source_server, Some(LanguageServerId(3)));
    assert_eq!(payload.source_uri.as_deref(), Some("file:///tmp/a.lean"));
    assert_eq!(payload.source_position, Some(Position::new(7, 5)));
    assert!(payload.spans.is_empty());

    let replies = best_replies(answers(), &None, vec![], true);
    let payload = finish_refresh(source(5), 4, None, replies);
    assert_eq!(payload.text, "✓ Goals accomplished.\n\nA\n\n▼ expected type\nT\n");
    assert_eq!(payload.session, None);
}

#[test]
fn counts_at_the_end_of_their_range_are_found() {
    let end = Position::new(0, u32::MAX);
    let start = Position::new(0, 0);
    let mut replies = Replies {
        plain_goal: None,
        plain_term_goal: term(Some("T"), Some(Range { start, end })),
        interactive_goals: None,
        interactive_term_goal: None,
        diagnostics: vec![],
        goals_accomplished: false,
    };
    assert!(!is_countable(&replies));
    replies.plain_term_goal = term(None, Some(Range { start, end }));
    assert!(is_countable(&replies));
    replies.interactive_term_goal = Some(goal("x"));
    assert!(!is_countable(&replies));
    replies.plain_term_goal = None;
    replies.diagnostics.push(Diagnostic {
        range: Range { start, end: start },
        severity: None,
        code: None,
        code_description: None,
        message: String::new(),
    });
    assert!(is_countable(&replies));
    replies.diagnostics[0].range.end.line = u32::MAX;
    assert!(!is_countable(&replies));
}
