use lean_support::buffer::BufferBuilder;
use lean_support::diagnostics::{diagnostic_explanation_url, render_diagnostic_sections};
use lean_support::editor::{DocumentId, LanguageServerId, SourceContext, ViewId};
use lean_support::goals::plain_text_lines;
use lean_support::goto::{choose_target_view, LeanGotoLocation};
use lean_support::json::{Member, Number, Value};
use lean_support::payload::{build_rendered_payload, GOALS_ACCOMPLISHED_TEXT};
use lean_support::protocol::{
    CodeDescription, Diagnostic, DiagnosticSeverity, InteractiveGoal, NumberOrString,
    PlainGoalResult, PlainTermGoalResult, Position, Range, TextDocumentIdentifier,
};
use lean_support::rpc::rpc_envelope_context;
use lean_support::segments::{
    flatten_tagged_to_segments, segments_to_lines, tagged_has_visible_text, RenderedLine,
};
use lean_support::state::State;

fn text(text: &str) -> Value {
    Value::Text(text.to_string())
}

fn number(n: u64) -> Value {
    Value::Number(Number::Unsigned(n))
}

fn object(members: Vec<(&str, Value)>) -> Value {
    let mut all = Vec::new();
    for (key, value) in members {
        all.push(Member { key: key.to_string(), value });
    }
    Value::Object(all)
}

fn range(start: (u32, u32), end: (u32, u32)) -> Range {
    Range { start: Position::new(start.0, start.1), end: Position::new(end.0, end.1) }
}

fn source(doc: usize, line: u32, character: u32) -> SourceContext {
    SourceContext {
        doc_id: Some(DocumentId(doc)),
        view_id: Some(ViewId(0)),
        server_id: LanguageServerId(0),
        uri: "file:///tmp/source.lean".to_string(),
        position: Position::new(line, character),
        text_document: TextDocumentIdentifier::new("file:///tmp/source.lean".to_string()),
    }
}

fn texts(lines: Vec<RenderedLine>) -> Vec<String> {
    lines
        .into_iter()
        .map(|line| line.into_iter().map(|segment| segment.text).collect())
        .collect()
}

fn unknown_identifier(code_description: Option<CodeDescription>) -> Diagnostic {
    Diagnostic {
        range: range((131, 6), (131, 21)),
        severity: Some(DiagnosticSeverity::Error),
        code: Some(NumberOrString::Text("lean.unknownIdentifier".to_string())),
        code_description,
        message: "Unknown identifier `nex_working_day`".to_string(),
    }
}

#[test]
fn plain_text_lines_drops_blank_before_goal_marker() {
    let rendered = texts(plain_text_lines("foo\n\n⊢ bar"));
    assert_eq!(rendered, vec!["foo".to_string(), "⊢ bar".to_string()]);
}

#[test]
fn tagged_visibility_ignores_blank_text() {
    assert!(!tagged_has_visible_text(&object(vec![("text", text("   "))])));
    assert!(tagged_has_visible_text(&object(vec![("text", text("goal"))])));
}

#[test]
fn flatten_tagged_extracts_spans_for_tagged_tokens_with_separator_text() {
    let named = |name: &str| object(vec![("name", text(name))]);
    let tagged = object(vec![(
        "append",
        Value::Array(vec![
            object(vec![("tag", object(vec![("info", named("nat"))])), ("text", text("nat"))]),
            object(vec![("text", text("/"))]),
            object(vec![("tag", object(vec![("info", named("S"))])), ("text", text("S"))]),
        ]),
    )]);

    let lines = segments_to_lines(flatten_tagged_to_segments(&tagged));
    let mut builder = BufferBuilder::default();
    builder.push_line(lines.first().unwrap());

    assert_eq!(builder.text, "nat/S\n");
    assert_eq!(builder.spans.len(), 2);
    assert_eq!(builder.spans[0].start, 0);
    assert_eq!(builder.spans[0].end, 3);
    assert_eq!(builder.spans[0].info, named("nat"));
    assert_eq!(builder.spans[1].start, 4);
    assert_eq!(builder.spans[1].end, 5);
    assert_eq!(builder.spans[1].info, named("S"));
}

#[test]
fn rpc_envelope_context_prefers_inner_position_and_document() {
    let source = source(20, 10, 20);
    let params = object(vec![
        ("textDocument", object(vec![("uri", text("file:///tmp/inner.lean"))])),
        ("position", object(vec![("line", number(3)), ("character", number(4))])),
    ]);

    let (text_document, position) = rpc_envelope_context(&source, &params);
    assert_eq!(text_document.uri.as_str(), "file:///tmp/inner.lean");
    assert_eq!(position, Position::new(3, 4));
}

#[test]
fn diagnostic_sections_render_information_and_error_metadata() {
    let diagnostics = vec![
        Diagnostic {
            range: range((131, 0), (131, 5)),
            severity: Some(DiagnosticSeverity::Information),
            code: None,
            code_description: None,
            message: "Day.monday".to_string(),
        },
        unknown_identifier(Some(CodeDescription {
            href: "https://example.com/explain".to_string(),
        })),
    ];

    let rendered = texts(render_diagnostic_sections(&diagnostics));

    assert!(rendered.iter().any(|line| line.contains("132:1-132:6: information:")));
    assert!(rendered.iter().any(|line| line.contains("Day.monday")));
    assert!(rendered.iter().any(|line| line.contains("132:7-132:22: error:")));
    assert!(rendered.iter().any(|line| line.contains("lean.unknownIdentifier")));
    assert!(rendered
        .iter()
        .any(|line| line.contains("View explanation: https://example.com/explain")));
    assert_eq!(
        diagnostic_explanation_url(&diagnostics[1]).as_deref(),
        Some("https://example.com/explain")
    );
}

#[test]
fn diagnostic_explanation_url_falls_back_for_lean_error_codes() {
    assert_eq!(
        diagnostic_explanation_url(&unknown_identifier(None)).as_deref(),
        Some(
            "https://lean-lang.org/doc/reference/latest/Error-Explanations/About___--unknownIdentifier/#lean___unknownIdentifier"
        )
    );
}

#[test]
fn interactive_term_goal_keeps_expected_type_title() {
    let (text, _spans) = build_rendered_payload(
        &source(60, 131, 7),
        None,
        Some(PlainTermGoalResult {
            goal: Some("day".to_string()),
            range: Some(range((131, 6), (131, 29))),
        }),
        None,
        Some(InteractiveGoal {
            ty: object(vec![("text", Value::Text("day".to_string()))]),
            ..InteractiveGoal::default()
        }),
        &vec![],
        false,
    );

    assert!(text.contains("▼ expected type (132:7-132:30)"));
    assert!(text.contains("⊢ day"));
    assert!(!text.starts_with('\n'));
}

#[test]
fn diagnostics_only_do_not_start_with_blank_line() {
    let (text, _spans) = build_rendered_payload(
        &source(60, 131, 7),
        None,
        None,
        None,
        None,
        &vec![unknown_identifier(None)],
        false,
    );

    assert!(text.starts_with("▼ 132:7-132:22: error:"));
    assert!(!text.starts_with('\n'));
}

#[test]
fn goals_accomplished_replaces_no_goals_without_errors() {
    let (text, _spans) = build_rendered_payload(
        &source(60, 10, 5),
        Some(PlainGoalResult { goals: Vec::new(), rendered: String::new() }),
        None,
        None,
        None,
        &vec![],
        true,
    );

    assert!(text.contains(GOALS_ACCOMPLISHED_TEXT));
    assert!(!text.contains("No goals."));
}

#[test]
fn goals_accomplished_fallback_is_top_level_with_expected_type() {
    let (text, _spans) = build_rendered_payload(
        &source(60, 132, 9),
        None,
        Some(PlainTermGoalResult {
            goal: Some("day".to_string()),
            range: Some(range((132, 7), (132, 18))),
        }),
        None,
        None,
        &vec![],
        true,
    );

    assert!(text.starts_with("✓ Goals accomplished.\n\n▼ expected type"));
    assert!(text.contains("\nday\n"));
}

#[test]
fn plain_goal_no_goals_text_is_suppressed() {
    let (text, _spans) = build_rendered_payload(
        &source(60, 12, 3),
        Some(PlainGoalResult { goals: Vec::new(), rendered: "No goals.".to_string() }),
        None,
        None,
        None,
        &vec![],
        false,
    );

    assert!(!text.contains("No goals."));
    assert!(text.is_empty());
}

#[test]
fn plain_goal_lowercase_no_goals_text_is_suppressed() {
    let (text, _spans) = build_rendered_payload(
        &source(60, 12, 3),
        Some(PlainGoalResult { goals: Vec::new(), rendered: "no goals".to_string() }),
        None,
        None,
        None,
        &vec![],
        false,
    );

    assert!(!text.to_ascii_lowercase().contains("no goals"));
    assert!(text.is_empty());
}

#[test]
fn goto_location_prefers_target_selection_range_and_falls_back() {
    let preferred = LeanGotoLocation {
        target_uri: Some("file:///tmp/Test.lean".to_string()),
        target_selection_range: Some(range((1, 2), (1, 4))),
        target_range: Some(range((5, 6), (5, 7))),
        ..Default::default()
    };

    let fallback = LeanGotoLocation {
        uri: Some("file:///tmp/Fallback.lean".to_string()),
        range: Some(range((8, 9), (8, 10))),
        ..Default::default()
    };

    let preferred_location = preferred.to_location().unwrap();
    assert_eq!(preferred_location.range.start, Position::new(1, 2));

    let fallback_location = fallback.to_location().unwrap();
    assert_eq!(fallback_location.range.start, Position::new(8, 9));
}

#[test]
fn choose_target_view_prefers_non_infoview_source_and_falls_back() {
    let infoview_doc = Some(DocumentId(10));
    let source_doc = DocumentId(11);
    let other_doc = DocumentId(12);
    let source_view = ViewId(1);
    let infoview_view = ViewId(2);
    let other_view = ViewId(3);

    let candidates = vec![
        (source_view, source_doc),
        (infoview_view, infoview_doc.unwrap()),
        (other_view, other_doc),
    ];

    assert_eq!(
        choose_target_view(Some(source_view), infoview_doc, &candidates),
        Some(source_view)
    );
    assert_eq!(
        choose_target_view(Some(infoview_view), infoview_doc, &candidates),
        Some(source_view)
    );
    assert_eq!(choose_target_view(None, infoview_doc, &candidates), Some(source_view));
}

#[test]
fn choose_target_view_returns_none_when_only_infoview_exists() {
    let infoview_doc = DocumentId(10);
    let infoview_view = ViewId(2);
    let candidates = vec![(infoview_view, infoview_doc)];

    assert_eq!(
        choose_target_view(Some(infoview_view), Some(infoview_doc), &candidates),
        None
    );
    assert_eq!(choose_target_view(None, Some(infoview_doc), &candidates), None);
}

#[test]
fn choose_target_view_does_not_depend_on_state_lock() {
    let infoview_doc = Some(DocumentId(30));
    let source_doc = DocumentId(31);
    let source_view = ViewId(1);
    let infoview_view = ViewId(2);
    let candidates = vec![(source_view, source_doc), (infoview_view, infoview_doc.unwrap())];

    let state = std::sync::Mutex::new(State::default());
    let _state_guard = state.lock().unwrap();
    assert_eq!(
        choose_target_view(Some(source_view), infoview_doc, &candidates),
        Some(source_view)
    );
}
