use lean_support::buffer::{push_section_separator, BufferBuilder};
use lean_support::diagnostics::{
    current_line_diagnostics, diagnostic_code_text, diagnostic_explanation_url,
    format_diagnostic_header, format_range, render_diagnostic_sections,
};
use lean_support::editor::{DocumentId, LanguageServerId, SourceContext, ViewId};
use lean_support::goals::{
    interactive_goal_score, interactive_term_goal_score, plain_goal_score,
    plain_response_text_is_no_goals, plain_term_goal_score, plain_text_has_visible_content,
    plain_text_lines, render_hypothesis_lines, render_interactive_goal_lines,
};
use lean_support::goto::{lookup_info_at_cursor, CursorLine};
use lean_support::json::{Member, Value};
use lean_support::payload::{build_rendered_payload, term_goal_title};
use lean_support::protocol::{
    CodeDescription, Diagnostic, DiagnosticSeverity, InteractiveGoal, InteractiveGoalsResult,
    InteractiveHypothesis, NumberOrString, PlainGoalResult, PlainTermGoalResult, Position, Range,
    TextDocumentIdentifier,
};
use lean_support::segments::{
    flatten_tagged_to_segments, segments_to_lines, tagged_has_visible_text, RenderedLine,
    RenderedSegment,
};

fn text(text: &str) -> Value {
    Value::Text(text.to_string())
}

fn object(members: Vec<(&str, Value)>) -> Value {
    let mut all = Vec::new();
    for (key, value) in members {
        all.push(Member { key: key.to_string(), value });
    }
    Value::Object(all)
}

fn tagged(info: &str, shown: &str) -> Value {
    object(vec![("tag", object(vec![("info", text(info))])), ("text", text(shown))])
}

fn range(start: (u32, u32), end: (u32, u32)) -> Range {
    Range { start: Position::new(start.0, start.1), end: Position::new(end.0, end.1) }
}

fn source() -> SourceContext {
    SourceContext {
        doc_id: Some(DocumentId(1)),
        view_id: Some(ViewId(1)),
        server_id: LanguageServerId(1),
        uri: "file:///a.lean".to_string(),
        position: Position::new(0, 0),
        text_document: TextDocumentIdentifier::new("file:///a.lean".to_string()),
    }
}

fn shown(lines: Vec<RenderedLine>) -> Vec<Vec<(String, Option<Value>)>> {
    lines
        .into_iter()
        .map(|line| line.into_iter().map(|segment| (segment.text, segment.info)).collect())
        .collect()
}

fn texts(lines: Vec<RenderedLine>) -> Vec<String> {
    lines
        .into_iter()
        .map(|line| line.into_iter().map(|segment| segment.text).collect())
        .collect()
}

fn segment(shown: &str, info: Option<&str>) -> RenderedSegment {
    RenderedSegment { text: shown.to_string(), info: info.map(text) }
}

fn part(shown: &str, info: Option<Value>) -> (String, Option<Value>) {
    (shown.to_string(), info)
}

fn diagnostic(severity: Option<DiagnosticSeverity>, lines: (u32, u32), message: &str) -> Diagnostic {
    Diagnostic {
        range: range((lines.0, 0), (lines.1, 1)),
        severity,
        code: None,
        code_description: None,
        message: message.to_string(),
    }
}

#[test]
fn a_tag_gives_its_text_its_info() {
    let flat = |value: &Value| shown(vec![flatten_tagged_to_segments(value)]).remove(0);
    assert_eq!(flat(&text("x")), vec![part("x", None)]);
    assert_eq!(flat(&tagged("i", "x")), vec![part("x", Some(text("i")))]);
    // A tag without info refers to itself, and to nothing else inside a tag with info.
    let bare = object(vec![("k", text("v"))]);
    let inner = object(vec![("tag", bare.clone()), ("text", text("y"))]);
    assert_eq!(flat(&inner), vec![part("y", Some(bare))]);
    let outer = object(vec![
        ("tag", object(vec![("info", text("i"))])),
        ("append", Value::Array(vec![text("x"), inner])),
    ]);
    assert_eq!(flat(&outer), vec![part("x", Some(text("i"))), part("y", Some(text("i")))]);
    // A tag that is an array holds the info and the text.
    let pair = object(vec![("tag", Value::Array(vec![text("i"), text("z")]))]);
    assert_eq!(flat(&pair), vec![part("z", Some(text("i")))]);
    let none = object(vec![("tag", Value::Array(vec![])), ("text", text("z"))]);
    assert_eq!(flat(&none), vec![part("z", None)]);
    let null = object(vec![("tag", Value::Null), ("text", text("z"))]);
    assert_eq!(flat(&null), vec![part("z", None)]);
    let flag = object(vec![("tag", Value::Bool(true)), ("text", text("z"))]);
    assert_eq!(flat(&flag), vec![part("z", Some(Value::Bool(true)))]);
    assert_eq!(flat(&Value::Null), vec![]);
    assert_eq!(flat(&object(vec![("append", text("x"))])), vec![]);
    assert_eq!(flat(&Value::Array(vec![text("a"), text("b")])), vec![part("a", None), part("b", None)]);
}

#[test]
fn white_space_is_what_unicode_says() {
    let white = |c: char| {
        matches!(
            c,
            '\u{9}'..='\u{d}'
                | ' '
                | '\u{85}'
                | '\u{a0}'
                | '\u{1680}'
                | '\u{2000}'..='\u{200a}'
                | '\u{2028}'
                | '\u{2029}'
                | '\u{202f}'
                | '\u{205f}'
                | '\u{3000}'
        )
    };
    for c in '\u{0}'..=char::MAX {
        assert_eq!(plain_text_has_visible_content(&c.to_string()), !white(c), "{:?}", c);
    }
}

#[test]
fn visibility_looks_through_tags() {
    assert!(!tagged_has_visible_text(&Value::Null));
    assert!(!tagged_has_visible_text(&tagged("i", " \u{a0}\u{3000}\n")));
    assert!(tagged_has_visible_text(&tagged("i", " x")));
}

#[test]
fn line_feeds_break_segments_into_lines() {
    let lines = segments_to_lines(vec![
        segment("a\nb", Some("i")),
        segment("", Some("j")),
        segment("c\n\n", None),
        segment("d", Some("k")),
    ]);
    assert_eq!(
        shown(lines),
        vec![
            vec![part("a", Some(text("i")))],
            vec![part("b", Some(text("i"))), part("c", None)],
            vec![],
            vec![part("d", Some(text("k")))],
        ]
    );
    assert_eq!(shown(segments_to_lines(vec![])), vec![vec![]]);
}

#[test]
fn buffers_count_characters() {
    let mut builder = BufferBuilder::default();
    push_section_separator(&mut builder);
    assert_eq!(builder.text, "");
    builder.push_line(&vec![segment("⊢ ", None), segment("α", Some("i")), segment("", Some("j"))]);
    push_section_separator(&mut builder);
    push_section_separator(&mut builder);
    builder.push_lines(&vec![vec![segment("β", Some("k"))], vec![]]);
    assert_eq!(builder.text, "⊢ α\n\nβ\n\n");
    assert_eq!(builder.char_len, 8);
    let spans: Vec<(usize, usize, Value)> =
        builder.spans.iter().map(|span| (span.start, span.end, span.info.clone())).collect();
    assert_eq!(spans, vec![(2, 3, text("i")), (5, 6, text("k"))]);
}

#[test]
fn plain_lines_keep_what_no_goal_follows() {
    assert_eq!(texts(plain_text_lines("a\n\nb")), vec!["a", "", "b"]);
    assert_eq!(texts(plain_text_lines("\n|- x\n")), vec!["|- x", ""]);
    assert_eq!(texts(plain_text_lines("\n\n⊢ x")), vec!["", "⊢ x"]);
    assert_eq!(texts(plain_text_lines("")), vec![""]);
}

#[test]
fn replies_without_goals_are_told_apart() {
    for said in ["no goals", "No Goals", "  NO GOALS... \n"] {
        assert!(plain_response_text_is_no_goals(said));
    }
    for said in ["", "no goal", "no goals!", "there are no goals"] {
        assert!(!plain_response_text_is_no_goals(said));
    }
    assert!(plain_text_has_visible_content("\n x"));
    assert!(!plain_text_has_visible_content(" \n\t\n"));
}

#[test]
fn hypotheses_show_names_type_and_value() {
    let mut hyp = InteractiveHypothesis {
        names: vec!["x".to_string(), "y".to_string()],
        ty: tagged("t", "Nat"),
        val: None,
    };
    assert_eq!(
        shown(render_hypothesis_lines(&hyp)),
        vec![vec![part("x y", None), part(" : ", None), part("Nat", Some(text("t")))]]
    );
    hyp.val = Some(tagged("v", "1"));
    assert_eq!(texts(render_hypothesis_lines(&hyp)), vec!["x y : Nat := 1"]);
}

#[test]
fn goals_show_case_hypotheses_and_target() {
    let goal = InteractiveGoal {
        goal_prefix: Some("| ".to_string()),
        user_name: Some("succ".to_string()),
        hyps: vec![InteractiveHypothesis {
            names: vec!["n".to_string()],
            ty: text("Nat"),
            val: None,
        }],
        ty: tagged("g", "n = n\n∧ True"),
    };
    assert_eq!(
        texts(render_interactive_goal_lines(&goal)),
        vec!["case succ", "n : Nat", "| n = n", "∧ True"]
    );
    let bare = InteractiveGoal {
        user_name: Some(String::new()),
        ty: text("True"),
        ..InteractiveGoal::default()
    };
    assert_eq!(texts(render_interactive_goal_lines(&bare)), vec!["⊢ True"]);
}

#[test]
fn scores_tell_how_much_a_reply_says() {
    assert_eq!(plain_goal_score(None), 0);
    let mut plain = PlainGoalResult { goals: vec![], rendered: "x".to_string() };
    assert_eq!(plain_goal_score(Some(&plain)), 1);
    plain.goals.push("x".to_string());
    assert_eq!(plain_goal_score(Some(&plain)), 2);
    assert_eq!(plain_term_goal_score(None), 0);
    let mut term = PlainTermGoalResult { goal: None, range: None };
    assert_eq!(plain_term_goal_score(Some(&term)), 0);
    term.goal = Some(String::new());
    assert_eq!(plain_term_goal_score(Some(&term)), 1);
    let mut goals = InteractiveGoalsResult::default();
    assert_eq!(interactive_goal_score(None), 0);
    assert_eq!(interactive_goal_score(Some(&goals)), 0);
    goals.goals.push(InteractiveGoal { ty: text("x"), ..InteractiveGoal::default() });
    assert_eq!(interactive_goal_score(Some(&goals)), 2);
    goals.goals.push(InteractiveGoal::default());
    assert_eq!(interactive_goal_score(Some(&goals)), 1);
    assert_eq!(interactive_term_goal_score(None), 0);
    assert_eq!(interactive_term_goal_score(Some(&goals.goals[0])), 2);
    assert_eq!(interactive_term_goal_score(Some(&goals.goals[1])), 1);
}

#[test]
fn ranges_and_headers_count_from_one() {
    let place = range((0, 9), (4294967294, 0));
    assert_eq!(format_range(&place), "1:10-4294967295:1");
    let titled = |severity| {
        let mut found = diagnostic(severity, (0, 0), "m");
        found.range = place;
        format_diagnostic_header(&found)
    };
    assert_eq!(titled(Some(DiagnosticSeverity::Error)), "▼ 1:10-4294967295:1: error:");
    assert_eq!(titled(Some(DiagnosticSeverity::Warning)), "▼ 1:10-4294967295:1: warning:");
    assert_eq!(titled(Some(DiagnosticSeverity::Information)), "▼ 1:10-4294967295:1: information:");
    assert_eq!(titled(Some(DiagnosticSeverity::Hint)), "▼ 1:10-4294967295:1: hint:");
    assert_eq!(titled(Some(DiagnosticSeverity::Other)), "▼ 1:10-4294967295:1: diagnostic:");
    assert_eq!(titled(None), "▼ 1:10-4294967295:1: diagnostic:");
    let mut term = PlainTermGoalResult { goal: None, range: Some(place) };
    assert_eq!(term_goal_title(&term), "▼ expected type (1:10-4294967295:1)");
    term.range = None;
    assert_eq!(term_goal_title(&term), "▼ expected type");
}

#[test]
fn codes_are_shown_and_explained() {
    assert_eq!(diagnostic_code_text(&NumberOrString::Number(-40)), "-40");
    assert_eq!(diagnostic_code_text(&NumberOrString::Number(i32::MIN)), "-2147483648");
    assert_eq!(diagnostic_code_text(&NumberOrString::Number(0)), "0");
    assert_eq!(diagnostic_code_text(&NumberOrString::Text("x.y".to_string())), "x.y");
    let mut found = diagnostic(None, (0, 0), "m");
    assert_eq!(diagnostic_explanation_url(&found), None);
    found.code = Some(NumberOrString::Number(7));
    assert_eq!(diagnostic_explanation_url(&found), None);
    found.code = Some(NumberOrString::Text("other.code".to_string()));
    assert_eq!(diagnostic_explanation_url(&found), None);
    found.code = Some(NumberOrString::Text("lean.lean.a.b".to_string()));
    assert_eq!(
        diagnostic_explanation_url(&found).as_deref(),
        Some(
            "https://lean-lang.org/doc/reference/latest/Error-Explanations/About___--a.b/#lean___lean___a___b"
        )
    );
    found.code_description = Some(CodeDescription { href: "https://e.x/".to_string() });
    assert_eq!(diagnostic_explanation_url(&found).as_deref(), Some("https://e.x/"));
}

#[test]
fn diagnostics_are_set_off_from_each_other() {
    let mut second = diagnostic(Some(DiagnosticSeverity::Error), (1, 1), "c");
    second.code = Some(NumberOrString::Number(3));
    let found = vec![diagnostic(Some(DiagnosticSeverity::Hint), (0, 0), "a\r\nb\n"), second];
    assert_eq!(
        texts(render_diagnostic_sections(&found)),
        vec!["▼ 1:1-1:2: hint:", "a", "b", "", "▼ 2:1-2:2: error:", "c", "Error code: 3"]
    );
    assert_eq!(texts(render_diagnostic_sections(&vec![])), Vec::<String>::new());
}

#[test]
fn diagnostics_are_chosen_by_line() {
    let all = vec![
        diagnostic(None, (1, 3), "a"),
        diagnostic(None, (3, 1), "b"),
        diagnostic(None, (4, 4), "c"),
    ];
    let messages = |line: u32| -> Vec<String> {
        current_line_diagnostics(&all, line).into_iter().map(|found| found.message).collect()
    };
    assert_eq!(messages(0), Vec::<String>::new());
    assert_eq!(messages(1), vec!["a"]);
    assert_eq!(messages(2), vec!["a"]);
    assert_eq!(messages(3), vec!["a", "b"]);
    assert_eq!(messages(4), vec!["c"]);
}

#[test]
fn sections_follow_each_other() {
    let goal = |shown: &str| InteractiveGoal {
        ty: tagged(shown, shown),
        ..InteractiveGoal::default()
    };
    let (text_shown, spans) = build_rendered_payload(
        &source(),
        None,
        Some(PlainTermGoalResult { goal: Some("T".to_string()), range: None }),
        Some(InteractiveGoalsResult { goals: vec![goal("A"), goal("B")] }),
        Some(goal("C")),
        &vec![diagnostic(Some(DiagnosticSeverity::Warning), (0, 0), "w")],
        true,
    );
    assert_eq!(
        text_shown,
        "✓ Goals accomplished.\n\n⊢ A\n\n⊢ B\n\n▼ expected type\n⊢ C\n\n▼ 1:1-1:2: warning:\nw\n"
    );
    let places: Vec<(usize, usize, Value)> =
        spans.iter().map(|span| (span.start, span.end, span.info.clone())).collect();
    assert_eq!(places, vec![(25, 26, text("A")), (30, 31, text("B")), (51, 52, text("C"))]);
    let at = CursorLine { cursor: 30, line_start: 28, line_end: 32 };
    assert_eq!(lookup_info_at_cursor(&spans, at), Some(text("B")));
}

#[test]
fn plain_goals_are_listed_but_for_those_that_say_none() {
    let (text_shown, spans) = build_rendered_payload(
        &source(),
        Some(PlainGoalResult {
            goals: vec!["x\n\n⊢ y".to_string(), "No goals.".to_string(), "z".to_string()],
            rendered: "unused".to_string(),
        }),
        Some(PlainTermGoalResult { goal: Some("no goals".to_string()), range: None }),
        Some(InteractiveGoalsResult { goals: vec![InteractiveGoal::default()] }),
        None,
        &vec![],
        false,
    );
    assert_eq!(text_shown, "x\n⊢ y\n\nz\n\n▼ expected type\n");
    assert!(spans.is_empty());
    let (text_shown, _) = build_rendered_payload(
        &source(),
        Some(PlainGoalResult { goals: vec![], rendered: "a\nb".to_string() }),
        None,
        None,
        None,
        &vec![],
        false,
    );
    assert_eq!(text_shown, "a\nb\n");
}

#[test]
fn the_heading_only_moves_the_rest() {
    let goals = || {
        Some(InteractiveGoalsResult {
            goals: vec![InteractiveGoal { ty: tagged("i", "A"), ..InteractiveGoal::default() }],
        })
    };
    let term = || Some(PlainTermGoalResult { goal: Some("T".to_string()), range: None });
    let hints = vec![diagnostic(Some(DiagnosticSeverity::Hint), (0, 0), "h")];
    for found in [vec![], hints] {
        let (with, moved) =
            build_rendered_payload(&source(), None, term(), goals(), None, &found, true);
        let (without, spans) =
            build_rendered_payload(&source(), None, term(), goals(), None, &found, false);
        assert_eq!(with, format!("✓ Goals accomplished.\n\n{without}"));
        assert_eq!((spans.len(), moved.len()), (1, 1));
        assert_eq!((moved[0].start, moved[0].end), (spans[0].start + 23, spans[0].end + 23));
        assert_eq!(moved[0].info, spans[0].info);
    }
    let (with, _) = build_rendered_payload(&source(), None, None, None, None, &vec![], true);
    assert_eq!(with, "✓ Goals accomplished.\n\n");
}

#[test]
fn errors_hide_that_goals_are_accomplished() {
    let found = vec![diagnostic(Some(DiagnosticSeverity::Error), (0, 0), "e")];
    let (with, _) = build_rendered_payload(&source(), None, None, None, None, &found, true);
    let (without, _) = build_rendered_payload(&source(), None, None, None, None, &found, false);
    assert_eq!(with, without);
    assert_eq!(with, "▼ 1:1-1:2: error:\ne\n");
}
