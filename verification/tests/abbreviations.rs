use lean_support::lean_abbreviations::{
    best_abbrev_prefix, expand_before_commit, expand_visible_segment, find_expansion, handle_space,
    is_lean_insert_source, lean_abbreviation, parse_abbreviation_line, parse_abbreviations,
    parse_scheme_string, Abbreviation, Expansion, InsertSource, Mode,
};

const DATA: &str = r#"
; abbreviations, one to a line
(define abbreviations
  (list "a" "α")
  (list "b" "β")
  (list "an" "ν")
  (list "and" "∧")
  (list "and=" "≙")
  (list "\"" "”")
  (list "\\" "\\")
  (list "and" "second")
)
"#;

fn table() -> Vec<Abbreviation> {
    parse_abbreviations(DATA)
}

fn entry(input: &str, replacement: &str) -> Abbreviation {
    Abbreviation { input: input.to_string(), replacement: replacement.to_string() }
}

fn expansion(start: usize, end: usize, replacement: &str) -> Expansion {
    Expansion { start, end, replacement: replacement.to_string() }
}

fn lean_source(text: &str, cursors: Vec<usize>) -> InsertSource {
    InsertSource {
        mode: Mode::Insert,
        has_path: true,
        extension: Some("lean".to_string()),
        language_name: Some("lean".to_string()),
        text: text.to_string(),
        cursors,
    }
}

#[test]
fn parses_abbreviation_pairs_from_scheme_data() {
    assert_eq!(
        parse_abbreviation_line(r#"(list "all" "∀")"#),
        Some(Abbreviation { input: "all".to_string(), replacement: "∀".to_string() })
    );
    assert_eq!(
        parse_abbreviation_line(r#"(list "\\" "\\")"#),
        Some(Abbreviation { input: "\\".to_string(), replacement: "\\".to_string() })
    );
}

#[test]
fn best_prefix_prefers_longest_match() {
    assert_eq!(best_abbrev_prefix(&table(), "and=ksdl"), Some((4, "≙".to_string())));
}

#[test]
fn best_prefix_prefers_longest_ambiguous_match() {
    assert_eq!(expand_visible_segment(&table(), "\\and=tail"), "≙tail");
}

#[test]
fn visible_segment_keeps_suffix_after_longest_match() {
    assert_eq!(expand_visible_segment(&table(), "\\and=ksdl"), "≙ksdl");
}

#[test]
fn visible_segment_keeps_short_suffix_after_longest_match() {
    assert_eq!(expand_visible_segment(&table(), "\\and=ks"), "≙ks");
}

#[test]
fn visible_expansion_replaces_only_prefix_and_keeps_suffix() {
    assert_eq!(
        find_expansion(&table(), "\\and=ksdl", 9),
        Some(Expansion { start: 0, end: 9, replacement: "≙ksdl".to_string() })
    );
}

#[test]
fn double_backslash_collapses_to_single_backslash() {
    assert_eq!(
        find_expansion(&table(), "\\\\", 2),
        Some(Expansion { start: 0, end: 2, replacement: "\\".to_string() })
    );
}

#[test]
fn chained_expansion_rewrites_multiple_abbreviations_in_one_token() {
    assert_eq!(
        find_expansion(&table(), "\\a\\b", 4),
        Some(Expansion { start: 0, end: 4, replacement: "αβ".to_string() })
    );
}

#[test]
fn chained_visible_segment_expands_left_to_right() {
    assert_eq!(expand_visible_segment(&table(), "\\a\\b"), "αβ");
}

#[test]
fn no_match_returns_none() {
    assert_eq!(find_expansion(&table(), "\\zzzzz", 6), None);
}

#[test]
fn data_lines_without_an_entry_are_passed_over() {
    assert_eq!(
        table(),
        vec![
            entry("a", "α"),
            entry("b", "β"),
            entry("an", "ν"),
            entry("and", "∧"),
            entry("and=", "≙"),
            entry("\"", "”"),
            entry("\\", "\\"),
            entry("and", "second"),
        ]
    );
    assert_eq!(parse_abbreviations("(list \"x\" \"y\")\r\n\r\n(list \"z\""), vec![entry("x", "y")]);
}

#[test]
fn abbreviation_lines_need_their_form() {
    assert_eq!(parse_abbreviation_line(""), None);
    assert_eq!(parse_abbreviation_line("(list)"), None);
    assert_eq!(parse_abbreviation_line("(list \"a\")"), None);
    assert_eq!(parse_abbreviation_line("(list \"a\" \"b"), None);
    assert_eq!(parse_abbreviation_line("(cons \"a\" \"b\")"), None);
    assert_eq!(parse_abbreviation_line("(list \"a\\"), None);
    assert_eq!(parse_abbreviation_line("\u{a0} (list x \"a\" y \"b\" \"c\") \t"), Some(entry("a", "b")));
    assert_eq!(parse_abbreviation_line("(list \"\" \"\")"), Some(entry("", "")));
}

#[test]
fn written_entries_are_read_back() {
    let escaped = |text: &str| text.replace('\\', "\\\\").replace('"', "\\\"");
    for input in ["", "a", "\"", "\\", "a\\\"b", "( \t)"] {
        for replacement in ["", "∀", "\\\\\""] {
            let line = format!("(list \"{}\" \"{}\")", escaped(input), escaped(replacement));
            for (before, after) in [("", ""), (" ", "\t"), ("\u{3000}\n", " \u{2028}\r")] {
                assert_eq!(
                    parse_abbreviation_line(&format!("{before}{line}{after}")),
                    Some(entry(input, replacement))
                );
            }
            assert_eq!(parse_abbreviation_line(&format!("x{line}")), None);
        }
    }
}

#[test]
fn scheme_strings_are_counted_in_bytes() {
    assert_eq!(parse_scheme_string("α\"β\\\"\"x", 2), Some(("β\"".to_string(), 8)));
    assert_eq!(parse_scheme_string("α\"β", 2), None);
    assert_eq!(parse_scheme_string("α\"β\"", 0), None);
    assert_eq!(parse_scheme_string("α", 2), None);
}

#[test]
fn best_prefix_takes_the_first_of_equally_long_entries() {
    assert_eq!(best_abbrev_prefix(&table(), "and"), Some((3, "∧".to_string())));
    assert_eq!(best_abbrev_prefix(&table(), "\\x"), Some((1, "\\".to_string())));
    assert_eq!(best_abbrev_prefix(&table(), "x"), None);
    assert_eq!(best_abbrev_prefix(&table(), ""), None);
}

#[test]
fn an_empty_entry_applies_to_every_input() {
    let table = vec![entry("", "ε")];
    assert_eq!(best_abbrev_prefix(&table, "x"), Some((0, "ε".to_string())));
    assert_eq!(expand_visible_segment(&table, "\\x\\"), "εxε");
}

#[test]
fn text_without_backslash_stays() {
    assert_eq!(expand_visible_segment(&table(), "and=αβ"), "and=αβ");
    assert_eq!(find_expansion(&table(), "and=", 4), None);
}

#[test]
fn what_stands_before_the_first_backslash_stays() {
    assert_eq!(expand_visible_segment(&table(), "xy\\b"), "xyβ");
}

#[test]
fn a_backslash_without_entry_stays() {
    assert_eq!(expand_visible_segment(&table(), "\\z\\a"), "\\zα");
    assert_eq!(expand_visible_segment(&table(), "\\"), "\\");
}

#[test]
fn double_backslash_shields_what_follows() {
    assert_eq!(expand_visible_segment(&table(), "\\\\a"), "\\a");
    assert_eq!(expand_visible_segment(&vec![], "\\\\\\\\"), "\\\\");
}

#[test]
fn tokens_end_at_white_space() {
    assert_eq!(find_expansion(&table(), "\\b \\a", 5), Some(expansion(3, 5, "α")));
    assert_eq!(find_expansion(&table(), "\\b\u{3000}\\a", 5), Some(expansion(3, 5, "α")));
    assert_eq!(find_expansion(&table(), "\\b\u{200b}\\a", 5), Some(expansion(0, 5, "β\u{200b}α")));
    assert_eq!(find_expansion(&table(), "\\b ", 3), None);
    assert_eq!(find_expansion(&table(), "\\b", 0), None);
    assert_eq!(find_expansion(&table(), "\\bx", 2), Some(expansion(0, 2, "β")));
}

#[test]
fn every_cursor_gets_its_expansion_in_text_order() {
    let source = lean_source("\\a \\b x", vec![5, 2, 7, 2]);
    assert_eq!(
        expand_before_commit(&source, &table()),
        vec![expansion(0, 2, "α"), expansion(0, 2, "α"), expansion(3, 5, "β")]
    );
    assert_eq!(lean_abbreviation(&source, &table()), expand_before_commit(&source, &table()));
}

#[test]
fn only_lean_documents_in_insert_mode_expand() {
    let mut source = lean_source("\\a", vec![2]);
    assert!(is_lean_insert_source(&source));
    source.language_name = None;
    assert!(is_lean_insert_source(&source));
    source.extension = Some("rs".to_string());
    assert!(!is_lean_insert_source(&source));
    assert_eq!(expand_before_commit(&source, &table()), vec![]);
    assert_eq!(handle_space(&source, &table()), None);
    source.language_name = Some("lean".to_string());
    assert!(is_lean_insert_source(&source));
    source.has_path = false;
    assert!(!is_lean_insert_source(&source));
    source.has_path = true;
    source.mode = Mode::Normal;
    assert!(!is_lean_insert_source(&source));
    source.mode = Mode::Select;
    assert!(!is_lean_insert_source(&source));
}

#[test]
fn a_space_expands_and_is_entered() {
    assert_eq!(
        handle_space(&lean_source("\\a", vec![2]), &table()),
        Some((vec![expansion(0, 2, "α")], " ".to_string()))
    );
    assert_eq!(
        handle_space(&lean_source("x", vec![1]), &table()),
        Some((vec![], " ".to_string()))
    );
}
