//! The diagnostics of a line, as lines of the infoview.
use vstd::prelude::*;
use crate::protocol::{Diagnostic, DiagnosticSeverity, NumberOrString, Range};
use crate::segments::{
    plain_line, push_empty_line, push_plain_line, rendered, RenderedLine, Segment,
};
use crate::text::{
    decimal, decimal_of, law_decimal_is_read_back, law_replace_goes_by_character,
    law_trim_prefixes_takes_all_copies, lines, lines_of, number, replace, replaced, signed_decimal,
    signed_decimal_of, starts_with, texts, trim_prefixes, trimmed_prefixes,
};

verus! {

/// The name that a header gives a severity.
pub open spec fn severity_name(severity: Option<DiagnosticSeverity>) -> Seq<char> {
    match severity {
        Some(DiagnosticSeverity::Error) => "error"@,
        Some(DiagnosticSeverity::Warning) => "warning"@,
        Some(DiagnosticSeverity::Information) => "information"@,
        Some(DiagnosticSeverity::Hint) => "hint"@,
        _ => "diagnostic"@,
    }
}

/// A range as `line:character-line:character`, counted from 1.
pub open spec fn range_text(range: Range) -> Seq<char> {
    decimal((range.start.line + 1) as nat) + ":"@ + decimal((range.start.character + 1) as nat)
        + "-"@ + decimal((range.end.line + 1) as nat) + ":"@ + decimal(
        (range.end.character + 1) as nat,
    )
}

/// The header of a diagnostic.
pub open spec fn header(diagnostic: Diagnostic) -> Seq<char> {
    "▼ "@ + range_text(diagnostic.range) + ": "@ + severity_name(diagnostic.severity) + ":"@
}

/// A code as text.
pub open spec fn code_text(code: NumberOrString) -> Seq<char> {
    match code {
        NumberOrString::Number(n) => signed_decimal(n as int),
        NumberOrString::Text(text) => text@,
    }
}

/// Where a diagnostic is explained: where it says so itself, or else where Lean explains its
/// error codes.
pub open spec fn explanation_url(diagnostic: Diagnostic) -> Option<Seq<char>> {
    match diagnostic.code_description {
        Some(description) => Some(description.href@),
        None => match diagnostic.code {
            Some(NumberOrString::Text(code)) if "lean."@.is_prefix_of(code@) => Some(
                "https://lean-lang.org/doc/reference/latest/Error-Explanations/About___--"@
                    + trim_prefixes(code@, "lean."@) + "/#"@ + replace(code@, '.', "___"@),
            ),
            _ => None,
        },
    }
}

/// The lines of one diagnostic.
pub open spec fn diagnostic_lines(diagnostic: Diagnostic) -> Seq<Seq<Segment>> {
    let message = lines(diagnostic.message@).map_values(|line: Seq<char>| plain_line(line));
    let code = match diagnostic.code {
        Some(code) => seq![plain_line("Error code: "@ + code_text(code))],
        None => Seq::empty(),
    };
    let url = match explanation_url(diagnostic) {
        Some(url) => seq![plain_line("View explanation: "@ + url)],
        None => Seq::empty(),
    };
    seq![plain_line(header(diagnostic))] + message + code + url
}

/// The lines of the diagnostics, with an empty line between each two of them.
pub open spec fn diagnostic_sections(diagnostics: Seq<Diagnostic>) -> Seq<Seq<Segment>>
    decreases diagnostics.len(),
{
    if diagnostics.len() == 0 {
        Seq::empty()
    } else if diagnostics.len() == 1 {
        diagnostic_lines(diagnostics[0])
    } else {
        diagnostic_sections(diagnostics.drop_last()).push(Seq::empty()) + diagnostic_lines(
            diagnostics.last(),
        )
    }
}

/// A range as `line:character-line:character`, counted from 1.
pub fn format_range(range: &Range) -> (text: String)
    requires
        range.countable(),
    ensures
        text@ == range_text(*range),
{
    let mut text = decimal_of((range.start.line + 1) as u64);
    text.append(":");
    text.append(decimal_of((range.start.character + 1) as u64).as_str());
    text.append("-");
    text.append(decimal_of((range.end.line + 1) as u64).as_str());
    text.append(":");
    text.append(decimal_of((range.end.character + 1) as u64).as_str());
    text
}

/// The header of a diagnostic: its range and its severity.
pub fn format_diagnostic_header(diagnostic: &Diagnostic) -> (text: String)
    requires
        diagnostic.range.countable(),
    ensures
        text@ == header(*diagnostic),
{
    let severity = match diagnostic.severity {
        Some(DiagnosticSeverity::Error) => "error",
        Some(DiagnosticSeverity::Warning) => "warning",
        Some(DiagnosticSeverity::Information) => "information",
        Some(DiagnosticSeverity::Hint) => "hint",
        _ => "diagnostic",
    };
    let mut text = "▼ ".to_string();
    text.append(format_range(&diagnostic.range).as_str());
    text.append(": ");
    text.append(severity);
    text.append(":");
    text
}

/// A code as text.
pub fn diagnostic_code_text(code: &NumberOrString) -> (text: String)
    ensures
        text@ == code_text(*code),
{
    match code {
        NumberOrString::Number(n) => signed_decimal_of(*n),
        NumberOrString::Text(text) => text.clone(),
    }
}

/// Where a diagnostic is explained.
pub fn diagnostic_explanation_url(diagnostic: &Diagnostic) -> (url: Option<String>)
    ensures
        match url {
            Some(url) => explanation_url(*diagnostic) == Some(url@),
            None => explanation_url(*diagnostic) is None,
        },
{
    if let Some(description) = &diagnostic.code_description {
        return Some(description.href.clone());
    }
    match &diagnostic.code {
        Some(NumberOrString::Text(code)) => {
            if !starts_with(code.as_str(), "lean.") {
                return None;
            }
            proof {
                reveal_strlit("lean.");
            }
            let mut url =
                "https://lean-lang.org/doc/reference/latest/Error-Explanations/About___--".to_string();
            url.append(trimmed_prefixes(code.as_str(), "lean.").as_str());
            url.append("/#");
            url.append(replaced(code.as_str(), '.', "___").as_str());
            Some(url)
        },
        _ => None,
    }
}

/// Appends the lines of one diagnostic.
fn push_diagnostic(lines: &mut Vec<RenderedLine>, diagnostic: &Diagnostic)
    requires
        diagnostic.range.countable(),
    ensures
        rendered(final(lines)@) == rendered(old(lines)@) + diagnostic_lines(*diagnostic),
{
    let ghost start = rendered(lines@);
    push_plain_line(lines, format_diagnostic_header(diagnostic));
    let message = lines_of(diagnostic.message.as_str());
    let ghost shown = texts(message@);
    let ghost headed = start.push(plain_line(header(*diagnostic)));
    let mut i: usize = 0;
    assert(rendered(lines@) =~= headed + shown.take(0).map_values(
        |line: Seq<char>| plain_line(line),
    ));
    while i < message.len()
        invariant
            i <= message@.len(),
            shown == texts(message@),
            rendered(lines@) == headed + shown.take(i as int).map_values(
                |line: Seq<char>| plain_line(line),
            ),
        decreases message@.len() - i,
    {
        push_plain_line(lines, message[i].clone());
        i += 1;
        assert(rendered(lines@) =~= headed + shown.take(i as int).map_values(
            |line: Seq<char>| plain_line(line),
        ));
    }
    assert(shown.take(message@.len() as int) =~= shown);
    if let Some(code) = &diagnostic.code {
        let mut text = "Error code: ".to_string();
        text.append(diagnostic_code_text(code).as_str());
        push_plain_line(lines, text);
    }
    if let Some(url) = diagnostic_explanation_url(diagnostic) {
        let mut text = "View explanation: ".to_string();
        text.append(url.as_str());
        push_plain_line(lines, text);
    }
    assert(rendered(lines@) =~= start + diagnostic_lines(*diagnostic));
}

/// The lines of the diagnostics.
pub fn render_diagnostic_sections(diagnostics: &Vec<Diagnostic>) -> (lines: Vec<RenderedLine>)
    requires
        forall|i: int|
            0 <= i < diagnostics@.len() ==> (#[trigger] diagnostics@[i]).range.countable(),
    ensures
        rendered(lines@) == diagnostic_sections(diagnostics@),
{
    let mut lines: Vec<RenderedLine> = Vec::new();
    let mut i: usize = 0;
    assert(rendered(lines@) =~= diagnostic_sections(diagnostics@.take(0)));
    while i < diagnostics.len()
        invariant
            i <= diagnostics@.len(),
            forall|k: int|
                0 <= k < diagnostics@.len() ==> (#[trigger] diagnostics@[k]).range.countable(),
            rendered(lines@) == diagnostic_sections(diagnostics@.take(i as int)),
        decreases diagnostics@.len() - i,
    {
        assert(diagnostics@.take(i + 1).drop_last() =~= diagnostics@.take(i as int));
        if i > 0 {
            push_empty_line(&mut lines);
        }
        push_diagnostic(&mut lines, &diagnostics[i]);
        i += 1;
        assert(rendered(lines@) =~= diagnostic_sections(diagnostics@.take(i as int)));
    }
    assert(diagnostics@.take(diagnostics@.len() as int) =~= diagnostics@);
    lines
}

/// Whether `line` is one of the lines that a diagnostic is about.
pub open spec fn is_about_line(diagnostic: Diagnostic, line: u32) -> bool {
    let first = diagnostic.range.start.line;
    first <= line && (line <= diagnostic.range.end.line || line == first)
}

/// The diagnostics that are about `line`, in their order.
pub fn current_line_diagnostics(diagnostics: &Vec<Diagnostic>, line: u32) -> (found: Vec<Diagnostic>)
    ensures
        found@ == diagnostics@.filter(|diagnostic: Diagnostic| is_about_line(diagnostic, line)),
{
    let ghost about = |diagnostic: Diagnostic| is_about_line(diagnostic, line);
    let mut found: Vec<Diagnostic> = Vec::new();
    let mut i: usize = 0;
    proof {
        reveal(Seq::filter);
        assert(diagnostics@.take(0).filter(about) =~= Seq::empty());
    }
    while i < diagnostics.len()
        invariant
            i <= diagnostics@.len(),
            about == (|diagnostic: Diagnostic| is_about_line(diagnostic, line)),
            found@ == diagnostics@.take(i as int).filter(about),
        decreases diagnostics@.len() - i,
    {
        proof {
            reveal(Seq::filter);
            assert(diagnostics@.take(i + 1).drop_last() =~= diagnostics@.take(i as int));
        }
        let diagnostic = &diagnostics[i];
        let start = diagnostic.range.start.line;
        let end = if diagnostic.range.end.line > start {
            diagnostic.range.end.line
        } else {
            start
        };
        if start <= line && line <= end {
            found.push(diagnostic.clone());
        }
        i += 1;
    }
    assert(diagnostics@.take(diagnostics@.len() as int) =~= diagnostics@);
    found
}

/// A header holds the range, counted from 1, and the name of the severity.
pub proof fn law_header_tells_range_and_severity(diagnostic: Diagnostic)
    ensures
        header(diagnostic) == "▼ "@ + range_text(diagnostic.range) + ": "@ + match diagnostic.severity {
            Some(DiagnosticSeverity::Error) => "error"@,
            Some(DiagnosticSeverity::Warning) => "warning"@,
            Some(DiagnosticSeverity::Information) => "information"@,
            Some(DiagnosticSeverity::Hint) => "hint"@,
            Some(DiagnosticSeverity::Other) => "diagnostic"@,
            None => "diagnostic"@,
        } + ":"@,
{
}

/// The four counts of a range stand in its text one above their values, and are read back from it.
pub proof fn law_range_counts_from_one(range: Range)
    ensures
        exists|a: Seq<char>, b: Seq<char>, c: Seq<char>, d: Seq<char>| #[trigger]
            range_parts(range_text(range), a, b, c, d) && number(a) == range.start.line + 1
                && number(b) == range.start.character + 1 && number(c) == range.end.line + 1
                && number(d) == range.end.character + 1,
{
    let a = decimal((range.start.line + 1) as nat);
    let b = decimal((range.start.character + 1) as nat);
    let c = decimal((range.end.line + 1) as nat);
    let d = decimal((range.end.character + 1) as nat);
    law_decimal_is_read_back((range.start.line + 1) as nat);
    law_decimal_is_read_back((range.start.character + 1) as nat);
    law_decimal_is_read_back((range.end.line + 1) as nat);
    law_decimal_is_read_back((range.end.character + 1) as nat);
    assert(range_parts(range_text(range), a, b, c, d));
}

/// Whether `text` is the four numbers, each made of digits, written `a:b-c:d`.
pub open spec fn range_parts(
    text: Seq<char>,
    a: Seq<char>,
    b: Seq<char>,
    c: Seq<char>,
    d: Seq<char>,
) -> bool {
    &&& text == a + ":"@ + b + "-"@ + c + ":"@ + d
    &&& forall|i: int| 0 <= i < a.len() ==> '0' <= #[trigger] a[i] <= '9'
    &&& forall|i: int| 0 <= i < b.len() ==> '0' <= #[trigger] b[i] <= '9'
    &&& forall|i: int| 0 <= i < c.len() ==> '0' <= #[trigger] c[i] <= '9'
    &&& forall|i: int| 0 <= i < d.len() ==> '0' <= #[trigger] d[i] <= '9'
}

/// The header stands first, then every line of the message in its order, then the code and the place
/// where it is explained, where there are any, and nothing else. None of it refers to anything.
pub proof fn law_diagnostic_shows_all_it_has(diagnostic: Diagnostic)
    ensures
        ({
            let shown = diagnostic_lines(diagnostic);
            let message = lines(diagnostic.message@);
            let coded: int = if diagnostic.code is Some {
                1
            } else {
                0
            };
            let explained: int = if explanation_url(diagnostic) is Some {
                1
            } else {
                0
            };
            &&& shown.len() == 1 + message.len() + coded + explained
            &&& shown[0] == seq![Segment { text: header(diagnostic), info: None }]
            &&& forall|i: int|
                0 <= i < message.len() ==> #[trigger] shown[1 + i] == seq![
                    Segment { text: message[i], info: None },
                ]
            &&& diagnostic.code matches Some(code) ==> shown[(1 + message.len()) as int] == seq![
                Segment {
                    text: "Error code: "@ + match code {
                        NumberOrString::Number(n) => signed_decimal(n as int),
                        NumberOrString::Text(text) => text@,
                    },
                    info: None,
                },
            ]
            &&& explanation_url(diagnostic) matches Some(url) ==> shown.last() == seq![
                Segment { text: "View explanation: "@ + url, info: None },
            ]
        }),
{
    let shown = diagnostic_lines(diagnostic);
    let message = lines(diagnostic.message@);
    assert forall|i: int| 0 <= i < message.len() implies #[trigger] shown[1 + i] == seq![
        Segment { text: message[i], info: None },
    ] by {}
}

/// A diagnostic is explained where it says so itself, and else, where its code is one of Lean's, at
/// the page for what the code says behind `lean.`. Any other is not explained.
pub proof fn law_explanation_goes_by_the_code(diagnostic: Diagnostic, slug: Seq<char>)
    ensures
        match (diagnostic.code_description, diagnostic.code) {
            (Some(description), _) => explanation_url(diagnostic) == Some(description.href@),
            (None, Some(NumberOrString::Text(code))) => {
                &&& code@ == "lean."@ + slug ==> explanation_url(diagnostic) == Some(
                    "https://lean-lang.org/doc/reference/latest/Error-Explanations/About___--"@
                        + trim_prefixes(slug, "lean."@) + "/#"@ + replace("lean."@, '.', "___"@)
                        + replace(slug, '.', "___"@),
                )
                &&& !"lean."@.is_prefix_of(code@) ==> explanation_url(diagnostic) is None
            },
            (None, _) => explanation_url(diagnostic) is None,
        },
{
    reveal_strlit("lean.");
    law_trim_prefixes_takes_all_copies(slug, "lean."@);
    law_replace_goes_by_character("lean."@, slug, '.', "___"@, 'l');
    assert(("lean."@ + slug).subrange(0, "lean."@.len() as int) =~= "lean."@);
    let page = "https://lean-lang.org/doc/reference/latest/Error-Explanations/About___--"@
        + trim_prefixes(slug, "lean."@) + "/#"@;
    assert(page + (replace("lean."@, '.', "___"@) + replace(slug, '.', "___"@)) =~= page + replace(
        "lean."@,
        '.',
        "___"@,
    ) + replace(slug, '.', "___"@));
}

/// Diagnostics are shown one after the other, with one empty line between each two.
pub proof fn law_diagnostics_are_set_off(
    first: Seq<Diagnostic>,
    second: Seq<Diagnostic>,
    one: Diagnostic,
)
    ensures
        first.len() > 0 && second.len() > 0 ==> diagnostic_sections(first + second)
            == diagnostic_sections(first) + seq![Seq::empty()] + diagnostic_sections(second),
        diagnostic_sections(seq![one]) == diagnostic_lines(one),
        diagnostic_sections(Seq::empty()) == Seq::<Seq<Segment>>::empty(),
    decreases second.len(),
{
    if first.len() > 0 && second.len() > 0 {
        let both = first + second;
        assert(both.drop_last() =~= first + second.drop_last());
        if second.len() == 1 {
            assert(first + second.drop_last() =~= first);
            assert(diagnostic_sections(both) =~= diagnostic_sections(first) + seq![Seq::empty()]
                + diagnostic_sections(second));
        } else {
            law_diagnostics_are_set_off(first, second.drop_last(), one);
            assert(diagnostic_sections(both) =~= diagnostic_sections(first) + seq![Seq::empty()]
                + diagnostic_sections(second));
        }
    }
}

/// A diagnostic is about the lines from its start to its end, and at least about that of its start.
pub proof fn law_diagnostic_is_about_its_lines(diagnostic: Diagnostic, line: u32)
    ensures
        is_about_line(diagnostic, line) <==> diagnostic.range.start.line <= line && line <= if diagnostic.range.end.line
            > diagnostic.range.start.line {
            diagnostic.range.end.line
        } else {
            diagnostic.range.start.line
        },
{
}

} // verus!
