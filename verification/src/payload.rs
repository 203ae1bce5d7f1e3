//! The text of the infoview: what is accomplished, the goals, the expected type and the
//! diagnostics.
use vstd::prelude::*;
use crate::buffer::{
    law_line_keeps_what_is_there, law_lines_add_their_text, law_lines_are_added_behind_a_heading,
    law_lines_hold_their_segments, law_lines_keep_what_is_there,
    law_separator_is_added_behind_a_heading, law_separator_is_one_line_feed,
    law_separator_keeps_what_is_there, lemma_start_of_start, push_section_separator, spans_of, Buffer, BufferBuilder, InfoSpan, Span,
};
use crate::diagnostics::{
    diagnostic_sections, format_range, header, range_text, render_diagnostic_sections,
};
use crate::editor::SourceContext;
use crate::goals::{
    goal_lines, interactive_goal_rank, interactive_goal_score, interactive_term_goal_rank,
    interactive_term_goal_score, keeps_line, law_visible_text_has_a_visible_line, plain_lines,
    plain_response_text_is_no_goals, plain_term_goal_rank, plain_term_goal_score,
    plain_text_has_visible_content, plain_text_lines, render_interactive_goal_lines, says_no_goals,
};
use crate::protocol::{
    Diagnostic, DiagnosticSeverity, Goal, InteractiveGoal, InteractiveGoalsResult, PlainGoal,
    PlainGoalResult, PlainTermGoal, PlainTermGoalResult,
};
use crate::segments::{
    append_lines, break_lines, flatten, law_lines_keep_the_text,
    law_tagged_text_is_as_visible_as_its_text, lemma_text_of_both, lemma_text_of_one, line_of, line_texts, plain_line, push_empty_line, push_plain_line, rendered,
    tagged_is_visible, text_of, RenderedLine, Segment,
};
use crate::text::{
    is_visible, join, law_visible_text_survives_trimming, lemma_split_is_not_empty, split, texts, trim,
};
use crate::views::viewed;

verus! {

/// What is said where the goals of a line are accomplished.
pub const GOALS_ACCOMPLISHED_TEXT: &'static str = "✓ Goals accomplished.";

/// The lines of the goals, with an empty line between each two of them.
pub open spec fn goals_lines(goals: Seq<Goal>) -> Seq<Seq<Segment>>
    decreases goals.len(),
{
    if goals.len() == 0 {
        Seq::empty()
    } else if goals.len() == 1 {
        goal_lines(goals[0])
    } else {
        goals_lines(goals.drop_last()).push(Seq::empty()) + goal_lines(goals.last())
    }
}

/// The lines of the goals, each followed by an empty line, but for those that say that there are
/// none.
pub open spec fn listed_goals(goals: Seq<Seq<char>>) -> Seq<Seq<Segment>>
    decreases goals.len(),
{
    if goals.len() == 0 {
        Seq::empty()
    } else if says_no_goals(goals.last()) {
        listed_goals(goals.drop_last())
    } else {
        listed_goals(goals.drop_last()) + plain_lines(goals.last()).push(Seq::empty())
    }
}

/// The lines of goals that came as text.
pub open spec fn plain_goal_lines(result: Option<PlainGoal>) -> Seq<Seq<Segment>> {
    match result {
        None => Seq::empty(),
        Some(result) => if result.goals.len() > 0 {
            listed_goals(result.goals)
        } else if says_no_goals(result.rendered) || !is_visible(result.rendered) {
            Seq::empty()
        } else {
            plain_lines(result.rendered)
        },
    }
}

/// The lines about the goals: the interactive ones where all of them can be shown.
pub open spec fn goals_section(plain: Option<PlainGoal>, interactive: Option<Seq<Goal>>) -> Seq<
    Seq<Segment>,
> {
    if interactive_goal_rank(interactive) > 1 {
        goals_lines(interactive->0)
    } else {
        plain_goal_lines(plain)
    }
}

/// The title above an expected type.
pub open spec fn title(result: PlainTermGoal) -> Seq<char> {
    match result.range {
        None => "▼ expected type"@,
        Some(range) => "▼ expected type ("@ + range_text(range) + ")"@,
    }
}

/// Whether there is an expected type to show.
pub open spec fn shows_term(plain: Option<PlainTermGoal>, interactive: Option<Goal>) -> bool {
    interactive_term_goal_rank(interactive) > 1 || plain_term_goal_rank(plain) > 0
}

/// The lines about the expected type.
pub open spec fn term_section(plain: Option<PlainTermGoal>, interactive: Option<Goal>) -> Seq<
    Seq<Segment>,
> {
    let titled = match plain {
        Some(result) => seq![plain_line(title(result))],
        None => Seq::empty(),
    };
    let body = if interactive_term_goal_rank(interactive) > 1 {
        goal_lines(interactive->0)
    } else {
        match plain {
            Some(PlainTermGoal { goal: Some(goal), .. }) if !says_no_goals(goal) => plain_lines(
                goal,
            ),
            _ => Seq::empty(),
        }
    };
    titled + body
}

/// Whether one of the diagnostics is an error.
pub open spec fn has_error(diagnostics: Seq<Diagnostic>) -> bool {
    exists|i: int|
        0 <= i < diagnostics.len() && (#[trigger] diagnostics[i]).severity == Some(
            DiagnosticSeverity::Error,
        )
}

/// All that the infoview shows.
pub struct Shown {
    pub plain_goal: Option<PlainGoal>,
    pub plain_term_goal: Option<PlainTermGoal>,
    pub interactive_goals: Option<Seq<Goal>>,
    pub interactive_term_goal: Option<Goal>,
    pub diagnostics: Seq<Diagnostic>,
    pub goals_accomplished: bool,
}

impl Shown {
    /// Whether all counts that are shown can be written from 1.
    pub open spec fn countable(self) -> bool {
        &&& forall|i: int|
            0 <= i < self.diagnostics.len() ==> (#[trigger] self.diagnostics[i]).range.countable()
        &&& shows_term(self.plain_term_goal, self.interactive_term_goal) ==> match self.plain_term_goal {
            Some(PlainTermGoal { range: Some(range), .. }) => range.countable(),
            _ => true,
        }
    }

    /// The section that says that the goals are accomplished.
    pub open spec fn accomplished(self) -> Buffer {
        if self.goals_accomplished && !has_error(self.diagnostics) {
            Buffer::empty().add_line(plain_line("✓ Goals accomplished."@)).separate()
        } else {
            Buffer::empty()
        }
    }

    /// The sections up to the one about the goals.
    pub open spec fn with_goals(self) -> Buffer {
        self.accomplished().add_lines(goals_section(self.plain_goal, self.interactive_goals))
    }

    /// The sections up to the one about the expected type.
    pub open spec fn with_term(self) -> Buffer {
        if shows_term(self.plain_term_goal, self.interactive_term_goal) {
            self.with_goals().separate().add_lines(
                term_section(self.plain_term_goal, self.interactive_term_goal),
            )
        } else {
            self.with_goals()
        }
    }

    /// All sections.
    pub open spec fn buffer(self) -> Buffer {
        if self.diagnostics.len() > 0 {
            self.with_term().separate().add_lines(diagnostic_sections(self.diagnostics))
        } else {
            self.with_term()
        }
    }
}

/// What the replies and the diagnostics ask to be shown.
pub open spec fn shown(
    plain_goal: Option<PlainGoalResult>,
    plain_term_goal: Option<PlainTermGoalResult>,
    interactive_goals: Option<InteractiveGoalsResult>,
    interactive_term_goal: Option<InteractiveGoal>,
    diagnostics: Seq<Diagnostic>,
    goals_accomplished: bool,
) -> Shown {
    Shown {
        plain_goal: viewed(plain_goal),
        plain_term_goal: viewed(plain_term_goal),
        interactive_goals: viewed(interactive_goals),
        interactive_term_goal: viewed(interactive_term_goal),
        diagnostics,
        goals_accomplished,
    }
}

/// The title above an expected type.
pub fn term_goal_title(result: &PlainTermGoalResult) -> (text: String)
    requires
        result.range is Some ==> result.range->0.countable(),
    ensures
        text@ == title(result@),
{
    match &result.range {
        None => "▼ expected type".to_string(),
        Some(range) => {
            let mut text = "▼ expected type (".to_string();
            text.append(format_range(range).as_str());
            text.append(")");
            text
        },
    }
}

fn any_error(diagnostics: &Vec<Diagnostic>) -> (yes: bool)
    ensures
        yes == has_error(diagnostics@),
{
    let mut i: usize = 0;
    while i < diagnostics.len()
        invariant
            i <= diagnostics@.len(),
            forall|k: int|
                0 <= k < i ==> (#[trigger] diagnostics@[k]).severity != Some(
                    DiagnosticSeverity::Error,
                ),
        decreases diagnostics@.len() - i,
    {
        if let Some(DiagnosticSeverity::Error) = diagnostics[i].severity {
            return true;
        }
        i += 1;
    }
    false
}

/// The lines of the goals, with an empty line between each two of them.
fn render_goals(goals: &Vec<InteractiveGoal>) -> (lines: Vec<RenderedLine>)
    ensures
        rendered(lines@) == goals_lines(goals@.map_values(|goal: InteractiveGoal| goal@)),
{
    let ghost all = goals@.map_values(|goal: InteractiveGoal| goal@);
    let mut lines: Vec<RenderedLine> = Vec::new();
    let mut i: usize = 0;
    assert(rendered(lines@) =~= goals_lines(all.take(0)));
    while i < goals.len()
        invariant
            i <= goals@.len(),
            all == goals@.map_values(|goal: InteractiveGoal| goal@),
            rendered(lines@) == goals_lines(all.take(i as int)),
        decreases goals@.len() - i,
    {
        assert(all.take(i + 1).drop_last() =~= all.take(i as int));
        if i > 0 {
            push_empty_line(&mut lines);
        }
        append_lines(&mut lines, render_interactive_goal_lines(&goals[i]));
        i += 1;
        assert(rendered(lines@) =~= goals_lines(all.take(i as int)));
    }
    assert(all.take(goals@.len() as int) =~= all);
    lines
}

/// The lines of goals that came as text.
fn render_plain_goals(result: Option<&PlainGoalResult>) -> (lines: Vec<RenderedLine>)
    ensures
        rendered(lines@) == plain_goal_lines(viewed(result)),
{
    let mut lines: Vec<RenderedLine> = Vec::new();
    assert(rendered(lines@) =~= Seq::empty());
    match result {
        None => {},
        Some(reply) => {
            if !reply.goals.is_empty() {
                let ghost goals = texts(reply.goals@);
                let mut i: usize = 0;
                assert(listed_goals(goals.take(0)) =~= Seq::empty());
                while i < reply.goals.len()
                    invariant
                        i <= reply.goals@.len(),
                        goals == texts(reply.goals@),
                        rendered(lines@) == listed_goals(goals.take(i as int)),
                    decreases reply.goals@.len() - i,
                {
                    assert(goals.take(i + 1).drop_last() =~= goals.take(i as int));
                    let goal = reply.goals[i].as_str();
                    if !plain_response_text_is_no_goals(goal) {
                        append_lines(&mut lines, plain_text_lines(goal));
                        push_empty_line(&mut lines);
                    }
                    i += 1;
                    assert(rendered(lines@) =~= listed_goals(goals.take(i as int)));
                }
                assert(goals.take(reply.goals@.len() as int) =~= goals);
            } else if !plain_response_text_is_no_goals(reply.rendered.as_str())
                && plain_text_has_visible_content(reply.rendered.as_str()) {
                return plain_text_lines(reply.rendered.as_str());
            }
        },
    }
    lines
}

/// The lines about the expected type.
fn render_term(
    plain_term_goal: Option<&PlainTermGoalResult>,
    interactive_term_goal: Option<&InteractiveGoal>,
) -> (lines: Vec<RenderedLine>)
    requires
        plain_term_goal is Some && plain_term_goal->0.range is Some
            ==> plain_term_goal->0.range->0.countable(),
    ensures
        rendered(lines@) == term_section(
            viewed(plain_term_goal),
            viewed(interactive_term_goal),
        ),
{
    let mut lines: Vec<RenderedLine> = Vec::new();
    assert(rendered(lines@) =~= Seq::empty());
    if let Some(result) = plain_term_goal {
        push_plain_line(&mut lines, term_goal_title(result));
    }
    let ghost titled = rendered(lines@);
    if interactive_term_goal_score(interactive_term_goal) > 1 {
        if let Some(goal) = interactive_term_goal {
            append_lines(&mut lines, render_interactive_goal_lines(goal));
        }
    } else if let Some(result) = plain_term_goal {
        if let Some(goal) = &result.goal {
            if !plain_response_text_is_no_goals(goal.as_str()) {
                append_lines(&mut lines, plain_text_lines(goal.as_str()));
            }
        }
    }
    assert(rendered(lines@) =~= term_section(
        viewed(plain_term_goal),
        viewed(interactive_term_goal),
    ));
    lines
}

/// The text of the infoview, and the spans of it that refer to a value.
pub fn build_rendered_payload(
    _source: &SourceContext,
    plain_goal: Option<PlainGoalResult>,
    plain_term_goal: Option<PlainTermGoalResult>,
    interactive_goals: Option<InteractiveGoalsResult>,
    interactive_term_goal: Option<InteractiveGoal>,
    diagnostics: &Vec<Diagnostic>,
    goals_accomplished: bool,
) -> (payload: (String, Vec<InfoSpan>))
    requires
        shown(
            plain_goal,
            plain_term_goal,
            interactive_goals,
            interactive_term_goal,
            diagnostics@,
            goals_accomplished,
        ).countable(),
    ensures
        (Buffer { text: payload.0@, spans: spans_of(payload.1@) }) == shown(
            plain_goal,
            plain_term_goal,
            interactive_goals,
            interactive_term_goal,
            diagnostics@,
            goals_accomplished,
        ).buffer(),
{
    let ghost all = shown(
        plain_goal,
        plain_term_goal,
        interactive_goals,
        interactive_term_goal,
        diagnostics@,
        goals_accomplished,
    );
    let mut builder = BufferBuilder::default();
    if goals_accomplished && !any_error(diagnostics) {
        builder.push_line(&line_of(GOALS_ACCOMPLISHED_TEXT.to_string()));
        push_section_separator(&mut builder);
    }
    let goals = if interactive_goal_score(interactive_goals.as_ref()) > 1 {
        match &interactive_goals {
            Some(reply) => render_goals(&reply.goals),
            None => Vec::new(),
        }
    } else {
        render_plain_goals(plain_goal.as_ref())
    };
    builder.push_lines(&goals);
    assert(builder@ == all.with_goals());
    if interactive_term_goal_score(interactive_term_goal.as_ref()) > 1 || plain_term_goal_score(
        plain_term_goal.as_ref(),
    ) > 0 {
        push_section_separator(&mut builder);
        builder.push_lines(&render_term(plain_term_goal.as_ref(), interactive_term_goal.as_ref()));
    }
    assert(builder@ == all.with_term());
    if !diagnostics.is_empty() {
        push_section_separator(&mut builder);
        builder.push_lines(&render_diagnostic_sections(diagnostics));
    }
    (builder.text, builder.spans)
}

/// The spans of what the infoview shows lie in its text, in its order, and no two over each other.
pub proof fn law_shown_spans_are_in_order(all: Shown)
    ensures
        all.accomplished().in_order(),
        all.with_goals().in_order(),
        all.with_term().in_order(),
        all.buffer().in_order(),
        all.accomplished().is_start_of(all.with_goals()),
        all.with_goals().is_start_of(all.with_term()),
        all.with_term().is_start_of(all.buffer()),
{
    let heading = Buffer::empty().add_line(plain_line("✓ Goals accomplished."@));
    law_line_keeps_what_is_there(Buffer::empty(), plain_line("✓ Goals accomplished."@));
    law_separator_keeps_what_is_there(heading);
    law_lines_keep_what_is_there(
        all.accomplished(),
        goals_section(all.plain_goal, all.interactive_goals),
    );
    law_separator_keeps_what_is_there(all.with_goals());
    law_lines_keep_what_is_there(
        all.with_goals().separate(),
        term_section(all.plain_term_goal, all.interactive_term_goal),
    );
    if shows_term(all.plain_term_goal, all.interactive_term_goal) {
        lemma_start_of_start(all.with_goals(), all.with_goals().separate(), all.with_term());
    }
    law_separator_keeps_what_is_there(all.with_term());
    law_lines_keep_what_is_there(
        all.with_term().separate(),
        diagnostic_sections(all.diagnostics),
    );
    if all.diagnostics.len() > 0 {
        lemma_start_of_start(all.with_term(), all.with_term().separate(), all.buffer());
    }
}

/// That the goals are accomplished is not said beside an error.
pub proof fn law_errors_hide_what_is_accomplished(all: Shown)
    requires
        has_error(all.diagnostics),
    ensures
        all.buffer() == (Shown { goals_accomplished: false, ..all }).buffer(),
{
}

/// Without an error, that the goals are accomplished is said first and set off by an empty line. What
/// follows is what is shown without it: the same text, and the same spans behind the 23 characters of
/// the heading.
pub proof fn law_what_is_accomplished_stands_first(all: Shown)
    requires
        all.goals_accomplished,
        !has_error(all.diagnostics),
    ensures
        ({
            let with = all.buffer();
            let without = (Shown { goals_accomplished: false, ..all }).buffer();
            &&& with.text == "✓ Goals accomplished.\n\n"@ + without.text
            &&& with.spans.len() == without.spans.len()
            &&& forall|i: int|
                0 <= i < with.spans.len() ==> #[trigger] with.spans[i] == (Span {
                    start: without.spans[i].start + 23,
                    end: without.spans[i].end + 23,
                    info: without.spans[i].info,
                })
        }),
{
    reveal_strlit("✓ Goals accomplished.\n\n");
    let heading = "✓ Goals accomplished.\n\n"@;
    let plain = Shown { goals_accomplished: false, ..all };
    lemma_accomplished(all);
    assert(heading.subrange(heading.len() - 2, heading.len() as int) =~= seq!['\n', '\n']);
    let goals = goals_section(all.plain_goal, all.interactive_goals);
    law_lines_are_added_behind_a_heading(Buffer::empty(), heading, goals);
    assert(all.with_goals() == plain.with_goals().behind(heading));
    lemma_no_section_is_a_line_feed(plain);
    if shows_term(all.plain_term_goal, all.interactive_term_goal) {
        law_separator_is_added_behind_a_heading(plain.with_goals(), heading);
        law_lines_are_added_behind_a_heading(
            plain.with_goals().separate(),
            heading,
            term_section(all.plain_term_goal, all.interactive_term_goal),
        );
    }
    assert(all.with_term() == plain.with_term().behind(heading));
    if all.diagnostics.len() > 0 {
        law_separator_is_added_behind_a_heading(plain.with_term(), heading);
        law_lines_are_added_behind_a_heading(
            plain.with_term().separate(),
            heading,
            diagnostic_sections(all.diagnostics),
        );
    }
    assert(all.buffer() == plain.buffer().behind(heading));
}

proof fn lemma_accomplished(all: Shown)
    requires
        all.goals_accomplished,
        !has_error(all.diagnostics),
    ensures
        all.accomplished() == Buffer::empty().behind("✓ Goals accomplished.\n\n"@),
{
    reveal_strlit("✓ Goals accomplished.");
    reveal_strlit("✓ Goals accomplished.\n\n");
    let heading = "✓ Goals accomplished."@;
    let line = Buffer::empty().add_line(plain_line(heading));
    assert(plain_line(heading).drop_last() =~= Seq::empty());
    assert(Buffer::empty().add_segments(Seq::empty()) == Buffer::empty());
    assert(line.text =~= heading.push('\n'));
    assert(!seq!['\n', '\n'].is_suffix_of(line.text)) by {
        assert(line.text[line.text.len() - 2] == '.');
        if seq!['\n', '\n'].is_suffix_of(line.text) {
            let end = line.text.subrange(line.text.len() - 2, line.text.len() as int);
            assert(seq!['\n', '\n'][0] == end[0]);
        }
    }
    assert(line.add_segments(Seq::empty()) == line);
    let shown = Buffer::empty().behind("✓ Goals accomplished.\n\n"@);
    assert(all.accomplished().text =~= shown.text);
    assert(all.accomplished().spans =~= shown.spans);
}

/// Whether the lines make more than one line feed.
spec fn is_long(lines: Seq<Seq<Segment>>) -> bool {
    lines.len() > 0 && join(line_texts(lines), seq!['\n']).len() > 0
}

proof fn lemma_no_section_is_a_line_feed(all: Shown)
    requires
        !all.goals_accomplished,
    ensures
        all.with_goals().text.len() != 1,
        all.with_term().text.len() != 1,
{
    let goals = goals_section(all.plain_goal, all.interactive_goals);
    lemma_goals_are_long(all.plain_goal, all.interactive_goals);
    law_lines_add_their_text(Buffer::empty(), goals);
    if shows_term(all.plain_term_goal, all.interactive_term_goal) {
        lemma_term_is_long(all.plain_term_goal, all.interactive_term_goal);
        law_lines_add_their_text(
            all.with_goals().separate(),
            term_section(all.plain_term_goal, all.interactive_term_goal),
        );
    }
}

proof fn lemma_goals_are_long(plain: Option<PlainGoal>, interactive: Option<Seq<Goal>>)
    ensures
        goals_section(plain, interactive).len() == 0 || is_long(goals_section(plain, interactive)),
{
    let lines = goals_section(plain, interactive);
    if interactive_goal_rank(interactive) > 1 {
        let goals = interactive->0;
        let last = goals[goals.len() - 1];
        lemma_goal_is_long(last);
        let shown = goal_lines(last);
        if shown.len() > 1 {
            lemma_two_lines_are_long(lines);
        } else {
            assert(lines[lines.len() - 1] == shown[0]);
            assert(line_texts(shown)[0] == text_of(shown[0]));
            lemma_line_makes_long(lines, lines.len() - 1);
        }
    } else if plain is Some {
        let result = plain->0;
        if result.goals.len() > 0 {
            lemma_listed_goals_are_long(result.goals);
            if lines.len() > 0 {
                lemma_two_lines_are_long(lines);
            }
        } else if lines.len() > 0 {
            law_visible_text_has_a_visible_line(result.rendered);
            let i = choose|i: int|
                0 <= i < lines.len() && is_visible(text_of(#[trigger] lines[i]));
            lemma_line_makes_long(lines, i);
        }
    }
}

proof fn lemma_term_is_long(plain: Option<PlainTermGoal>, interactive: Option<Goal>)
    requires
        shows_term(plain, interactive),
    ensures
        is_long(term_section(plain, interactive)),
{
    let lines = term_section(plain, interactive);
    match plain {
        Some(result) => {
            reveal_strlit("▼ expected type");
            reveal_strlit("▼ expected type (");
            lemma_text_of_one(Segment { text: title(result), info: None });
            assert(lines[0] == plain_line(title(result)));
            lemma_line_makes_long(lines, 0);
        },
        None => {
            lemma_goal_is_long(interactive->0);
            assert(lines =~= goal_lines(interactive->0));
        },
    }
}

/// A goal that can be shown makes more than one line feed.
proof fn lemma_goal_is_long(goal: Goal)
    requires
        tagged_is_visible(goal.ty),
    ensures
        is_long(goal_lines(goal)),
{
    let lines = goal_lines(goal);
    let prefix = match goal.goal_prefix {
        Some(prefix) => prefix,
        None => "⊢ "@,
    };
    let parts = plain_line(prefix) + flatten(goal.ty, None);
    lemma_text_of_both(plain_line(prefix), flatten(goal.ty, None));
    law_lines_keep_the_text(parts);
    let broken = break_lines(parts);
    if lines.len() > 1 {
        lemma_two_lines_are_long(lines);
    } else {
        assert(lines =~= broken);
    }
}

proof fn lemma_listed_goals_are_long(goals: Seq<Seq<char>>)
    ensures
        listed_goals(goals).len() != 1,
    decreases goals.len(),
{
    if goals.len() > 0 {
        lemma_listed_goals_are_long(goals.drop_last());
        let raw = split(goals.last(), '\n');
        lemma_split_is_not_empty(goals.last(), '\n');
        assert(keeps_line(raw, raw.len() - 1));
        assert(plain_lines(goals.last()).len() > 0);
    }
}

proof fn lemma_two_lines_are_long(lines: Seq<Seq<Segment>>)
    requires
        lines.len() > 1,
    ensures
        is_long(lines),
{
}

proof fn lemma_line_makes_long(lines: Seq<Seq<Segment>>, i: int)
    requires
        0 <= i < lines.len(),
        text_of(lines[i]).len() > 0,
    ensures
        is_long(lines),
{
    if lines.len() == 1 {
        assert(line_texts(lines)[0] == text_of(lines[0]));
    } else {
        lemma_two_lines_are_long(lines);
    }
}

proof fn lemma_start_is_prefix(start: Buffer, whole: Buffer)
    requires
        start.is_start_of(whole),
    ensures
        start.text.is_prefix_of(whole.text),
{
    assert(start.text =~= whole.text.subrange(0, start.text.len() as int));
}

/// A reply that says that there are no goals is not shown.
pub proof fn law_no_goals_are_not_shown(result: PlainGoal)
    requires
        forall|i: int| 0 <= i < result.goals.len() ==> says_no_goals(#[trigger] result.goals[i]),
        result.goals.len() == 0 ==> says_no_goals(result.rendered),
    ensures
        plain_goal_lines(Some(result)) == Seq::<Seq<Segment>>::empty(),
{
    lemma_no_goals_are_listed(result.goals);
}

proof fn lemma_no_goals_are_listed(goals: Seq<Seq<char>>)
    requires
        forall|i: int| 0 <= i < goals.len() ==> says_no_goals(#[trigger] goals[i]),
    ensures
        listed_goals(goals) == Seq::<Seq<Segment>>::empty(),
    decreases goals.len(),
{
    if goals.len() > 0 {
        assert(says_no_goals(goals[goals.len() - 1]));
        let fewer = goals.drop_last();
        assert forall|i: int| 0 <= i < fewer.len() implies says_no_goals(#[trigger] fewer[i]) by {
            assert(fewer[i] == goals[i]);
        }
        lemma_no_goals_are_listed(fewer);
    }
}

/// Where there is nothing to show, the infoview is empty.
pub proof fn law_nothing_to_show_is_empty(all: Shown)
    requires
        !all.goals_accomplished,
        goals_section(all.plain_goal, all.interactive_goals).len() == 0,
        !shows_term(all.plain_term_goal, all.interactive_term_goal),
        all.diagnostics.len() == 0,
    ensures
        all.buffer() == Buffer::empty(),
{
}

/// Where there are only diagnostics to show, the header of the first stands first.
pub proof fn law_diagnostics_alone_start_with_a_header(all: Shown)
    requires
        !all.goals_accomplished,
        goals_section(all.plain_goal, all.interactive_goals).len() == 0,
        !shows_term(all.plain_term_goal, all.interactive_term_goal),
        all.diagnostics.len() > 0,
    ensures
        header(all.diagnostics[0]).is_prefix_of(all.buffer().text),
        all.buffer().text[0] != '\n',
{
    let first = plain_line(header(all.diagnostics[0]));
    let lines = diagnostic_sections(all.diagnostics);
    lemma_first_section(all.diagnostics);
    law_lines_hold_their_segments(Buffer::empty(), lines, 0, 0);
    assert(lines.take(0) =~= Seq::empty());
    assert(first.take(0) =~= Seq::empty());
    assert(Buffer::empty().add_lines(Seq::empty()) == Buffer::empty());
    assert(Buffer::empty().add_segments(Seq::empty()) == Buffer::empty());
    let start = Buffer::empty().add_segment(first[0]);
    assert(start.text =~= header(all.diagnostics[0]));
    lemma_start_is_prefix(start, all.buffer());
    reveal_strlit("▼ ");
    assert(header(all.diagnostics[0])[0] == '▼');
    assert(start.text[0] == all.buffer().text[0]);
}

proof fn lemma_first_section(diagnostics: Seq<Diagnostic>)
    requires
        diagnostics.len() > 0,
    ensures
        diagnostic_sections(diagnostics).len() > 0,
        diagnostic_sections(diagnostics)[0] == plain_line(header(diagnostics[0])),
    decreases diagnostics.len(),
{
    if diagnostics.len() > 1 {
        lemma_first_section(diagnostics.drop_last());
    }
}

/// Goals are shown one after the other, with one empty line between each two.
pub proof fn law_goals_are_set_off(first: Seq<Goal>, second: Seq<Goal>, one: Goal)
    ensures
        first.len() > 0 && second.len() > 0 ==> goals_lines(first + second) == goals_lines(first)
            + seq![Seq::empty()] + goals_lines(second),
        goals_lines(seq![one]) == goal_lines(one),
        goals_lines(Seq::empty()) == Seq::<Seq<Segment>>::empty(),
    decreases second.len(),
{
    if first.len() > 0 && second.len() > 0 {
        let both = first + second;
        assert(both.drop_last() =~= first + second.drop_last());
        if second.len() == 1 {
            assert(first + second.drop_last() =~= first);
        } else {
            law_goals_are_set_off(first, second.drop_last(), one);
        }
        assert(goals_lines(both) =~= goals_lines(first) + seq![Seq::empty()] + goals_lines(second));
    }
}

/// Goals that came as text are shown one after the other, each with an empty line behind it. One that
/// says that there are no goals is left out.
pub proof fn law_plain_goals_are_listed(
    first: Seq<Seq<char>>,
    second: Seq<Seq<char>>,
    one: Seq<char>,
)
    ensures
        listed_goals(first + second) == listed_goals(first) + listed_goals(second),
        listed_goals(seq![one]) == if says_no_goals(one) {
            Seq::empty()
        } else {
            plain_lines(one) + seq![Seq::empty()]
        },
        listed_goals(Seq::empty()) == Seq::<Seq<Segment>>::empty(),
    decreases second.len(),
{
    assert(listed_goals(Seq::empty()) =~= Seq::empty());
    assert(seq![one].drop_last() =~= Seq::empty());
    if !says_no_goals(one) {
        assert(listed_goals(seq![one]) =~= plain_lines(one) + seq![Seq::empty()]);
    }
    if second.len() == 0 {
        assert(first + second =~= first);
        assert(listed_goals(first) + listed_goals(second) =~= listed_goals(first));
    } else {
        law_plain_goals_are_listed(first, second.drop_last(), one);
        assert((first + second).drop_last() =~= first + second.drop_last());
        assert(listed_goals(first + second) =~= listed_goals(first) + listed_goals(second));
    }
}

/// Interactive goals are shown where there are some and every one of them is visible. Otherwise the
/// goals that came as text are: those listed, or, where none is listed, the rendered text, unless it
/// is blank or says that there are no goals.
pub proof fn law_goals_come_from_the_best_reply(
    plain: Option<PlainGoal>,
    interactive: Option<Seq<Goal>>,
)
    ensures
        goals_section(plain, interactive) == if interactive is Some && interactive->0.len() > 0 && (
        forall|i: int|
            0 <= i < interactive->0.len() ==> is_visible(
                text_of(flatten((#[trigger] interactive->0[i]).ty, None)),
            )) {
            goals_lines(interactive->0)
        } else if plain is None {
            Seq::empty()
        } else if plain->0.goals.len() > 0 {
            listed_goals(plain->0.goals)
        } else if says_no_goals(plain->0.rendered) || trim(plain->0.rendered).len() == 0 {
            Seq::empty()
        } else {
            plain_lines(plain->0.rendered)
        },
{
    if interactive is Some {
        let goals = interactive->0;
        assert forall|i: int| 0 <= i < goals.len() implies tagged_is_visible(
            (#[trigger] goals[i]).ty,
        ) == is_visible(text_of(flatten(goals[i].ty, None))) by {
            law_tagged_text_is_as_visible_as_its_text(goals[i].ty, None);
        }
    }
    if plain is Some {
        law_visible_text_survives_trimming(plain->0.rendered);
    }
}

/// The expected type is shown where one came, below its title where it came as text. Its interactive
/// form goes before the text, where it is visible.
pub proof fn law_expected_type_comes_from_the_best_reply(
    plain: Option<PlainTermGoal>,
    interactive: Option<Goal>,
)
    ensures
        ({
            let visible = interactive is Some && is_visible(
                text_of(flatten(interactive->0.ty, None)),
            );
            let titled = if plain is Some {
                seq![seq![Segment { text: title(plain->0), info: None }]]
            } else {
                Seq::empty()
            };
            &&& shows_term(plain, interactive) <==> visible || (plain is Some
                && plain->0.goal is Some)
            &&& term_section(plain, interactive) == titled + if visible {
                goal_lines(interactive->0)
            } else if plain is Some && plain->0.goal is Some && !says_no_goals(
                plain->0.goal->0,
            ) {
                plain_lines(plain->0.goal->0)
            } else {
                Seq::empty()
            }
        }),
        plain matches Some(result) ==> title(result) == match result.range {
            Some(range) => "▼ expected type"@ + " ("@ + range_text(range) + ")"@,
            None => "▼ expected type"@,
        },
{
    if interactive is Some {
        law_tagged_text_is_as_visible_as_its_text(interactive->0.ty, None);
    }
    reveal_strlit("▼ expected type");
    reveal_strlit("▼ expected type (");
    reveal_strlit(" (");
    assert("▼ expected type ("@ =~= "▼ expected type"@ + " ("@);
}

/// A text set off from what follows: with an empty line at its end, unless it is empty or ends with
/// one.
pub open spec fn set_off(text: Seq<char>) -> Seq<char> {
    if text.len() == 0 {
        text
    } else if text.len() > 1 && text.last() == '\n' && text[text.len() - 2] == '\n' {
        text
    } else {
        text.push('\n')
    }
}

/// The text of lines: each with a line feed behind it.
pub open spec fn text_of_lines(lines: Seq<Seq<Segment>>) -> Seq<char> {
    if lines.len() == 0 {
        Seq::empty()
    } else {
        join(line_texts(lines), seq!['\n']) + seq!['\n']
    }
}

/// The infoview shows that the goals are accomplished, then the goals, then the expected type, then
/// the diagnostics, each where there is one, and set off from what stands before it.
pub proof fn law_sections_stand_in_their_order(all: Shown)
    ensures
        ({
            let heading = if all.goals_accomplished && !has_error(all.diagnostics) {
                "✓ Goals accomplished.\n\n"@
            } else {
                Seq::empty()
            };
            let goals = heading + text_of_lines(
                goals_section(all.plain_goal, all.interactive_goals),
            );
            let term = if shows_term(all.plain_term_goal, all.interactive_term_goal) {
                set_off(goals) + text_of_lines(
                    term_section(all.plain_term_goal, all.interactive_term_goal),
                )
            } else {
                goals
            };
            all.buffer().text == if all.diagnostics.len() > 0 {
                set_off(term) + text_of_lines(diagnostic_sections(all.diagnostics))
            } else {
                term
            }
        }),
{
    let heading = if all.goals_accomplished && !has_error(all.diagnostics) {
        "✓ Goals accomplished.\n\n"@
    } else {
        Seq::empty()
    };
    if all.goals_accomplished && !has_error(all.diagnostics) {
        lemma_accomplished(all);
        assert(all.accomplished().text =~= heading);
    }
    lemma_text_is_added(all.accomplished(), goals_section(all.plain_goal, all.interactive_goals));
    lemma_separator_sets_off(all.with_goals());
    lemma_text_is_added(
        all.with_goals().separate(),
        term_section(all.plain_term_goal, all.interactive_term_goal),
    );
    lemma_separator_sets_off(all.with_term());
    lemma_text_is_added(all.with_term().separate(), diagnostic_sections(all.diagnostics));
}

proof fn lemma_text_is_added(buffer: Buffer, lines: Seq<Seq<Segment>>)
    ensures
        buffer.add_lines(lines).text == buffer.text + text_of_lines(lines),
{
    law_lines_add_their_text(buffer, lines);
    assert(buffer.add_lines(lines).text =~= buffer.text + text_of_lines(lines));
}

proof fn lemma_separator_sets_off(buffer: Buffer)
    ensures
        buffer.separate().text == set_off(buffer.text),
{
    let length = buffer.text.len() as int;
    if length > 1 && buffer.text.last() == '\n' && buffer.text[length - 2] == '\n' {
        let before = buffer.text.take(length - 2);
        assert(buffer.text =~= before + seq!['\n', '\n']);
        law_separator_is_one_line_feed(buffer, before);
    } else {
        law_separator_is_one_line_feed(buffer, Seq::empty());
        if length > 0 {
            assert(buffer.text + seq!['\n'] =~= buffer.text.push('\n'));
        }
    }
}

/// One diagnostic is an error where its severity says so.
pub proof fn law_error_is_a_severity(diagnostics: Seq<Diagnostic>, i: int)
    ensures
        0 <= i < diagnostics.len() && diagnostics[i].severity == Some(DiagnosticSeverity::Error)
            ==> has_error(diagnostics),
        has_error(diagnostics) ==> exists|k: int|
            0 <= k < diagnostics.len() && (#[trigger] diagnostics[k]).severity == Some(
                DiagnosticSeverity::Error,
            ),
{
}

/// All that came in reply is what is shown, with the diagnostics as they are.
pub proof fn law_replies_are_shown(
    plain_goal: Option<PlainGoalResult>,
    plain_term_goal: Option<PlainTermGoalResult>,
    interactive_goals: Option<InteractiveGoalsResult>,
    interactive_term_goal: Option<InteractiveGoal>,
    diagnostics: Seq<Diagnostic>,
    goals_accomplished: bool,
)
    ensures
        ({
            let all = shown(
                plain_goal,
                plain_term_goal,
                interactive_goals,
                interactive_term_goal,
                diagnostics,
                goals_accomplished,
            );
            &&& plain_goal matches Some(reply) ==> all.plain_goal == Some(reply@)
            &&& plain_term_goal matches Some(reply) ==> all.plain_term_goal == Some(reply@)
            &&& interactive_goals matches Some(reply) ==> all.interactive_goals == Some(reply@)
            &&& interactive_term_goal matches Some(reply) ==> all.interactive_term_goal == Some(
                reply@,
            )
            &&& plain_goal is None ==> all.plain_goal is None
            &&& plain_term_goal is None ==> all.plain_term_goal is None
            &&& interactive_goals is None ==> all.interactive_goals is None
            &&& interactive_term_goal is None ==> all.interactive_term_goal is None
            &&& all.diagnostics == diagnostics
            &&& all.goals_accomplished == goals_accomplished
        }),
{
}

/// What is shown can be counted from 1 where every number that is shown can: those of the ranges of all
/// diagnostics, and those of the range of the expected type, where its title is shown.
pub proof fn law_shown_numbers_can_be_counted(all: Shown)
    ensures
        all.countable() <==> (forall|i: int|
            0 <= i < all.diagnostics.len() ==> ({
                let range = (#[trigger] all.diagnostics[i]).range;
                &&& range.start.line < u32::MAX && range.start.character < u32::MAX
                &&& range.end.line < u32::MAX && range.end.character < u32::MAX
            })) && (shows_term(all.plain_term_goal, all.interactive_term_goal)
            && all.plain_term_goal is Some && all.plain_term_goal->0.range is Some ==> ({
            let range = all.plain_term_goal->0.range->0;
            &&& range.start.line < u32::MAX && range.start.character < u32::MAX
            &&& range.end.line < u32::MAX && range.end.character < u32::MAX
        })),
{
}

} // verus!
