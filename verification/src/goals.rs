//! The goals at a place, as lines of the infoview.
use vstd::prelude::*;
use crate::json::Json;
use crate::platform::is_white_space;
use crate::protocol::{
    Goal, Hypothesis, InteractiveGoal, InteractiveGoalsResult, InteractiveHypothesis, PlainGoal,
    PlainGoalResult, PlainTermGoal, PlainTermGoalResult,
};
use crate::segments::{
    append_lines, break_lines, flatten, flatten_tagged, is_clean, law_lines_are_clean,
    law_lines_keep_the_marks, law_lines_keep_the_text, law_marks_are_those_of_each,
    law_tagged_text_is_as_visible_as_its_text, law_text_is_that_of_each, line_marks, line_texts,
    marks, plain, plain_line, push_plain_line, push_plain_segment, rendered, segments,
    segments_to_lines, tagged_has_visible_text, tagged_is_visible, text_of, RenderedLine,
    RenderedSegment, Segment,
};
use crate::text::{
    equal_ignoring_case, is_visible, join, joined, law_split_at_the_first,
    law_trim_end_takes_all_copies, law_trim_takes_what_is_around, lemma_split_is_not_empty,
    lower_code, same_ignoring_case, shows_something, split, split_at, starts_with, texts, trim, trim_end_of, trimmed, trimmed_end_of,
};
use crate::views::viewed;

verus! {

/// Whether a line opens with a mark that a goal follows.
pub open spec fn is_goal_line(line: Seq<char>) -> bool {
    "⊢"@.is_prefix_of(line) || "|-"@.is_prefix_of(line)
}

/// Whether line `i` is kept: an empty line directly before a goal line is not.
pub open spec fn keeps_line(raw: Seq<Seq<char>>, i: int) -> bool {
    !(raw[i].len() == 0 && i + 1 < raw.len() && is_goal_line(raw[i + 1]))
}

/// The first `n` lines, but for those that are not kept.
pub open spec fn kept_lines(raw: Seq<Seq<char>>, n: int) -> Seq<Seq<Segment>>
    decreases n,
{
    if n <= 0 {
        Seq::empty()
    } else if keeps_line(raw, n - 1) {
        kept_lines(raw, n - 1).push(plain_line(raw[n - 1]))
    } else {
        kept_lines(raw, n - 1)
    }
}

/// The lines of a text.
pub open spec fn plain_lines(text: Seq<char>) -> Seq<Seq<Segment>> {
    let raw = split(text, '\n');
    kept_lines(raw, raw.len() as int)
}

/// Whether a text says that there are no goals.
pub open spec fn says_no_goals(text: Seq<char>) -> bool {
    equal_ignoring_case(trim_end_of(trim(text), '.'), "no goals"@)
}

/// The lines of a hypothesis.
pub open spec fn hypothesis_lines(hyp: Hypothesis) -> Seq<Seq<Segment>> {
    let value = match hyp.val {
        Some(value) => seq![plain(" := "@)] + flatten(value, None),
        None => Seq::empty(),
    };
    break_lines(
        seq![plain(join(hyp.names, " "@)), plain(" : "@)] + flatten(hyp.ty, None) + value,
    )
}

/// The lines of the hypotheses, one after the other.
pub open spec fn hypotheses_lines(hyps: Seq<Hypothesis>) -> Seq<Seq<Segment>>
    decreases hyps.len(),
{
    if hyps.len() == 0 {
        Seq::empty()
    } else {
        hypotheses_lines(hyps.drop_last()) + hypothesis_lines(hyps.last())
    }
}

/// The lines of a goal: its case, its hypotheses, and what is to be shown.
pub open spec fn goal_lines(goal: Goal) -> Seq<Seq<Segment>> {
    let case = match goal.user_name {
        Some(name) if name.len() > 0 => seq![plain_line("case "@ + name)],
        _ => Seq::empty(),
    };
    let prefix = match goal.goal_prefix {
        Some(prefix) => prefix,
        None => "⊢ "@,
    };
    case + hypotheses_lines(goal.hyps) + break_lines(seq![plain(prefix)] + flatten(goal.ty, None))
}

/// How much a reply tells about goals: nothing, that there are none, or some goals.
pub open spec fn plain_goal_rank(result: Option<PlainGoal>) -> int {
    match result {
        None => 0,
        Some(result) => if result.goals.len() == 0 {
            1
        } else {
            2
        },
    }
}

/// Whether a reply tells the expected type.
pub open spec fn plain_term_goal_rank(result: Option<PlainTermGoal>) -> int {
    match result {
        Some(result) if result.goal is Some => 1,
        _ => 0,
    }
}

/// How much a reply tells about goals: nothing, some that cannot be shown, or goals to show.
pub open spec fn interactive_goal_rank(result: Option<Seq<Goal>>) -> int {
    match result {
        Some(goals) if goals.len() > 0 => if forall|i: int|
            0 <= i < goals.len() ==> tagged_is_visible((#[trigger] goals[i]).ty) {
            2
        } else {
            1
        },
        _ => 0,
    }
}

/// How much a reply tells about the expected type: nothing, one that cannot be shown, or one to
/// show.
pub open spec fn interactive_term_goal_rank(result: Option<Goal>) -> int {
    match result {
        None => 0,
        Some(goal) => if tagged_is_visible(goal.ty) {
            2
        } else {
            1
        },
    }
}

/// The lines of a text, without an empty one directly before a goal line.
pub fn plain_text_lines(text: &str) -> (lines: Vec<RenderedLine>)
    ensures
        rendered(lines@) == plain_lines(text@),
{
    let raw_lines = split_at(text, '\n');
    let ghost raw = split(text@, '\n');
    let mut lines: Vec<RenderedLine> = Vec::new();
    let mut i: usize = 0;
    assert(rendered(lines@) =~= Seq::empty());
    while i < raw_lines.len()
        invariant
            i <= raw_lines@.len(),
            raw == texts(raw_lines@),
            rendered(lines@) == kept_lines(raw, i as int),
        decreases raw_lines@.len() - i,
    {
        let line = &raw_lines[i];
        assert(raw[i as int] == line@);
        let before_goal = i + 1 < raw_lines.len() && {
            let next = &raw_lines[i + 1];
            starts_with(next.as_str(), "⊢") || starts_with(next.as_str(), "|-")
        };
        if !(line.as_str().is_empty() && before_goal) {
            push_plain_line(&mut lines, line.clone());
        }
        i += 1;
    }
    lines
}

/// Whether a text shows anything.
pub fn plain_text_has_visible_content(text: &str) -> (yes: bool)
    ensures
        yes == is_visible(text@),
{
    shows_something(text)
}

/// Whether some piece shows something.
spec fn some_piece_is_visible(pieces: Seq<Seq<char>>) -> bool {
    exists|i: int| 0 <= i < pieces.len() && is_visible(#[trigger] pieces[i])
}

proof fn lemma_pieces_are_as_visible(text: Seq<char>)
    ensures
        some_piece_is_visible(split(text, '\n')) == is_visible(text),
    decreases text.len(),
{
    let pieces = split(text, '\n');
    if text.len() == 0 {
        assert(pieces[0].len() == 0);
    } else {
        let before = text.drop_last();
        let fewer = split(before, '\n');
        lemma_pieces_are_as_visible(before);
        lemma_split_is_not_empty(before, '\n');
        if is_visible(before) {
            let i = choose|i: int| 0 <= i < before.len() && !is_white_space(#[trigger] before[i]);
            assert(text[i] == before[i]);
            let k = choose|k: int| 0 <= k < fewer.len() && is_visible(#[trigger] fewer[k]);
            let j = choose|j: int| 0 <= j < fewer[k].len() && !is_white_space(#[trigger] fewer[k][j]);
            assert(pieces[k][j] == fewer[k][j]);
            assert(is_visible(pieces[k]));
        } else if !is_white_space(text.last()) {
            let last = text.len() - 1;
            assert(!is_white_space(text[last]));
            let piece = pieces.last();
            assert(piece[piece.len() - 1] == text.last());
            assert(is_visible(pieces[pieces.len() - 1]));
        } else {
            if is_visible(text) {
                let i = choose|i: int| 0 <= i < text.len() && !is_white_space(#[trigger] text[i]);
                assert(before[i] == text[i]);
            }
            if some_piece_is_visible(pieces) {
                let k = choose|k: int| 0 <= k < pieces.len() && is_visible(#[trigger] pieces[k]);
                let j = choose|j: int|
                    0 <= j < pieces[k].len() && !is_white_space(#[trigger] pieces[k][j]);
                if k < fewer.len() && j < fewer[k].len() {
                    assert(fewer[k][j] == pieces[k][j]);
                    assert(is_visible(fewer[k]));
                }
            }
        }
    }
}

proof fn lemma_kept_lines_show(raw: Seq<Seq<char>>, n: int)
    requires
        0 <= n <= raw.len(),
    ensures
        (exists|i: int|
            0 <= i < kept_lines(raw, n).len() && is_visible(
                text_of(#[trigger] kept_lines(raw, n)[i]),
            )) == (exists|i: int| 0 <= i < n && is_visible(#[trigger] raw[i])),
    decreases n,
{
    if n > 0 {
        lemma_kept_lines_show(raw, n - 1);
        let before = kept_lines(raw, n - 1);
        let kept = kept_lines(raw, n);
        let last = plain_line(raw[n - 1]);
        reveal_with_fuel(text_of, 2);
        assert(text_of(last) =~= raw[n - 1]);
        if exists|i: int| 0 <= i < n - 1 && is_visible(#[trigger] raw[i]) {
            let i = choose|i: int| 0 <= i < before.len() && is_visible(text_of(#[trigger] before[i]));
            assert(kept[i] == before[i]);
        } else if is_visible(raw[n - 1]) {
            assert(keeps_line(raw, n - 1));
            assert(kept[kept.len() - 1] == last);
        } else if exists|i: int| 0 <= i < kept.len() && is_visible(text_of(#[trigger] kept[i])) {
            let i = choose|i: int| 0 <= i < kept.len() && is_visible(text_of(#[trigger] kept[i]));
            if i < before.len() {
                assert(before[i] == kept[i]);
            }
        }
    }
}

/// A text shows something exactly where one of its lines does.
pub proof fn law_visible_text_has_a_visible_line(text: Seq<char>)
    ensures
        is_visible(text) <==> exists|i: int|
            0 <= i < plain_lines(text).len() && is_visible(text_of(#[trigger] plain_lines(text)[i])),
{
    let raw = split(text, '\n');
    lemma_pieces_are_as_visible(text);
    lemma_kept_lines_show(raw, raw.len() as int);
    let kept = kept_lines(raw, raw.len() as int);
    assert(plain_lines(text) == kept);
    if is_visible(text) {
        let k = choose|k: int| 0 <= k < raw.len() && is_visible(#[trigger] raw[k]);
        let i = choose|i: int| 0 <= i < kept.len() && is_visible(text_of(#[trigger] kept[i]));
        assert(is_visible(text_of(plain_lines(text)[i])));
    }
}

/// Whether a text says that there are no goals.
pub fn plain_response_text_is_no_goals(text: &str) -> (yes: bool)
    ensures
        yes == says_no_goals(text@),
{
    let inner = trimmed(text);
    let sentence = trimmed_end_of(inner.as_str(), '.');
    same_ignoring_case(sentence.as_str(), "no goals")
}

/// The lines of a hypothesis.
pub fn render_hypothesis_lines(hyp: &InteractiveHypothesis) -> (lines: Vec<RenderedLine>)
    ensures
        rendered(lines@) == hypothesis_lines(hyp@),
{
    let mut parts: Vec<RenderedSegment> = Vec::new();
    assert(segments(parts@) =~= Seq::empty());
    push_plain_segment(&mut parts, joined(&hyp.names, " "));
    push_plain_segment(&mut parts, " : ".to_string());
    flatten_tagged(&hyp.ty, None, &mut parts);
    if let Some(value) = &hyp.val {
        push_plain_segment(&mut parts, " := ".to_string());
        flatten_tagged(value, None, &mut parts);
    }
    proof {
        let value = match hyp@.val {
            Some(value) => seq![plain(" := "@)] + flatten(value, None),
            None => Seq::empty(),
        };
        assert(segments(parts@) =~= seq![plain(join(hyp@.names, " "@)), plain(" : "@)] + flatten(
            hyp@.ty,
            None,
        ) + value);
    }
    segments_to_lines(parts)
}

/// The lines of a goal.
pub fn render_interactive_goal_lines(goal: &InteractiveGoal) -> (lines: Vec<RenderedLine>)
    ensures
        rendered(lines@) == goal_lines(goal@),
{
    let mut lines: Vec<RenderedLine> = Vec::new();
    assert(rendered(lines@) =~= Seq::empty());
    if let Some(name) = &goal.user_name {
        if !name.as_str().is_empty() {
            let mut text = "case ".to_string();
            text.append(name.as_str());
            push_plain_line(&mut lines, text);
        }
    }
    let ghost case = rendered(lines@);
    let ghost hyps = goal@.hyps;
    let mut i: usize = 0;
    assert(case + hypotheses_lines(hyps.take(0)) =~= case);
    while i < goal.hyps.len()
        invariant
            i <= goal.hyps@.len(),
            hyps == goal@.hyps,
            rendered(lines@) == case + hypotheses_lines(hyps.take(i as int)),
        decreases goal.hyps@.len() - i,
    {
        assert(hyps.take(i + 1).drop_last() =~= hyps.take(i as int));
        append_lines(&mut lines, render_hypothesis_lines(&goal.hyps[i]));
        i += 1;
        assert(rendered(lines@) =~= case + hypotheses_lines(hyps.take(i as int)));
    }
    assert(hyps.take(goal.hyps@.len() as int) =~= hyps);
    let mut parts: Vec<RenderedSegment> = Vec::new();
    assert(segments(parts@) =~= Seq::empty());
    let prefix = match &goal.goal_prefix {
        Some(prefix) => prefix.clone(),
        None => "⊢ ".to_string(),
    };
    push_plain_segment(&mut parts, prefix);
    flatten_tagged(&goal.ty, None, &mut parts);
    assert(segments(parts@) =~= seq![plain(prefix@)] + flatten(goal@.ty, None));
    append_lines(&mut lines, segments_to_lines(parts));
    assert(rendered(lines@) =~= goal_lines(goal@));
    lines
}

/// How much a reply tells about goals.
pub fn plain_goal_score(result: Option<&PlainGoalResult>) -> (score: u8)
    ensures
        score == plain_goal_rank(viewed(result)),
{
    match result {
        None => 0,
        Some(result) => if result.goals.is_empty() {
            1
        } else {
            2
        },
    }
}

/// Whether a reply tells the expected type.
pub fn plain_term_goal_score(result: Option<&PlainTermGoalResult>) -> (score: u8)
    ensures
        score == plain_term_goal_rank(viewed(result)),
{
    match result {
        Some(result) => if result.goal.is_some() {
            1
        } else {
            0
        },
        None => 0,
    }
}

/// How much a reply tells about goals.
pub fn interactive_goal_score(result: Option<&InteractiveGoalsResult>) -> (score: u8)
    ensures
        score == interactive_goal_rank(viewed(result)),
{
    match result {
        None => 0,
        Some(reply) => {
            if reply.goals.is_empty() {
                return 0;
            }
            let ghost goals = reply@;
            let mut i: usize = 0;
            while i < reply.goals.len()
                invariant
                    i <= reply.goals@.len(),
                    goals == reply@,
                    viewed(result) == Some(goals),
                    goals.len() > 0,
                    forall|k: int| 0 <= k < i ==> tagged_is_visible((#[trigger] goals[k]).ty),
                decreases reply.goals@.len() - i,
            {
                if !tagged_has_visible_text(&reply.goals[i].ty) {
                    assert(!tagged_is_visible(goals[i as int].ty));
                    return 1;
                }
                i += 1;
            }
            2
        },
    }
}

/// How much a reply tells about the expected type.
pub fn interactive_term_goal_score(result: Option<&InteractiveGoal>) -> (score: u8)
    ensures
        score == interactive_term_goal_rank(viewed(result)),
{
    match result {
        None => 0,
        Some(goal) => if tagged_has_visible_text(&goal.ty) {
            2
        } else {
            1
        },
    }
}

/// The lines of a text are its lines as they stand, but for an empty one directly before a line that
/// opens with `⊢` or `|-`.
pub proof fn law_empty_line_before_a_goal_is_left_out(first: Seq<char>, rest: Seq<char>)
    requires
        !first.contains('\n'),
    ensures
        plain_lines(first) == seq![seq![Segment { text: first, info: None }]],
        plain_lines(first + seq!['\n'] + rest) == (if first.len() == 0 && ((rest.len() > 0 && rest[0]
            == '⊢') || (rest.len() > 1 && rest[0] == '|' && rest[1] == '-')) {
            Seq::empty()
        } else {
            seq![seq![Segment { text: first, info: None }]]
        }) + plain_lines(rest),
{
    law_split_at_the_first(first, '\n', rest);
    let one = seq![first];
    let raw = split(rest, '\n');
    let whole = seq![first] + raw;
    lemma_split_is_not_empty(rest, '\n');
    assert(kept_lines(one, 0) =~= Seq::empty());
    assert(kept_lines(one, 1) =~= seq![plain_line(first)]);
    lemma_kept_front(first, raw, raw.len() as int);
    lemma_first_piece(rest);
    let piece = raw[0];
    reveal_strlit("⊢");
    reveal_strlit("|-");
    assert("⊢"@.is_prefix_of(piece) <==> piece.len() > 0 && piece[0] == '⊢') by {
        if piece.len() > 0 && piece[0] == '⊢' {
            assert(piece.subrange(0, 1) =~= "⊢"@);
        }
        if "⊢"@.is_prefix_of(piece) {
            assert("⊢"@[0] == piece.subrange(0, 1)[0]);
        }
    }
    assert("|-"@.is_prefix_of(piece) <==> piece.len() > 1 && piece[0] == '|' && piece[1] == '-') by {
        if piece.len() > 1 && piece[0] == '|' && piece[1] == '-' {
            assert(piece.subrange(0, 2) =~= "|-"@);
        }
        if "|-"@.is_prefix_of(piece) {
            assert("|-"@[0] == piece.subrange(0, 2)[0]);
            assert("|-"@[1] == piece.subrange(0, 2)[1]);
        }
    }
    assert(whole[1] == piece);
}

proof fn lemma_kept_front(first: Seq<char>, raw: Seq<Seq<char>>, n: int)
    requires
        0 <= n <= raw.len(),
        raw.len() > 0,
    ensures
        kept_lines(seq![first] + raw, n + 1) == (if keeps_line(seq![first] + raw, 0) {
            seq![plain_line(first)]
        } else {
            Seq::empty()
        }) + kept_lines(raw, n),
    decreases n,
{
    let whole = seq![first] + raw;
    if n == 0 {
        assert(kept_lines(whole, 0) =~= Seq::empty());
        assert(kept_lines(whole, 1) =~= (if keeps_line(whole, 0) {
            seq![plain_line(first)]
        } else {
            Seq::empty()
        }) + kept_lines(raw, 0));
    } else {
        lemma_kept_front(first, raw, n - 1);
        assert(whole[n] == raw[n - 1]);
        if n < raw.len() {
            assert(whole[n + 1] == raw[n]);
        }
        assert(keeps_line(whole, n) == keeps_line(raw, n - 1));
        assert(kept_lines(whole, n + 1) =~= (if keeps_line(whole, 0) {
            seq![plain_line(first)]
        } else {
            Seq::empty()
        }) + kept_lines(raw, n));
    }
}

/// The first piece of a text reaches to its first line feed, or to its end.
proof fn lemma_first_piece(text: Seq<char>)
    ensures
        split(text, '\n').len() > 0,
        split(text, '\n')[0].len() <= text.len(),
        forall|i: int|
            0 <= i < split(text, '\n')[0].len() ==> #[trigger] split(text, '\n')[0][i] == text[i],
        split(text, '\n')[0].len() < text.len() ==> text[split(text, '\n')[0].len() as int] == '\n',
        split(text, '\n').len() == 1 ==> split(text, '\n')[0].len() == text.len(),
        split(text, '\n').len() > 1 ==> split(text, '\n')[0].len() < text.len(),
    decreases text.len(),
{
    if text.len() > 0 {
        lemma_first_piece(text.drop_last());
    }
}

/// A reply says that there are no goals with those words in any case, with any number of full stops
/// behind them, and any white space around.
pub proof fn law_no_goals_may_be_said_so(
    before: Seq<char>,
    said: Seq<char>,
    stops: Seq<char>,
    after: Seq<char>,
)
    requires
        forall|i: int| 0 <= i < before.len() ==> is_white_space(#[trigger] before[i]),
        forall|i: int| 0 <= i < after.len() ==> is_white_space(#[trigger] after[i]),
        equal_ignoring_case(said, "no goals"@),
        forall|i: int| 0 <= i < stops.len() ==> #[trigger] stops[i] == '.',
    ensures
        says_no_goals(before + (said + stops) + after),
{
    reveal_strlit("no goals");
    let whole = said + stops;
    assert(lower_code(said[0]) == lower_code("no goals"@[0]));
    assert(lower_code(said[7]) == lower_code("no goals"@[7]));
    assert(whole[0] == said[0]);
    if stops.len() > 0 {
        assert(whole.last() == stops[stops.len() - 1]);
    } else {
        assert(whole.last() == said[7]);
    }
    law_trim_takes_what_is_around(before, whole, after);
    law_trim_end_takes_all_copies(said, '.', stops);
}

/// What says that there are no goals is those words in some case, with nothing behind them but full
/// stops, and nothing around but white space.
pub proof fn law_no_goals_is_said_with_these_words(text: Seq<char>)
    requires
        says_no_goals(text),
    ensures
        ({
            let whole = trim(text);
            &&& whole.len() >= 8
            &&& forall|i: int|
                0 <= i < 8 ==> lower_code(#[trigger] whole[i]) == lower_code("no goals"@[i])
            &&& forall|i: int| 8 <= i < whole.len() ==> #[trigger] whole[i] == '.'
        }),
{
    reveal_strlit("no goals");
    let whole = trim(text);
    lemma_trim_end_of_keeps(whole, '.');
    let said = trim_end_of(whole, '.');
    assert forall|i: int| 0 <= i < 8 implies lower_code(#[trigger] whole[i]) == lower_code(
        "no goals"@[i],
    ) by {
        assert(said[i] == whole[i]);
    }
}

proof fn lemma_trim_end_of_keeps(text: Seq<char>, c: char)
    ensures
        trim_end_of(text, c).len() <= text.len(),
        forall|i: int|
            0 <= i < trim_end_of(text, c).len() ==> #[trigger] trim_end_of(text, c)[i] == text[i],
        forall|i: int| trim_end_of(text, c).len() <= i < text.len() ==> #[trigger] text[i] == c,
    decreases text.len(),
{
    if text.len() > 0 && text.last() == c {
        let fewer = text.drop_last();
        lemma_trim_end_of_keeps(fewer, c);
        assert forall|i: int| trim_end_of(text, c).len() <= i < text.len() implies #[trigger] text[i]
            == c by {
            if i < fewer.len() {
                assert(fewer[i] == text[i]);
            }
        }
    }
}

/// A hypothesis shows its names with a space between each two, its type and its value, and each
/// character of the type and of the value refers to what it refers to there.
pub proof fn law_hypothesis_shows_all_it_has(hyp: Hypothesis)
    ensures
        join(line_texts(hypothesis_lines(hyp)), seq!['\n']) == join(hyp.names, " "@) + " : "@
            + text_of(flatten(hyp.ty, None)) + match hyp.val {
            Some(value) => " := "@ + text_of(flatten(value, None)),
            None => Seq::empty(),
        },
        line_marks(hypothesis_lines(hyp)) == marks(
            seq![Segment { text: join(hyp.names, " "@) + " : "@, info: None }],
        ) + marks(flatten(hyp.ty, None)) + match hyp.val {
            Some(value) => marks(seq![Segment { text: " := "@, info: None }]) + marks(
                flatten(value, None),
            ),
            None => Seq::empty(),
        },
        forall|i: int, j: int|
            0 <= i < hypothesis_lines(hyp).len() && 0 <= j < hypothesis_lines(hyp)[i].len() ==> (
            #[trigger] hypothesis_lines(hyp)[i][j]).text.len() > 0
                && !hypothesis_lines(hyp)[i][j].text.contains('\n'),
{
    let names = join(hyp.names, " "@);
    let named = seq![plain(names), plain(" : "@)];
    let ty = flatten(hyp.ty, None);
    let value = match hyp.val {
        Some(value) => seq![plain(" := "@)] + flatten(value, None),
        None => Seq::empty(),
    };
    let parts = named + ty + value;
    law_lines_keep_the_text(parts);
    law_lines_keep_the_marks(parts);
    law_lines_are_clean(parts);
    assert forall|i: int, j: int|
        0 <= i < hypothesis_lines(hyp).len() && 0 <= j < hypothesis_lines(hyp)[i].len() implies (
    #[trigger] hypothesis_lines(hyp)[i][j]).text.len() > 0
        && !hypothesis_lines(hyp)[i][j].text.contains('\n') by {
        assert(is_clean(break_lines(parts)[i][j]));
    }
    assert(named =~= seq![plain(names)] + seq![plain(" : "@)]);
    law_text_is_that_of_each(seq![plain(names)], seq![plain(" : "@)], plain(names));
    law_text_is_that_of_each(named, ty, plain(" : "@));
    law_text_is_that_of_each(named + ty, value, plain(" := "@));
    law_marks_are_those_of_each(seq![plain(names)], seq![plain(" : "@)], names, ' ', None);
    law_marks_are_those_of_each(named, ty, names, ' ', None);
    law_marks_are_those_of_each(named + ty, value, names, ' ', None);
    lemma_marks_of_longer(names, " : "@, None);
    if let Some(val) = hyp.val {
        law_text_is_that_of_each(seq![plain(" := "@)], flatten(val, None), plain(" := "@));
        law_marks_are_those_of_each(
            seq![plain(" := "@)],
            flatten(val, None),
            names,
            ' ',
            None,
        );
    } else {
        assert(text_of(value) =~= Seq::empty());
        assert(marks(value) =~= Seq::empty());
    }
    assert(text_of(parts) =~= names + " : "@ + text_of(ty) + match hyp.val {
        Some(value) => " := "@ + text_of(flatten(value, None)),
        None => Seq::empty(),
    });
}

proof fn lemma_marks_of_longer(first: Seq<char>, second: Seq<char>, info: Option<Json>)
    ensures
        marks(seq![Segment { text: first + second, info }]) == marks(
            seq![Segment { text: first, info }],
        ) + marks(seq![Segment { text: second, info }]),
    decreases second.len(),
{
    let one = Seq::<Segment>::empty();
    if second.len() == 0 {
        assert(first + second =~= first);
        assert(second =~= Seq::empty());
        law_marks_are_those_of_each(one, one, first, ' ', info);
        assert(marks(seq![Segment { text: first, info }]) + marks(
            seq![Segment { text: second, info }],
        ) =~= marks(seq![Segment { text: first, info }]));
    } else {
        let fewer = second.drop_last();
        lemma_marks_of_longer(first, fewer, info);
        law_marks_are_those_of_each(one, one, first + fewer, second.last(), info);
        law_marks_are_those_of_each(one, one, fewer, second.last(), info);
        assert((first + fewer).push(second.last()) =~= first + second);
        assert(fewer.push(second.last()) =~= second);
        assert(marks(seq![Segment { text: first + second, info }]) =~= marks(
            seq![Segment { text: first, info }],
        ) + marks(seq![Segment { text: second, info }]));
    }
}

/// Hypotheses are shown one after the other, every one of them.
pub proof fn law_hypotheses_are_shown_one_by_one(
    first: Seq<Hypothesis>,
    second: Seq<Hypothesis>,
    one: Hypothesis,
)
    ensures
        hypotheses_lines(first + second) == hypotheses_lines(first) + hypotheses_lines(second),
        hypotheses_lines(seq![one]) == hypothesis_lines(one),
        hypotheses_lines(Seq::empty()) == Seq::<Seq<Segment>>::empty(),
    decreases second.len(),
{
    assert(hypotheses_lines(Seq::empty()) =~= Seq::empty());
    assert(seq![one].drop_last() =~= Seq::empty());
    assert(hypotheses_lines(seq![one]) =~= hypothesis_lines(one));
    if second.len() == 0 {
        assert(first + second =~= first);
        assert(hypotheses_lines(first) + hypotheses_lines(second) =~= hypotheses_lines(first));
    } else {
        law_hypotheses_are_shown_one_by_one(first, second.drop_last(), one);
        assert((first + second).drop_last() =~= first + second.drop_last());
        assert(hypotheses_lines(first + second) =~= hypotheses_lines(first) + hypotheses_lines(
            second,
        ));
    }
}

/// The number of lines of the hypotheses, each counted.
pub open spec fn number_of_lines(hyps: Seq<Hypothesis>) -> nat
    decreases hyps.len(),
{
    if hyps.len() == 0 {
        0
    } else {
        hypothesis_lines(hyps[0]).len() + number_of_lines(hyps.skip(1))
    }
}

proof fn lemma_number_of_lines(hyps: Seq<Hypothesis>)
    ensures
        hypotheses_lines(hyps).len() == number_of_lines(hyps),
    decreases hyps.len(),
{
    if hyps.len() > 0 {
        lemma_number_of_lines(hyps.skip(1));
        law_hypotheses_are_shown_one_by_one(seq![hyps[0]], hyps.skip(1), hyps[0]);
        assert(seq![hyps[0]] + hyps.skip(1) =~= hyps);
    }
}

/// The case of a goal, where it has a name.
pub open spec fn case_lines(goal: Goal) -> Seq<Seq<Segment>> {
    if goal.user_name is Some && goal.user_name->0.len() > 0 {
        seq![seq![Segment { text: "case "@ + goal.user_name->0, info: None }]]
    } else {
        Seq::empty()
    }
}

/// What is to be shown of a goal, behind its prefix or else a turnstile.
pub open spec fn target_lines(goal: Goal) -> Seq<Seq<Segment>> {
    let prefix = if goal.goal_prefix is Some {
        goal.goal_prefix->0
    } else {
        "⊢ "@
    };
    break_lines(seq![Segment { text: prefix, info: None }] + flatten(goal.ty, None))
}

/// The lines of each hypothesis stand in the lines of the goal, behind its case and the hypotheses
/// before it, and before those behind it and the target.
pub proof fn law_goal_shows_each_hypothesis(goal: Goal, i: int)
    requires
        0 <= i < goal.hyps.len(),
    ensures
        goal_lines(goal) == case_lines(goal) + hypotheses_lines(goal.hyps.take(i))
            + hypothesis_lines(goal.hyps[i]) + hypotheses_lines(goal.hyps.skip(i + 1))
            + target_lines(goal),
{
    let hyps = goal.hyps;
    let here = seq![hyps[i]];
    law_hypotheses_are_shown_one_by_one(hyps.take(i), here, hyps[i]);
    law_hypotheses_are_shown_one_by_one(hyps.take(i) + here, hyps.skip(i + 1), hyps[i]);
    assert(hyps.take(i) + here + hyps.skip(i + 1) =~= hyps);
    assert(goal_lines(goal) =~= case_lines(goal) + hypotheses_lines(hyps) + target_lines(goal));
    assert(goal_lines(goal) =~= case_lines(goal) + hypotheses_lines(hyps.take(i))
        + hypothesis_lines(hyps[i]) + hypotheses_lines(hyps.skip(i + 1)) + target_lines(goal));
}

/// A goal shows its case, all its hypotheses and its target, and nothing else.
pub proof fn law_goal_shows_all_it_has(goal: Goal)
    ensures
        goal_lines(goal).len() == case_lines(goal).len() + number_of_lines(goal.hyps)
            + target_lines(goal).len(),
        goal.hyps.len() == 0 ==> goal_lines(goal) == case_lines(goal) + target_lines(goal),
        goal_lines(goal).take(case_lines(goal).len() as int) == case_lines(goal),
        goal_lines(goal).skip(goal_lines(goal).len() - target_lines(goal).len()) == target_lines(
            goal,
        ),
        join(line_texts(target_lines(goal)), seq!['\n']) == (match goal.goal_prefix {
            Some(prefix) => prefix,
            None => "⊢ "@,
        }) + text_of(flatten(goal.ty, None)),
{
    lemma_number_of_lines(goal.hyps);
    let shown = goal_lines(goal);
    assert(shown =~= case_lines(goal) + hypotheses_lines(goal.hyps) + target_lines(goal));
    assert(shown.take(case_lines(goal).len() as int) =~= case_lines(goal));
    assert(shown.skip(shown.len() - target_lines(goal).len()) =~= target_lines(goal));
    if goal.hyps.len() == 0 {
        assert(hypotheses_lines(goal.hyps) =~= Seq::empty());
        assert(shown =~= case_lines(goal) + target_lines(goal));
    }
    let prefix = match goal.goal_prefix {
        Some(prefix) => prefix,
        None => "⊢ "@,
    };
    law_lines_keep_the_text(seq![plain(prefix)] + flatten(goal.ty, None));
    law_text_is_that_of_each(seq![plain(prefix)], flatten(goal.ty, None), plain(prefix));
}

/// A reply is worth more the more it tells: goals more than none, and none more than no reply. An
/// expected type is worth something. Interactive goals are worth most where every one of them can be
/// shown, and nothing where there is none.
pub proof fn law_replies_are_ranked(
    plain_goal: PlainGoal,
    plain_term_goal: PlainTermGoal,
    goals: Seq<Goal>,
    goal: Goal,
)
    ensures
        plain_goal_rank(None) == 0,
        plain_goal_rank(Some(plain_goal)) == if plain_goal.goals.len() > 0 {
            2int
        } else {
            1int
        },
        plain_term_goal_rank(None) == 0,
        plain_term_goal_rank(Some(plain_term_goal)) == if plain_term_goal.goal is Some {
            1int
        } else {
            0int
        },
        interactive_goal_rank(None) == 0,
        interactive_goal_rank(Some(Seq::empty())) == 0,
        goals.len() > 0 ==> 1 <= interactive_goal_rank(Some(goals)) <= 2,
        interactive_goal_rank(Some(goals)) == 2 ==> forall|i: int|
            0 <= i < goals.len() ==> is_visible(text_of(flatten((#[trigger] goals[i]).ty, None))),
        interactive_goal_rank(Some(goals)) == 1 ==> exists|i: int|
            0 <= i < goals.len() && !is_visible(text_of(flatten((#[trigger] goals[i]).ty, None))),
        interactive_term_goal_rank(None) == 0,
        interactive_term_goal_rank(Some(goal)) == if is_visible(text_of(flatten(goal.ty, None))) {
            2int
        } else {
            1int
        },
{
    law_tagged_text_is_as_visible_as_its_text(goal.ty, None);
    assert forall|i: int| 0 <= i < goals.len() implies tagged_is_visible((#[trigger] goals[i]).ty)
        == is_visible(text_of(flatten(goals[i].ty, None))) by {
        law_tagged_text_is_as_visible_as_its_text(goals[i].ty, None);
    }
}

} // verus!
