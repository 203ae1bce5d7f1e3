//! The text of the infoview, built line by line, and the spans of it that refer to a value.
use vstd::prelude::*;
use crate::json::{Json, Value};
use crate::segments::{line_texts, rendered, segments, text_of, RenderedLine, Segment};
use crate::text::{ends_with, join, lemma_bytes_bound_chars};

verus! {

/// The characters `start..end` of the text refer to `info`.
#[derive(Debug)]
pub struct InfoSpan {
    pub start: usize,
    pub end: usize,
    pub info: Value,
}

/// The mathematical value of an [`InfoSpan`].
pub struct Span {
    pub start: int,
    pub end: int,
    pub info: Json,
}

impl View for InfoSpan {
    type V = Span;

    open spec fn view(&self) -> Span {
        Span { start: self.start as int, end: self.end as int, info: self.info@ }
    }
}

impl Clone for InfoSpan {
    fn clone(&self) -> (copy: Self)
        ensures
            copy@ == self@,
    {
        InfoSpan { start: self.start, end: self.end, info: self.info.clone() }
    }
}

/// The spans that a vector of them stands for.
pub open spec fn spans_of(spans: Seq<InfoSpan>) -> Seq<Span> {
    spans.map_values(|span: InfoSpan| span@)
}

/// A text under construction.
#[derive(Debug)]
pub struct BufferBuilder {
    pub text: String,
    pub spans: Vec<InfoSpan>,
    pub char_len: usize,
}

/// The mathematical value of a [`BufferBuilder`].
pub struct Buffer {
    pub text: Seq<char>,
    pub spans: Seq<Span>,
}

impl View for BufferBuilder {
    type V = Buffer;

    open spec fn view(&self) -> Buffer {
        Buffer { text: self.text@, spans: spans_of(self.spans@) }
    }
}

impl Buffer {
    /// A buffer without text.
    pub open spec fn empty() -> Buffer {
        Buffer { text: Seq::empty(), spans: Seq::empty() }
    }

    /// The buffer with a segment at its end.
    pub open spec fn add_segment(self, segment: Segment) -> Buffer {
        Buffer {
            text: self.text + segment.text,
            spans: match segment.info {
                Some(info) if segment.text.len() > 0 => self.spans.push(
                    Span {
                        start: self.text.len() as int,
                        end: (self.text.len() + segment.text.len()) as int,
                        info,
                    },
                ),
                _ => self.spans,
            },
        }
    }

    /// The buffer with the segments at its end.
    pub open spec fn add_segments(self, line: Seq<Segment>) -> Buffer
        decreases line.len(),
    {
        if line.len() == 0 {
            self
        } else {
            self.add_segments(line.drop_last()).add_segment(line.last())
        }
    }

    /// The buffer with the line, and a line feed, at its end.
    pub open spec fn add_line(self, line: Seq<Segment>) -> Buffer {
        let filled = self.add_segments(line);
        Buffer { text: filled.text.push('\n'), spans: filled.spans }
    }

    /// The buffer with the lines at its end.
    pub open spec fn add_lines(self, lines: Seq<Seq<Segment>>) -> Buffer
        decreases lines.len(),
    {
        if lines.len() == 0 {
            self
        } else {
            self.add_lines(lines.drop_last()).add_line(lines.last())
        }
    }

    /// The buffer with an empty line at its end, where one is needed to set off what follows.
    pub open spec fn separate(self) -> Buffer {
        if self.text.len() == 0 || seq!['\n', '\n'].is_suffix_of(self.text) {
            self
        } else {
            self.add_line(Seq::empty())
        }
    }

    /// The buffer with a text that refers to nothing put before it.
    pub open spec fn behind(self, heading: Seq<char>) -> Buffer {
        Buffer {
            text: heading + self.text,
            spans: self.spans.map_values(
                |span: Span|
                    Span {
                        start: span.start + heading.len(),
                        end: span.end + heading.len(),
                        info: span.info,
                    },
            ),
        }
    }

    /// Whether the spans lie in the text, in its order, none empty and no two over each other.
    pub open spec fn in_order(self) -> bool {
        &&& forall|i: int|
            0 <= i < self.spans.len() ==> 0 <= (#[trigger] self.spans[i]).start < self.spans[i].end
                <= self.text.len()
        &&& forall|i: int, j: int|
            0 <= i < j < self.spans.len() ==> (#[trigger] self.spans[i]).end
                <= (#[trigger] self.spans[j]).start
    }

    /// Whether `later` has all that is in this buffer, and whatever else it has behind that.
    pub open spec fn is_start_of(self, later: Buffer) -> bool {
        &&& self.text.len() <= later.text.len()
        &&& self.spans.len() <= later.spans.len()
        &&& forall|i: int| 0 <= i < self.text.len() ==> self.text[i] == #[trigger] later.text[i]
        &&& forall|i: int| 0 <= i < self.spans.len() ==> self.spans[i] == #[trigger] later.spans[i]
        &&& forall|i: int|
            self.spans.len() <= i < later.spans.len() ==> self.text.len() <= (
            #[trigger] later.spans[i]).start
    }
}

impl BufferBuilder {
    /// `char_len` counts the characters of `text`.
    pub open spec fn wf(self) -> bool {
        self.char_len == self.text@.len()
    }

    /// Appends `line` and a line feed.
    pub fn push_line(&mut self, line: &RenderedLine)
        requires
            old(self).wf(),
        ensures
            final(self).wf(),
            final(self)@ == old(self)@.add_line(segments(line@)),
    {
        let ghost all = segments(line@);
        let ghost before = self@;
        let mut i: usize = 0;
        while i < line.len()
            invariant
                i <= line@.len(),
                all == segments(line@),
                self.wf(),
                self@ == before.add_segments(all.take(i as int)),
            decreases line@.len() - i,
        {
            let segment = &line[i];
            let ghost here = self@;
            assert(all.take(i + 1).drop_last() =~= all.take(i as int));
            if !segment.text.as_str().is_empty() {
                let start = self.char_len;
                self.text.append(segment.text.as_str());
                let _bytes = self.text.as_str().as_bytes().len();
                proof {
                    lemma_bytes_bound_chars(self.text@);
                }
                self.char_len = start + segment.text.as_str().unicode_len();
                if let Some(info) = &segment.info {
                    let ghost spans = self.spans@;
                    self.spans.push(InfoSpan { start, end: self.char_len, info: info.clone() });
                    assert(spans_of(self.spans@) =~= here.add_segment(segment@).spans);
                }
            } else {
                assert(here.text + segment.text@ =~= here.text);
            }
            assert(self@ == here.add_segment(segment@));
            i += 1;
        }
        assert(all.take(line@.len() as int) =~= all);
        self.text.push('\n');
        let _bytes = self.text.as_str().as_bytes().len();
        proof {
            lemma_bytes_bound_chars(self.text@);
        }
        self.char_len = self.char_len + 1;
    }

    /// Appends the lines.
    pub fn push_lines(&mut self, lines: &Vec<RenderedLine>)
        requires
            old(self).wf(),
        ensures
            final(self).wf(),
            final(self)@ == old(self)@.add_lines(rendered(lines@)),
    {
        let ghost all = rendered(lines@);
        let ghost before = self@;
        let mut i: usize = 0;
        while i < lines.len()
            invariant
                i <= lines@.len(),
                all == rendered(lines@),
                self.wf(),
                self@ == before.add_lines(all.take(i as int)),
            decreases lines@.len() - i,
        {
            assert(all.take(i + 1).drop_last() =~= all.take(i as int));
            self.push_line(&lines[i]);
            i += 1;
        }
        assert(all.take(lines@.len() as int) =~= all);
    }
}

impl Default for BufferBuilder {
    /// A builder without text.
    fn default() -> (builder: Self)
        ensures
            builder.wf(),
            builder@ == Buffer::empty(),
    {
        let builder = BufferBuilder { text: String::new(), spans: Vec::new(), char_len: 0 };
        assert(builder@.spans =~= Seq::empty());
        builder
    }
}

/// Appends an empty line, where one is needed to set off what follows.
pub fn push_section_separator(builder: &mut BufferBuilder)
    requires
        old(builder).wf(),
    ensures
        final(builder).wf(),
        final(builder)@ == old(builder)@.separate(),
{
    proof {
        reveal_strlit("\n\n");
        assert("\n\n"@ =~= seq!['\n', '\n']);
    }
    if !builder.text.as_str().is_empty() && !ends_with(builder.text.as_str(), "\n\n") {
        let line: RenderedLine = Vec::new();
        assert(segments(line@) =~= Seq::empty());
        builder.push_line(&line);
    }
}

/// A buffer without text is in order.
pub proof fn law_empty_buffer_is_in_order()
    ensures
        Buffer::empty().in_order(),
{
}

/// What was put into a buffer stays where it is when a segment is added.
pub proof fn law_segment_keeps_what_is_there(buffer: Buffer, segment: Segment)
    requires
        buffer.in_order(),
    ensures
        buffer.add_segment(segment).in_order(),
        buffer.is_start_of(buffer.add_segment(segment)),
{
    let after = buffer.add_segment(segment);
    assert forall|i: int, j: int| 0 <= i < j < after.spans.len() implies (
    #[trigger] after.spans[i]).end <= (#[trigger] after.spans[j]).start by {
        if j < buffer.spans.len() {
            assert(buffer.spans[i].end <= buffer.spans[j].start);
        } else {
            assert(buffer.spans[i].end <= buffer.text.len());
        }
    }
}

/// What was put into a buffer stays where it is when segments are added.
pub proof fn law_segments_keep_what_is_there(buffer: Buffer, line: Seq<Segment>)
    requires
        buffer.in_order(),
    ensures
        buffer.add_segments(line).in_order(),
        buffer.is_start_of(buffer.add_segments(line)),
    decreases line.len(),
{
    if line.len() > 0 {
        let before = buffer.add_segments(line.drop_last());
        law_segments_keep_what_is_there(buffer, line.drop_last());
        law_segment_keeps_what_is_there(before, line.last());
        lemma_start_of_start(buffer, before, buffer.add_segments(line));
    }
}

/// What was put into a buffer stays where it is when a line is added.
pub proof fn law_line_keeps_what_is_there(buffer: Buffer, line: Seq<Segment>)
    requires
        buffer.in_order(),
    ensures
        buffer.add_line(line).in_order(),
        buffer.is_start_of(buffer.add_line(line)),
{
    law_segments_keep_what_is_there(buffer, line);
    let filled = buffer.add_segments(line);
    assert forall|i: int, j: int| 0 <= i < j < filled.spans.len() implies (
    #[trigger] buffer.add_line(line).spans[i]).end <= (#[trigger] buffer.add_line(
        line,
    ).spans[j]).start by {
        assert(filled.spans[i].end <= filled.spans[j].start);
    }
    lemma_start_of_start(buffer, filled, buffer.add_line(line));
}

/// What was put into a buffer stays where it is when lines are added.
pub proof fn law_lines_keep_what_is_there(buffer: Buffer, lines: Seq<Seq<Segment>>)
    requires
        buffer.in_order(),
    ensures
        buffer.add_lines(lines).in_order(),
        buffer.is_start_of(buffer.add_lines(lines)),
    decreases lines.len(),
{
    if lines.len() > 0 {
        let before = buffer.add_lines(lines.drop_last());
        law_lines_keep_what_is_there(buffer, lines.drop_last());
        law_line_keeps_what_is_there(before, lines.last());
        lemma_start_of_start(buffer, before, buffer.add_lines(lines));
    }
}

/// What was put into a buffer stays where it is when a separator is added.
pub proof fn law_separator_keeps_what_is_there(buffer: Buffer)
    requires
        buffer.in_order(),
    ensures
        buffer.separate().in_order(),
        buffer.is_start_of(buffer.separate()),
{
    law_line_keeps_what_is_there(buffer, Seq::empty());
}

/// A start of a start is a start.
pub proof fn lemma_start_of_start(first: Buffer, second: Buffer, third: Buffer)
    requires
        first.is_start_of(second),
        second.is_start_of(third),
    ensures
        first.is_start_of(third),
{
    assert forall|i: int| 0 <= i < first.text.len() implies first.text[i]
        == #[trigger] third.text[i] by {
        assert(second.text[i] == third.text[i]);
    }
    assert forall|i: int| 0 <= i < first.spans.len() implies first.spans[i]
        == #[trigger] third.spans[i] by {
        assert(second.spans[i] == third.spans[i]);
    }
    assert forall|i: int| first.spans.len() <= i < third.spans.len() implies first.text.len() <= (
    #[trigger] third.spans[i]).start by {
        if i < second.spans.len() {
            assert(second.spans[i] == third.spans[i]);
        }
    }
}

/// Each segment of the lines stands in the buffer behind all that came before it.
pub proof fn law_lines_hold_their_segments(
    buffer: Buffer,
    lines: Seq<Seq<Segment>>,
    i: int,
    j: int,
)
    requires
        buffer.in_order(),
        0 <= i < lines.len(),
        0 <= j < lines[i].len(),
    ensures
        buffer.add_lines(lines.take(i)).add_segments(lines[i].take(j)).in_order(),
        buffer.add_lines(lines.take(i)).add_segments(lines[i].take(j)).add_segment(
            lines[i][j],
        ).is_start_of(buffer.add_lines(lines)),
    decreases lines.len(),
{
    let before = buffer.add_lines(lines.take(i));
    let here = before.add_segments(lines[i].take(j));
    law_lines_keep_what_is_there(buffer, lines.take(i));
    law_segments_keep_what_is_there(before, lines[i].take(j));
    if i < lines.len() - 1 {
        let fewer = lines.drop_last();
        assert(fewer.take(i) =~= lines.take(i));
        law_lines_hold_their_segments(buffer, fewer, i, j);
        law_lines_keep_what_is_there(buffer, fewer);
        law_line_keeps_what_is_there(buffer.add_lines(fewer), lines.last());
        lemma_start_of_start(
            here.add_segment(lines[i][j]),
            buffer.add_lines(fewer),
            buffer.add_lines(lines),
        );
    } else {
        assert(lines.take(i) =~= lines.drop_last());
        let line = lines[i];
        lemma_segments_hold_each(before, line, j);
        law_segments_keep_what_is_there(before, line);
        let filled = before.add_segments(line);
        assert(filled.is_start_of(before.add_line(line)));
        lemma_start_of_start(here.add_segment(line[j]), filled, before.add_line(line));
    }
}

proof fn lemma_segments_hold_each(buffer: Buffer, line: Seq<Segment>, j: int)
    requires
        buffer.in_order(),
        0 <= j < line.len(),
    ensures
        buffer.add_segments(line.take(j)).add_segment(line[j]).is_start_of(
            buffer.add_segments(line),
        ),
    decreases line.len(),
{
    let here = buffer.add_segments(line.take(j)).add_segment(line[j]);
    if j < line.len() - 1 {
        let fewer = line.drop_last();
        assert(fewer.take(j) =~= line.take(j));
        lemma_segments_hold_each(buffer, fewer, j);
        law_segments_keep_what_is_there(buffer, fewer);
        law_segment_keeps_what_is_there(buffer.add_segments(fewer), line.last());
        lemma_start_of_start(here, buffer.add_segments(fewer), buffer.add_segments(line));
    } else {
        assert(line.take(j) =~= line.drop_last());
    }
}

/// What is added to a buffer does not depend on what stands before the buffer.
pub proof fn law_lines_are_added_behind_a_heading(
    buffer: Buffer,
    heading: Seq<char>,
    lines: Seq<Seq<Segment>>,
)
    ensures
        buffer.behind(heading).add_lines(lines) == buffer.add_lines(lines).behind(heading),
    decreases lines.len(),
{
    if lines.len() > 0 {
        law_lines_are_added_behind_a_heading(buffer, heading, lines.drop_last());
        lemma_line_behind(buffer.add_lines(lines.drop_last()), heading, lines.last());
    }
}

proof fn lemma_segment_behind(buffer: Buffer, heading: Seq<char>, segment: Segment)
    ensures
        buffer.behind(heading).add_segment(segment) == buffer.add_segment(segment).behind(heading),
{
    let one = buffer.behind(heading).add_segment(segment);
    let other = buffer.add_segment(segment).behind(heading);
    assert(one.text =~= other.text);
    assert(one.spans =~= other.spans);
}

proof fn lemma_segments_behind(buffer: Buffer, heading: Seq<char>, line: Seq<Segment>)
    ensures
        buffer.behind(heading).add_segments(line) == buffer.add_segments(line).behind(heading),
    decreases line.len(),
{
    if line.len() > 0 {
        lemma_segments_behind(buffer, heading, line.drop_last());
        lemma_segment_behind(buffer.add_segments(line.drop_last()), heading, line.last());
    }
}

proof fn lemma_line_behind(buffer: Buffer, heading: Seq<char>, line: Seq<Segment>)
    ensures
        buffer.behind(heading).add_line(line) == buffer.add_line(line).behind(heading),
{
    lemma_segments_behind(buffer, heading, line);
    let filled = buffer.add_segments(line);
    assert(filled.behind(heading).text.push('\n') =~= heading + filled.text.push('\n'));
}

/// A separator does not depend on a heading that is set off by an empty line, unless the buffer
/// holds one character.
pub proof fn law_separator_is_added_behind_a_heading(buffer: Buffer, heading: Seq<char>)
    requires
        seq!['\n', '\n'].is_suffix_of(heading),
        buffer.text.len() != 1,
    ensures
        buffer.behind(heading).separate() == buffer.separate().behind(heading),
{
    let feeds = seq!['\n', '\n'];
    let whole = heading + buffer.text;
    if buffer.text.len() == 0 {
        assert(whole =~= heading);
    } else {
        let end = whole.subrange(whole.len() - 2, whole.len() as int);
        let own = buffer.text.subrange(buffer.text.len() - 2, buffer.text.len() as int);
        assert(end =~= own);
        lemma_line_behind(buffer, heading, Seq::empty());
    }
}

/// Lines add their texts, each with a line feed behind it.
pub proof fn law_lines_add_their_text(buffer: Buffer, lines: Seq<Seq<Segment>>)
    ensures
        lines.len() == 0 ==> buffer.add_lines(lines) == buffer,
        lines.len() > 0 ==> buffer.add_lines(lines).text == buffer.text + join(
            line_texts(lines),
            seq!['\n'],
        ) + seq!['\n'],
    decreases lines.len(),
{
    if lines.len() > 0 {
        let fewer = lines.drop_last();
        let before = buffer.add_lines(fewer);
        law_lines_add_their_text(buffer, fewer);
        lemma_segments_add_their_text(before, lines.last());
        assert(line_texts(lines).drop_last() =~= line_texts(fewer));
        let after = buffer.add_lines(lines).text;
        assert(after == before.text + text_of(lines.last()) + seq!['\n']) by {
            assert(after =~= before.text + text_of(lines.last()) + seq!['\n']);
        }
        assert(after =~= buffer.text + join(line_texts(lines), seq!['\n']) + seq!['\n']);
    }
}

proof fn lemma_segments_add_their_text(buffer: Buffer, line: Seq<Segment>)
    ensures
        buffer.add_segments(line).text == buffer.text + text_of(line),
    decreases line.len(),
{
    if line.len() == 0 {
        assert(buffer.text + text_of(line) =~= buffer.text);
    } else {
        lemma_segments_add_their_text(buffer, line.drop_last());
        assert(buffer.add_segments(line).text =~= buffer.text + text_of(line));
    }
}

impl Buffer {
    /// Whether a span says that the character at `place` refers to `info`.
    pub open spec fn refers(self, place: int, info: Json) -> bool {
        exists|i: int|
            0 <= i < self.spans.len() && (#[trigger] self.spans[i]).start <= place
                < self.spans[i].end && self.spans[i].info == info
    }
}

/// A segment adds its text and lets exactly the characters of that text refer to what it refers to.
pub proof fn law_segment_marks_its_characters(
    buffer: Buffer,
    segment: Segment,
    place: int,
    info: Json,
)
    ensures
        buffer.add_segment(segment).text == buffer.text + segment.text,
        buffer.add_segment(segment).refers(place, info) <==> buffer.refers(place, info) || (
        buffer.text.len() <= place < buffer.text.len() + segment.text.len() && segment.info == Some(
            info,
        )),
        buffer.add_segment(segment).spans.len() <= buffer.spans.len() + 1,
{
    let after = buffer.add_segment(segment);
    if buffer.refers(place, info) {
        let i = choose|i: int|
            0 <= i < buffer.spans.len() && (#[trigger] buffer.spans[i]).start <= place
                < buffer.spans[i].end && buffer.spans[i].info == info;
        assert(after.spans[i] == buffer.spans[i]);
    }
    if after.refers(place, info) {
        let i = choose|i: int|
            0 <= i < after.spans.len() && (#[trigger] after.spans[i]).start <= place
                < after.spans[i].end && after.spans[i].info == info;
        if i < buffer.spans.len() {
            assert(buffer.spans[i] == after.spans[i]);
        }
    }
    if buffer.text.len() <= place < buffer.text.len() + segment.text.len() && segment.info == Some(
        info,
    ) {
        assert(after.spans[buffer.spans.len() as int].info == info);
    }
}

/// Segments, and lines, are added one after the other. A line adds its segments and a line feed that
/// refers to nothing.
pub proof fn law_lines_are_added_one_by_one(
    buffer: Buffer,
    first: Seq<Segment>,
    second: Seq<Segment>,
    segment: Segment,
    some: Seq<Seq<Segment>>,
    more: Seq<Seq<Segment>>,
)
    ensures
        buffer.add_segments(first + second) == buffer.add_segments(first).add_segments(second),
        buffer.add_segments(seq![segment]) == buffer.add_segment(segment),
        buffer.add_segments(Seq::empty()) == buffer,
        buffer.add_line(first).text == buffer.add_segments(first).text + seq!['\n'],
        buffer.add_line(first).spans == buffer.add_segments(first).spans,
        buffer.add_lines(some + more) == buffer.add_lines(some).add_lines(more),
        buffer.add_lines(seq![first]) == buffer.add_line(first),
        buffer.add_lines(Seq::empty()) == buffer,
{
    lemma_add_both_segments(buffer, first, second);
    lemma_add_both_lines(buffer, some, more);
    assert(seq![segment].drop_last() =~= Seq::empty());
    assert(buffer.add_segments(Seq::empty()) == buffer);
    assert(seq![first].drop_last() =~= Seq::empty());
    assert(buffer.add_lines(Seq::empty()) == buffer);
    assert(buffer.add_line(first).text =~= buffer.add_segments(first).text + seq!['\n']);
}

proof fn lemma_add_both_segments(buffer: Buffer, first: Seq<Segment>, second: Seq<Segment>)
    ensures
        buffer.add_segments(first + second) == buffer.add_segments(first).add_segments(second),
    decreases second.len(),
{
    if second.len() == 0 {
        assert(first + second =~= first);
    } else {
        lemma_add_both_segments(buffer, first, second.drop_last());
        assert((first + second).drop_last() =~= first + second.drop_last());
    }
}

proof fn lemma_add_both_lines(buffer: Buffer, first: Seq<Seq<Segment>>, second: Seq<Seq<Segment>>)
    ensures
        buffer.add_lines(first + second) == buffer.add_lines(first).add_lines(second),
    decreases second.len(),
{
    if second.len() == 0 {
        assert(first + second =~= first);
    } else {
        lemma_add_both_lines(buffer, first, second.drop_last());
        assert((first + second).drop_last() =~= first + second.drop_last());
    }
}

/// A separator is a line feed, where there is a text that does not end with two of them already, and
/// no span moves.
pub proof fn law_separator_is_one_line_feed(buffer: Buffer, text: Seq<char>)
    ensures
        buffer.separate().spans == buffer.spans,
        buffer.text.len() == 0 ==> buffer.separate().text == buffer.text,
        buffer.text == text + seq!['\n', '\n'] ==> buffer.separate().text == buffer.text,
        buffer.text.len() == 1 || (buffer.text.len() > 1 && (buffer.text.last() != '\n'
            || buffer.text[buffer.text.len() - 2] != '\n')) ==> buffer.separate().text == buffer.text
            + seq!['\n'],
{
    let feeds = seq!['\n', '\n'];
    let length = buffer.text.len() as int;
    assert(buffer.add_segments(Seq::empty()) == buffer);
    assert(buffer.text.push('\n') =~= buffer.text + seq!['\n']);
    if buffer.text == text + feeds {
        assert(buffer.text.subrange(length - 2, length) =~= feeds);
    }
    if feeds.is_suffix_of(buffer.text) {
        let end = buffer.text.subrange(length - 2, length);
        assert(end[0] == '\n' && end[1] == '\n');
    }
}

/// A builder stands for its text and its spans, each with its place and what it refers to.
pub proof fn law_builder_is_its_text_and_spans(builder: BufferBuilder)
    ensures
        builder@.text == builder.text@,
        builder@.spans.len() == builder.spans@.len(),
        forall|i: int|
            0 <= i < builder.spans@.len() ==> (#[trigger] builder@.spans[i]).start
                == builder.spans@[i].start && builder@.spans[i].end == builder.spans@[i].end
                && builder@.spans[i].info == builder.spans@[i].info@,
        builder.wf() ==> builder.char_len == builder.text@.len(),
{
}

/// The characters of lines refer to what their segments refer to, and to nothing else.
pub proof fn law_lines_mark_their_characters(
    buffer: Buffer,
    lines: Seq<Seq<Segment>>,
    place: int,
    info: Json,
)
    ensures
        buffer.add_lines(lines).refers(place, info) ==> buffer.refers(place, info) || exists|
            i: int,
            j: int,
        |
            0 <= i < lines.len() && 0 <= j < lines[i].len() && #[trigger] lines[i][j].info == Some(
                info,
            ) && ({
                let before = buffer.add_lines(lines.take(i)).add_segments(lines[i].take(j)).text;
                before.len() <= place < before.len() + lines[i][j].text.len()
            }),
    decreases lines.len(),
{
    if lines.len() > 0 && buffer.add_lines(lines).refers(place, info) {
        let fewer = lines.drop_last();
        let last = lines.len() - 1;
        let before = buffer.add_lines(fewer);
        let line = lines[last];
        assert(lines.take(last) =~= fewer);
        assert(before.add_segments(line).refers(place, info)) by {
            let after = buffer.add_lines(lines);
            let i = choose|i: int|
                0 <= i < after.spans.len() && (#[trigger] after.spans[i]).start <= place
                    < after.spans[i].end && after.spans[i].info == info;
            assert(before.add_segments(line).spans[i] == after.spans[i]);
        }
        lemma_segments_mark(before, line, place, info);
        if before.refers(place, info) {
            law_lines_mark_their_characters(buffer, fewer, place, info);
            if !buffer.refers(place, info) {
                let (i, j) = choose|i: int, j: int|
                    0 <= i < fewer.len() && 0 <= j < fewer[i].len()
                        && #[trigger] fewer[i][j].info == Some(info) && ({
                        let before =
                            buffer.add_lines(fewer.take(i)).add_segments(fewer[i].take(j)).text;
                        before.len() <= place < before.len() + fewer[i][j].text.len()
                    });
                assert(fewer.take(i) =~= lines.take(i));
                assert(lines[i][j] == fewer[i][j]);
            }
        } else {
            let j = choose|j: int|
                0 <= j < line.len() && (#[trigger] line[j]).info == Some(info) && ({
                    let start = before.add_segments(line.take(j)).text;
                    start.len() <= place < start.len() + line[j].text.len()
                });
            assert(lines[last][j].info == Some(info));
        }
    }
}

proof fn lemma_segments_mark(buffer: Buffer, line: Seq<Segment>, place: int, info: Json)
    ensures
        buffer.add_segments(line).refers(place, info) ==> buffer.refers(place, info) || exists|
            j: int,
        |
            0 <= j < line.len() && (#[trigger] line[j]).info == Some(info) && ({
                let before = buffer.add_segments(line.take(j)).text;
                before.len() <= place < before.len() + line[j].text.len()
            }),
    decreases line.len(),
{
    if line.len() > 0 && buffer.add_segments(line).refers(place, info) {
        let fewer = line.drop_last();
        let last = line.len() - 1;
        assert(line.take(last) =~= fewer);
        law_segment_marks_its_characters(buffer.add_segments(fewer), line[last], place, info);
        if buffer.add_segments(fewer).refers(place, info) {
            lemma_segments_mark(buffer, fewer, place, info);
            if !buffer.refers(place, info) {
                let j = choose|j: int|
                    0 <= j < fewer.len() && (#[trigger] fewer[j]).info == Some(info) && ({
                        let before = buffer.add_segments(fewer.take(j)).text;
                        before.len() <= place < before.len() + fewer[j].text.len()
                    });
                assert(fewer.take(j) =~= line.take(j));
                assert(line[j] == fewer[j]);
            }
        } else {
            assert(line[last].info == Some(info));
        }
    }
}

} // verus!
