//! Tagged text: the segments that it shows, the lines that they make, and the value that each
//! segment refers to.
use vstd::prelude::*;
use crate::json::{
    json_of, jsons_of, lemma_item_is_smaller, lemma_jsons_of, lemma_member_at, member_at, Json, Value,
};
use crate::text::{
    chars_of, is_visible, join, law_split_and_join, law_split_at_the_first,
    lemma_split_is_not_empty, shows_something, split, string_of,
};
use crate::views::viewed;

verus! {

/// A run of text with the value that it refers to.
#[derive(Debug)]
pub struct RenderedSegment {
    pub text: String,
    pub info: Option<Value>,
}

/// The segments of one line.
pub type RenderedLine = Vec<RenderedSegment>;

/// The mathematical value of a [`RenderedSegment`].
pub struct Segment {
    pub text: Seq<char>,
    pub info: Option<Json>,
}

impl View for RenderedSegment {
    type V = Segment;

    open spec fn view(&self) -> Segment {
        Segment { text: self.text@, info: viewed(self.info) }
    }
}

/// The segments that a vector of them stands for.
pub open spec fn segments(line: Seq<RenderedSegment>) -> Seq<Segment> {
    line.map_values(|segment: RenderedSegment| segment@)
}

/// The lines that a vector of them stands for.
pub open spec fn rendered(lines: Seq<RenderedLine>) -> Seq<Seq<Segment>> {
    lines.map_values(|line: RenderedLine| segments(line@))
}

/// A segment that refers to nothing.
pub open spec fn plain(text: Seq<char>) -> Segment {
    Segment { text, info: None }
}

/// One line, of text that refers to nothing.
pub open spec fn plain_line(text: Seq<char>) -> Seq<Segment> {
    seq![plain(text)]
}

/// The text of the segments in a row.
pub open spec fn text_of(line: Seq<Segment>) -> Seq<char>
    decreases line.len(),
{
    if line.len() == 0 {
        Seq::empty()
    } else {
        text_of(line.drop_last()) + line.last().text
    }
}

/// What a tag refers to, inside text that refers to `active`.
pub open spec fn tag_info(tag: Json, active: Option<Json>) -> Option<Json> {
    match tag {
        Json::Array(items) => if items.len() > 0 {
            Some(items[0])
        } else {
            active
        },
        Json::Object(_) => match tag.get("info"@) {
            Some(info) => Some(info),
            None => match active {
                Some(info) => Some(info),
                None => Some(tag),
            },
        },
        Json::Null => active,
        _ => Some(tag),
    }
}

/// The segments of a tagged text that stands inside text that refers to `active`.
pub open spec fn flatten(tagged: Json, active: Option<Json>) -> Seq<Segment>
    decreases tagged,
{
    match tagged {
        Json::Text(text) => seq![Segment { text, info: active }],
        Json::Array(items) => flatten_all(items, active),
        Json::Object(members) => {
            proof {
                lemma_member_at(members, "tag"@);
                lemma_member_at(members, "append"@);
            }
            match member_at(members, "tag"@) {
                Some(i) => {
                    let info = tag_info(members[i].1, active);
                    match members[i].1 {
                        Json::Array(items) if items.len() > 1 => flatten(items[1], info),
                        _ => match member_at(members, "append"@) {
                            Some(k) if members[k].1 is Array => flatten_all(
                                members[k].1->Array_0,
                                info,
                            ),
                            _ => own_text(tagged, info),
                        },
                    }
                },
                None => if tagged.get("text"@) matches Some(Json::Text(_)) {
                    own_text(tagged, active)
                } else {
                    match member_at(members, "append"@) {
                        Some(k) if members[k].1 is Array => flatten_all(
                            members[k].1->Array_0,
                            active,
                        ),
                        _ => Seq::empty(),
                    }
                },
            }
        },
        _ => Seq::empty(),
    }
}

/// The segments of the texts, one after the other.
pub open spec fn flatten_all(items: Seq<Json>, active: Option<Json>) -> Seq<Segment>
    decreases items,
{
    if items.len() == 0 {
        Seq::empty()
    } else {
        flatten_all(items.drop_last(), active) + flatten(items.last(), active)
    }
}

/// The segment that an object holds under `text`.
pub open spec fn own_text(tagged: Json, info: Option<Json>) -> Seq<Segment> {
    match tagged.get("text"@) {
        Some(Json::Text(text)) => seq![Segment { text, info }],
        _ => Seq::empty(),
    }
}

/// `lines` with a segment at the end of the last one, unless it is empty.
pub open spec fn put(lines: Seq<Seq<Segment>>, text: Seq<char>, info: Option<Json>) -> Seq<
    Seq<Segment>,
> {
    if text.len() == 0 {
        lines
    } else {
        lines.drop_last().push(lines.last().push(Segment { text, info }))
    }
}

/// `lines` with the pieces put at the end: the first on the last line, each other one on a line
/// of its own.
pub open spec fn put_pieces(
    lines: Seq<Seq<Segment>>,
    pieces: Seq<Seq<char>>,
    info: Option<Json>,
) -> Seq<Seq<Segment>>
    decreases pieces.len(),
{
    if pieces.len() == 0 {
        lines
    } else if pieces.len() == 1 {
        put(lines, pieces[0], info)
    } else {
        put(
            put_pieces(lines, pieces.drop_last(), info).push(Seq::empty()),
            pieces.last(),
            info,
        )
    }
}

/// `lines` with the pieces put at the end and a new line opened after each.
spec fn opened(lines: Seq<Seq<Segment>>, pieces: Seq<Seq<char>>, info: Option<Json>) -> Seq<
    Seq<Segment>,
> {
    if pieces.len() == 0 {
        lines
    } else {
        put_pieces(lines, pieces, info).push(Seq::empty())
    }
}

/// The lines that the segments make: a line feed ends a line, and no segment is empty.
pub open spec fn break_lines(line: Seq<Segment>) -> Seq<Seq<Segment>>
    decreases line.len(),
{
    if line.len() == 0 {
        seq![Seq::empty()]
    } else {
        put_pieces(
            break_lines(line.drop_last()),
            split(line.last().text, '\n'),
            line.last().info,
        )
    }
}

fn copy_info(info: Option<&Value>) -> (copy: Option<Value>)
    ensures
        viewed(copy) == viewed(info),
{
    match info {
        Some(value) => Some(value.clone()),
        None => None,
    }
}

/// What `tag` refers to, inside text that refers to `active_info`.
fn info_of_tag(tag: &Value, active_info: Option<&Value>) -> (info: Option<Value>)
    ensures
        viewed(info) == tag_info(tag@, viewed(active_info)),
{
    match tag {
        Value::Array(items) => {
            proof {
                lemma_jsons_of(items@);
            }
            if items.len() > 0 {
                Some(items[0].clone())
            } else {
                copy_info(active_info)
            }
        },
        Value::Object(_) => match tag.get("info") {
            Some(info) => Some(info.clone()),
            None => match active_info {
                Some(info) => Some(info.clone()),
                None => Some(tag.clone()),
            },
        },
        Value::Null => copy_info(active_info),
        _ => Some(tag.clone()),
    }
}

fn info_ref(info: &Option<Value>) -> (reference: Option<&Value>)
    ensures
        viewed(reference) == viewed(*info),
{
    match info {
        Some(value) => Some(value),
        None => None,
    }
}

fn push_segment(acc: &mut Vec<RenderedSegment>, text: &String, info: Option<Value>)
    ensures
        segments(final(acc)@) == segments(old(acc)@).push(
            Segment { text: text@, info: viewed(info) },
        ),
{
    let ghost before = acc@;
    acc.push(RenderedSegment { text: text.clone(), info });
    assert(segments(acc@) =~= segments(before).push(Segment { text: text@, info: viewed(info) }));
}

/// Appends the segments of each of `items`.
fn flatten_items(items: &Vec<Value>, active_info: Option<&Value>, acc: &mut Vec<RenderedSegment>)
    ensures
        segments(final(acc)@) == segments(old(acc)@) + flatten_all(
            jsons_of(items@),
            viewed(active_info),
        ),
    decreases items, 1int,
{
    let ghost all = jsons_of(items@);
    let ghost start = segments(acc@);
    let ghost active = viewed(active_info);
    proof {
        lemma_jsons_of(items@);
        assert(start + flatten_all(all.take(0), active) =~= start);
    }
    let mut i: usize = 0;
    while i < items.len()
        invariant
            i <= items@.len(),
            all == jsons_of(items@),
            all.len() == items@.len(),
            active == viewed(active_info),
            forall|j: int| 0 <= j < items@.len() ==> #[trigger] all[j] == json_of(items@[j]),
            segments(acc@) == start + flatten_all(all.take(i as int), active),
        decreases items@.len() - i,
    {
        assert(all.take(i + 1).drop_last() =~= all.take(i as int));
        assert(decreases_to!(items => items@));
        assert(decreases_to!(items@ => items@[i as int]));
        flatten_tagged(&items[i], active_info, acc);
        i += 1;
        assert(segments(acc@) =~= start + flatten_all(all.take(i as int), active));
    }
    assert(all.take(items@.len() as int) =~= all);
}

/// Appends the segments of `tagged`, which stands inside text that refers to `active_info`.
pub fn flatten_tagged(
    tagged: &Value,
    active_info: Option<&Value>,
    acc: &mut Vec<RenderedSegment>,
)
    ensures
        segments(final(acc)@) == segments(old(acc)@) + flatten(
            tagged@,
            viewed(active_info),
        ),
    decreases tagged, 0int,
{
    let ghost start = segments(acc@);
    match tagged {
        Value::Text(text) => {
            push_segment(acc, text, copy_info(active_info));
        },
        Value::Array(items) => {
            flatten_items(items, active_info, acc);
        },
        Value::Object(_) => {
            if let Some(tag) = tagged.get("tag") {
                let next_info = info_of_tag(tag, active_info);
                if let Value::Array(items) = tag {
                    proof {
                        lemma_jsons_of(items@);
                    }
                    if items.len() > 1 {
                        proof {
                            lemma_item_is_smaller(*tag, 1);
                        }
                        flatten_tagged(&items[1], info_ref(&next_info), acc);
                        return;
                    }
                }
                if let Some(Value::Array(items)) = tagged.get("append") {
                    flatten_items(items, info_ref(&next_info), acc);
                } else if let Some(Value::Text(text)) = tagged.get("text") {
                    push_segment(acc, text, next_info);
                }
            } else if let Some(Value::Text(text)) = tagged.get("text") {
                push_segment(acc, text, copy_info(active_info));
            } else if let Some(Value::Array(items)) = tagged.get("append") {
                flatten_items(items, active_info, acc);
            }
        },
        _ => {},
    }
    assert(segments(acc@) =~= start + flatten(tagged@, viewed(active_info)));
}

/// The segments of `tagged`.
pub fn flatten_tagged_to_segments(tagged: &Value) -> (result: Vec<RenderedSegment>)
    ensures
        segments(result@) == flatten(tagged@, None),
{
    let mut result: Vec<RenderedSegment> = Vec::new();
    flatten_tagged(tagged, None, &mut result);
    assert(segments(result@) =~= flatten(tagged@, None));
    result
}

/// Whether `tagged` shows anything.
pub open spec fn tagged_is_visible(tagged: Json) -> bool {
    is_visible(text_of(flatten(tagged, None)))
}

/// Whether `tagged` shows anything.
pub fn tagged_has_visible_text(tagged: &Value) -> (yes: bool)
    ensures
        yes == tagged_is_visible(tagged@),
{
    let parts = flatten_tagged_to_segments(tagged);
    let ghost all = segments(parts@);
    let mut text = String::new();
    let mut i: usize = 0;
    while i < parts.len()
        invariant
            i <= parts@.len(),
            all == segments(parts@),
            text@ == text_of(all.take(i as int)),
        decreases parts@.len() - i,
    {
        assert(all.take(i + 1).drop_last() =~= all.take(i as int));
        text.append(parts[i].text.as_str());
        i += 1;
    }
    assert(all.take(parts@.len() as int) =~= all);
    shows_something(text.as_str())
}

/// Ends `current` with the segment for `chars[from..to]`, unless that is empty.
fn put_part(
    current: &mut RenderedLine,
    chars: &Vec<char>,
    from: usize,
    to: usize,
    info: &Option<Value>,
)
    requires
        from <= to <= chars@.len(),
    ensures
        segments(final(current)@) == if from == to {
            segments(old(current)@)
        } else {
            segments(old(current)@).push(
                Segment {
                    text: chars@.subrange(from as int, to as int),
                    info: viewed(*info),
                },
            )
        },
{
    if from != to {
        let text = string_of(chars, from, to);
        push_segment(current, &text, copy_info(info_ref(info)));
    }
}

/// The lines that the segments make.
pub fn segments_to_lines(parts: Vec<RenderedSegment>) -> (lines: Vec<RenderedLine>)
    ensures
        rendered(lines@) == break_lines(segments(parts@)),
{
    let ghost all = segments(parts@);
    let mut finished: Vec<RenderedLine> = Vec::new();
    let mut current: RenderedLine = Vec::new();
    let mut i: usize = 0;
    assert(segments(current@) =~= Seq::empty());
    assert(rendered(finished@).push(segments(current@)) =~= break_lines(all.take(0)));
    while i < parts.len()
        invariant
            i <= parts@.len(),
            all == segments(parts@),
            rendered(finished@).push(segments(current@)) == break_lines(all.take(i as int)),
        decreases parts@.len() - i,
    {
        let ghost before = break_lines(all.take(i as int));
        let part = &parts[i];
        let chars = chars_of(part.text.as_str());
        let mut start: usize = 0;
        let mut k: usize = 0;
        let ghost info = viewed(part.info);
        assert(chars@.subrange(0, 0) =~= Seq::empty());
        while k < chars.len()
            invariant
                start <= k <= chars@.len(),
                info == viewed(part.info),
                before.len() > 0,
                opened(before, split(chars@.take(k as int), '\n').drop_last(), info)
                    == rendered(finished@).push(segments(current@)),
                split(chars@.take(k as int), '\n').last() == chars@.subrange(
                    start as int,
                    k as int,
                ),
                split(chars@.take(k as int), '\n').len() > 0,
            decreases chars@.len() - k,
        {
            let ghost pieces = split(chars@.take(k as int), '\n');
            let ghost next_pieces = split(chars@.take(k + 1), '\n');
            assert(chars@.take(k + 1).drop_last() =~= chars@.take(k as int));
            if chars[k] == '\n' {
                let ghost lines_before = rendered(finished@);
                put_part(&mut current, &chars, start, k, &part.info);
                let mut ended: RenderedLine = Vec::new();
                std::mem::swap(&mut ended, &mut current);
                finished.push(ended);
                start = k + 1;
                proof {
                    assert(next_pieces.drop_last() =~= pieces);
                    assert(chars@.subrange(start as int, k + 1) =~= Seq::empty());
                    assert(segments(current@) =~= Seq::empty());
                    assert(rendered(finished@) =~= lines_before.push(segments(ended@)));
                    assert(put_pieces(before, pieces, info) =~= rendered(finished@));
                }
            } else {
                proof {
                    assert(next_pieces.drop_last() =~= pieces.drop_last());
                    assert(chars@.subrange(start as int, k + 1) =~= pieces.last().push(
                        chars@[k as int],
                    ));
                }
            }
            k += 1;
        }
        put_part(&mut current, &chars, start, chars.len(), &part.info);
        proof {
            assert(chars@.take(chars@.len() as int) =~= chars@);
            assert(all.take(i + 1).drop_last() =~= all.take(i as int));
            assert(rendered(finished@).push(segments(current@)) =~= put_pieces(
                before,
                split(chars@, '\n'),
                info,
            ));
        }
        i += 1;
    }
    finished.push(current);
    assert(all.take(parts@.len() as int) =~= all);
    assert(rendered(finished@) =~= break_lines(all));
    finished
}

/// A line of text that refers to nothing.
pub fn line_of(text: String) -> (line: RenderedLine)
    ensures
        segments(line@) == plain_line(text@),
{
    let mut line: RenderedLine = Vec::new();
    line.push(RenderedSegment { text, info: None });
    assert(segments(line@) =~= plain_line(text@));
    line
}

/// Appends a line of text that refers to nothing.
pub fn push_plain_line(lines: &mut Vec<RenderedLine>, text: String)
    ensures
        rendered(final(lines)@) == rendered(old(lines)@).push(plain_line(text@)),
{
    let ghost before = rendered(lines@);
    lines.push(line_of(text));
    assert(rendered(lines@) =~= before.push(plain_line(text@)));
}

/// Appends a line without segments.
pub fn push_empty_line(lines: &mut Vec<RenderedLine>)
    ensures
        rendered(final(lines)@) == rendered(old(lines)@).push(Seq::empty()),
{
    let ghost before = rendered(lines@);
    let line: RenderedLine = Vec::new();
    assert(segments(line@) =~= Seq::empty());
    lines.push(line);
    assert(rendered(lines@) =~= before.push(Seq::empty()));
}

/// Appends a segment that refers to nothing.
pub fn push_plain_segment(line: &mut Vec<RenderedSegment>, text: String)
    ensures
        segments(final(line)@) == segments(old(line)@).push(plain(text@)),
{
    let ghost before = segments(line@);
    line.push(RenderedSegment { text, info: None });
    assert(segments(line@) =~= before.push(plain(text@)));
}

/// Moves the lines of `more` to the end of `lines`.
pub fn append_lines(lines: &mut Vec<RenderedLine>, more: Vec<RenderedLine>)
    ensures
        rendered(final(lines)@) == rendered(old(lines)@) + rendered(more@),
{
    let ghost before = rendered(lines@);
    let mut more = more;
    let ghost added = rendered(more@);
    lines.append(&mut more);
    assert(rendered(lines@) =~= before + added);
}

/// The texts of the lines.
pub open spec fn line_texts(lines: Seq<Seq<Segment>>) -> Seq<Seq<char>> {
    lines.map_values(|line: Seq<Segment>| text_of(line))
}

/// The characters of a text except line feeds, each with what it refers to.
pub open spec fn text_marks(text: Seq<char>, info: Option<Json>) -> Seq<(char, Option<Json>)>
    decreases text.len(),
{
    if text.len() == 0 {
        Seq::empty()
    } else {
        let before = text_marks(text.drop_last(), info);
        if text.last() == '\n' {
            before
        } else {
            before.push((text.last(), info))
        }
    }
}

/// The characters of the segments except line feeds, each with what it refers to.
pub open spec fn marks(line: Seq<Segment>) -> Seq<(char, Option<Json>)>
    decreases line.len(),
{
    if line.len() == 0 {
        Seq::empty()
    } else {
        marks(line.drop_last()) + text_marks(line.last().text, line.last().info)
    }
}

/// The characters of the lines except line feeds, each with what it refers to.
pub open spec fn line_marks(lines: Seq<Seq<Segment>>) -> Seq<(char, Option<Json>)>
    decreases lines.len(),
{
    if lines.len() == 0 {
        Seq::empty()
    } else {
        line_marks(lines.drop_last()) + marks(lines.last())
    }
}

/// The lines that the segments make hold the same text, with line feeds between the lines.
pub proof fn law_lines_keep_the_text(line: Seq<Segment>)
    ensures
        break_lines(line).len() > 0,
        join(line_texts(break_lines(line)), seq!['\n']) == text_of(line),
    decreases line.len(),
{
    if line.len() == 0 {
        let lines = break_lines(line);
        assert(line_texts(lines)[0] =~= Seq::empty());
    } else {
        let pieces = split(line.last().text, '\n');
        law_lines_keep_the_text(line.drop_last());
        law_split_and_join(line.last().text, '\n');
        lemma_split_is_not_empty(line.last().text, '\n');
        lemma_put_pieces_text(break_lines(line.drop_last()), pieces, line.last().info);
    }
}

proof fn lemma_text_of_push(line: Seq<Segment>, segment: Segment)
    ensures
        text_of(line.push(segment)) == text_of(line) + segment.text,
{
    assert(line.push(segment).drop_last() =~= line);
}

proof fn lemma_put_text(lines: Seq<Seq<Segment>>, text: Seq<char>, info: Option<Json>)
    requires
        lines.len() > 0,
    ensures
        put(lines, text, info).len() == lines.len(),
        join(line_texts(put(lines, text, info)), seq!['\n']) == join(line_texts(lines), seq!['\n'])
            + text,
{
    let before = line_texts(lines);
    let after = line_texts(put(lines, text, info));
    if text.len() == 0 {
        assert(join(before, seq!['\n']) + text =~= join(before, seq!['\n']));
    } else {
        lemma_text_of_push(lines.last(), Segment { text, info });
        assert(after =~= before.drop_last().push(before.last() + text));
        assert(after.drop_last() =~= before.drop_last());
        assert(join(after, seq!['\n']) =~= join(before, seq!['\n']) + text);
    }
}

proof fn lemma_put_pieces_text(
    lines: Seq<Seq<Segment>>,
    pieces: Seq<Seq<char>>,
    info: Option<Json>,
)
    requires
        lines.len() > 0,
        pieces.len() > 0,
    ensures
        put_pieces(lines, pieces, info).len() > 0,
        join(line_texts(put_pieces(lines, pieces, info)), seq!['\n']) == join(
            line_texts(lines),
            seq!['\n'],
        ) + join(pieces, seq!['\n']),
    decreases pieces.len(),
{
    if pieces.len() == 1 {
        lemma_put_text(lines, pieces[0], info);
    } else {
        lemma_put_pieces_text(lines, pieces.drop_last(), info);
        let before = put_pieces(lines, pieces.drop_last(), info);
        let opened = before.push(Seq::empty());
        assert(line_texts(opened) =~= line_texts(before).push(Seq::empty()));
        assert(line_texts(opened).drop_last() =~= line_texts(before));
        lemma_put_text(opened, pieces.last(), info);
        assert(join(line_texts(put_pieces(lines, pieces, info)), seq!['\n']) =~= join(
            line_texts(lines),
            seq!['\n'],
        ) + join(pieces, seq!['\n']));
    }
}

/// In the lines that the segments make, no segment is empty and none holds a line feed.
pub proof fn law_lines_are_clean(line: Seq<Segment>)
    ensures
        break_lines(line).len() > 0,
        forall|i: int, j: int|
            0 <= i < break_lines(line).len() && 0 <= j < break_lines(line)[i].len()
                ==> is_clean(#[trigger] break_lines(line)[i][j]),
    decreases line.len(),
{
    if line.len() > 0 {
        law_lines_are_clean(line.drop_last());
        law_split_and_join(line.last().text, '\n');
        lemma_split_is_not_empty(line.last().text, '\n');
        lemma_put_pieces_is_clean(
            break_lines(line.drop_last()),
            split(line.last().text, '\n'),
            line.last().info,
        );
    }
}

/// Whether the segment has a text, and no line feed in it.
pub open spec fn is_clean(segment: Segment) -> bool {
    segment.text.len() > 0 && !segment.text.contains('\n')
}

spec fn all_clean(lines: Seq<Seq<Segment>>) -> bool {
    forall|i: int, j: int|
        0 <= i < lines.len() && 0 <= j < lines[i].len() ==> is_clean(#[trigger] lines[i][j])
}

proof fn lemma_put_is_clean(lines: Seq<Seq<Segment>>, text: Seq<char>, info: Option<Json>)
    requires
        lines.len() > 0,
        all_clean(lines),
        !text.contains('\n'),
    ensures
        put(lines, text, info).len() == lines.len(),
        all_clean(put(lines, text, info)),
{
    let after = put(lines, text, info);
    assert forall|i: int, j: int| 0 <= i < after.len() && 0 <= j < after[i].len() implies is_clean(
        #[trigger] after[i][j],
    ) by {
        if i < lines.len() - 1 || j < lines[i].len() {
            assert(after[i][j] == lines[i][j]);
        }
    }
}

proof fn lemma_put_pieces_is_clean(
    lines: Seq<Seq<Segment>>,
    pieces: Seq<Seq<char>>,
    info: Option<Json>,
)
    requires
        lines.len() > 0,
        all_clean(lines),
        forall|i: int| 0 <= i < pieces.len() ==> !(#[trigger] pieces[i]).contains('\n'),
    ensures
        put_pieces(lines, pieces, info).len() > 0,
        all_clean(put_pieces(lines, pieces, info)),
    decreases pieces.len(),
{
    if pieces.len() == 1 {
        lemma_put_is_clean(lines, pieces[0], info);
    } else if pieces.len() > 1 {
        let fewer = pieces.drop_last();
        assert forall|i: int| 0 <= i < fewer.len() implies !(#[trigger] fewer[i]).contains('\n') by {
            assert(fewer[i] == pieces[i]);
        }
        lemma_put_pieces_is_clean(lines, fewer, info);
        let before = put_pieces(lines, fewer, info);
        let opened = before.push(Seq::empty());
        assert forall|i: int, j: int|
            0 <= i < opened.len() && 0 <= j < opened[i].len() implies is_clean(
            #[trigger] opened[i][j],
        ) by {
            assert(opened[i][j] == before[i][j]);
        }
        assert(!pieces[pieces.len() - 1].contains('\n'));
        lemma_put_is_clean(opened, pieces.last(), info);
    }
}

/// In the lines that the segments make, each character refers to what it referred to.
pub proof fn law_lines_keep_the_marks(line: Seq<Segment>)
    ensures
        line_marks(break_lines(line)) == marks(line),
    decreases line.len(),
{
    if line.len() == 0 {
        let lines = break_lines(line);
        assert(lines.drop_last() =~= Seq::empty());
        assert(line_marks(lines.drop_last()) =~= Seq::empty());
        assert(marks(lines.last()) =~= Seq::empty());
        assert(line_marks(lines) =~= Seq::empty());
    } else {
        law_lines_keep_the_marks(line.drop_last());
        law_lines_keep_the_text(line.drop_last());
        lemma_split_is_not_empty(line.last().text, '\n');
        lemma_put_pieces_marks(
            break_lines(line.drop_last()),
            split(line.last().text, '\n'),
            line.last().info,
        );
        lemma_split_marks(line.last().text, line.last().info);
    }
}

/// The characters of the pieces, each with what it refers to.
spec fn piece_marks(pieces: Seq<Seq<char>>, info: Option<Json>) -> Seq<(char, Option<Json>)>
    decreases pieces.len(),
{
    if pieces.len() == 0 {
        Seq::empty()
    } else {
        piece_marks(pieces.drop_last(), info) + text_marks(pieces.last(), info)
    }
}

proof fn lemma_put_marks(lines: Seq<Seq<Segment>>, text: Seq<char>, info: Option<Json>)
    requires
        lines.len() > 0,
    ensures
        line_marks(put(lines, text, info)) == line_marks(lines) + text_marks(text, info),
{
    let after = put(lines, text, info);
    if text.len() == 0 {
        assert(line_marks(lines) + text_marks(text, info) =~= line_marks(lines));
    } else {
        let longer = lines.last().push(Segment { text, info });
        assert(longer.drop_last() =~= lines.last());
        assert(after.drop_last() =~= lines.drop_last());
        assert(line_marks(after) =~= line_marks(lines) + text_marks(text, info));
    }
}

proof fn lemma_put_pieces_marks(
    lines: Seq<Seq<Segment>>,
    pieces: Seq<Seq<char>>,
    info: Option<Json>,
)
    requires
        lines.len() > 0,
    ensures
        put_pieces(lines, pieces, info).len() > 0,
        line_marks(put_pieces(lines, pieces, info)) == line_marks(lines) + piece_marks(pieces, info),
    decreases pieces.len(),
{
    if pieces.len() == 0 {
        assert(line_marks(lines) + piece_marks(pieces, info) =~= line_marks(lines));
    } else if pieces.len() == 1 {
        lemma_put_marks(lines, pieces[0], info);
        assert(pieces.drop_last() =~= Seq::empty());
        assert(piece_marks(pieces.drop_last(), info) =~= Seq::empty());
        assert(piece_marks(pieces, info) =~= text_marks(pieces[0], info));
    } else {
        lemma_put_pieces_marks(lines, pieces.drop_last(), info);
        let before = put_pieces(lines, pieces.drop_last(), info);
        let opened = before.push(Seq::empty());
        assert(opened.drop_last() =~= before);
        assert(line_marks(opened) =~= line_marks(before));
        lemma_put_marks(opened, pieces.last(), info);
        assert(line_marks(put_pieces(lines, pieces, info)) =~= line_marks(lines) + piece_marks(
            pieces,
            info,
        ));
    }
}

proof fn lemma_split_marks(text: Seq<char>, info: Option<Json>)
    ensures
        piece_marks(split(text, '\n'), info) == text_marks(text, info),
    decreases text.len(),
{
    let pieces = split(text, '\n');
    if text.len() == 0 {
        assert(pieces.drop_last() =~= Seq::empty());
        assert(piece_marks(pieces.drop_last(), info) =~= Seq::empty());
        assert(piece_marks(pieces, info) =~= text_marks(text, info));
    } else {
        let before = split(text.drop_last(), '\n');
        lemma_split_marks(text.drop_last(), info);
        lemma_split_is_not_empty(text.drop_last(), '\n');
        if text.last() == '\n' {
            assert(pieces.drop_last() =~= before);
            assert(piece_marks(pieces, info) =~= piece_marks(before, info));
        } else {
            assert(pieces.drop_last() =~= before.drop_last());
            let longer = before.last().push(text.last());
            assert(longer.drop_last() =~= before.last());
            assert(piece_marks(pieces, info) =~= piece_marks(before, info).push(
                (text.last(), info),
            ));
        }
    }
}

/// What surrounds a tagged text does not change its characters, only what they refer to.
pub proof fn law_tags_do_not_change_the_text(tagged: Json, first: Option<Json>, second: Option<Json>)
    ensures
        text_of(flatten(tagged, first)) == text_of(flatten(tagged, second)),
    decreases tagged,
{
    match tagged {
        Json::Text(text) => {
            lemma_text_of_one(Segment { text, info: first });
            lemma_text_of_one(Segment { text, info: second });
        },
        Json::Array(items) => {
            lemma_all_keep_text(items, first, second);
        },
        Json::Object(members) => {
            lemma_member_at(members, "tag"@);
            lemma_member_at(members, "append"@);
            lemma_own_text(tagged, first, second);
            match member_at(members, "tag"@) {
                Some(i) => {
                    let one = tag_info(members[i].1, first);
                    let other = tag_info(members[i].1, second);
                    lemma_own_text(tagged, one, other);
                    match members[i].1 {
                        Json::Array(items) if items.len() > 1 => {
                            law_tags_do_not_change_the_text(items[1], one, other);
                        },
                        _ => {
                            match member_at(members, "append"@) {
                                Some(k) if members[k].1 is Array => {
                                    lemma_all_keep_text(members[k].1->Array_0, one, other);
                                },
                                _ => {},
                            }
                        },
                    }
                },
                None => {
                    match member_at(members, "append"@) {
                        Some(k) if members[k].1 is Array => {
                            lemma_all_keep_text(members[k].1->Array_0, first, second);
                        },
                        _ => {},
                    }
                },
            }
        },
        _ => {},
    }
}

proof fn lemma_all_keep_text(items: Seq<Json>, first: Option<Json>, second: Option<Json>)
    ensures
        text_of(flatten_all(items, first)) == text_of(flatten_all(items, second)),
    decreases items,
{
    if items.len() > 0 {
        lemma_all_keep_text(items.drop_last(), first, second);
        law_tags_do_not_change_the_text(items.last(), first, second);
        lemma_text_of_both(
            flatten_all(items.drop_last(), first),
            flatten(items.last(), first),
        );
        lemma_text_of_both(
            flatten_all(items.drop_last(), second),
            flatten(items.last(), second),
        );
    }
}

proof fn lemma_own_text(tagged: Json, first: Option<Json>, second: Option<Json>)
    ensures
        text_of(own_text(tagged, first)) == text_of(own_text(tagged, second)),
{
    if let Some(Json::Text(text)) = tagged.get("text"@) {
        lemma_text_of_one(Segment { text, info: first });
        lemma_text_of_one(Segment { text, info: second });
    }
}

/// The text of one segment is its own.
pub proof fn lemma_text_of_one(segment: Segment)
    ensures
        text_of(seq![segment]) == segment.text,
{
    assert(seq![segment].drop_last() =~= Seq::empty());
    assert(text_of(seq![segment].drop_last()) =~= Seq::empty());
    assert(text_of(seq![segment]) =~= segment.text);
}

/// The text of segments in a row is that of the first ones, then that of the others.
pub proof fn lemma_text_of_both(first: Seq<Segment>, second: Seq<Segment>)
    ensures
        text_of(first + second) == text_of(first) + text_of(second),
    decreases second.len(),
{
    if second.len() == 0 {
        assert(first + second =~= first);
        assert(text_of(first) + text_of(second) =~= text_of(first));
    } else {
        lemma_text_of_both(first, second.drop_last());
        assert((first + second).drop_last() =~= first + second.drop_last());
        assert(text_of(first + second) =~= text_of(first) + text_of(second));
    }
}

/// The text of segments is that of each, one after the other.
pub proof fn law_text_is_that_of_each(first: Seq<Segment>, second: Seq<Segment>, one: Segment)
    ensures
        text_of(first + second) == text_of(first) + text_of(second),
        text_of(seq![one]) == one.text,
        text_of(Seq::empty()) == Seq::<char>::empty(),
{
    lemma_text_of_both(first, second);
    lemma_text_of_one(one);
}

/// The marks of segments are those of each character but the line feeds, in order, each with what its
/// segment refers to.
pub proof fn law_marks_are_those_of_each(
    first: Seq<Segment>,
    second: Seq<Segment>,
    text: Seq<char>,
    c: char,
    info: Option<Json>,
)
    ensures
        marks(first + second) == marks(first) + marks(second),
        marks(seq![Segment { text: text.push(c), info }]) == marks(seq![Segment { text, info }])
            + if c == '\n' {
            Seq::empty()
        } else {
            seq![(c, info)]
        },
        marks(seq![Segment { text: Seq::empty(), info }]) == Seq::<(char, Option<Json>)>::empty(),
        marks(Seq::empty()) == Seq::<(char, Option<Json>)>::empty(),
    decreases second.len(),
{
    let shorter = seq![Segment { text, info }];
    let longer = seq![Segment { text: text.push(c), info }];
    let nothing = seq![Segment { text: Seq::empty(), info }];
    assert(shorter.drop_last() =~= Seq::empty());
    assert(longer.drop_last() =~= Seq::empty());
    assert(nothing.drop_last() =~= Seq::empty());
    assert(marks(Seq::empty()) =~= Seq::empty());
    assert(text.push(c).drop_last() =~= text);
    assert(marks(shorter) =~= text_marks(text, info));
    assert(marks(longer) =~= text_marks(text.push(c), info));
    assert(text_marks(Seq::empty(), info) =~= Seq::empty());
    assert(marks(nothing) =~= Seq::empty());
    if second.len() == 0 {
        assert(first + second =~= first);
        assert(marks(first) + marks(second) =~= marks(first));
    } else {
        law_marks_are_those_of_each(first, second.drop_last(), text, c, info);
        assert((first + second).drop_last() =~= first + second.drop_last());
        assert(marks(first + second) =~= marks(first) + marks(second));
    }
}

/// A bare text refers to what surrounds it. A list is shown item after item, each inside the same
/// surroundings. Nothing else that is not an object shows anything.
pub proof fn law_texts_and_lists_are_shown(
    value: Json,
    text: Seq<char>,
    first: Seq<Json>,
    second: Seq<Json>,
    active: Option<Json>,
)
    ensures
        flatten(Json::Text(text), active) == seq![Segment { text, info: active }],
        flatten(Json::Array(first + second), active) == flatten(Json::Array(first), active)
            + flatten(Json::Array(second), active),
        flatten(Json::Array(seq![value]), active) == flatten(value, active),
        flatten(Json::Array(Seq::empty()), active) == Seq::<Segment>::empty(),
        value is Null || value is Bool || value is Number ==> flatten(value, active) == Seq::<
            Segment,
        >::empty(),
{
    lemma_flatten_both(first, second, active);
    assert(flatten_all(Seq::empty(), active) =~= Seq::empty());
    assert(seq![value].drop_last() =~= Seq::empty());
    assert(flatten_all(seq![value], active) =~= flatten(value, active));
}

proof fn lemma_flatten_both(first: Seq<Json>, second: Seq<Json>, active: Option<Json>)
    ensures
        flatten_all(first + second, active) == flatten_all(first, active) + flatten_all(
            second,
            active,
        ),
    decreases second.len(),
{
    if second.len() == 0 {
        assert(first + second =~= first);
        assert(flatten_all(first, active) + flatten_all(second, active) =~= flatten_all(
            first,
            active,
        ));
    } else {
        lemma_flatten_both(first, second.drop_last(), active);
        assert((first + second).drop_last() =~= first + second.drop_last());
        assert(flatten_all(first + second, active) =~= flatten_all(first, active) + flatten_all(
            second,
            active,
        ));
    }
}

/// The innermost tag wins: a text that is tagged together with a value is shown as referring to that
/// value, whatever surrounds it.
pub proof fn law_innermost_tag_wins(tagged: Json, items: Seq<Json>, active: Option<Json>)
    requires
        tagged.get("tag"@) == Some(Json::Array(items)),
        items.len() > 1,
    ensures
        flatten(tagged, active) == flatten(items[1], Some(items[0])),
{
    if let Json::Object(members) = tagged {
        lemma_member_at(members, "tag"@);
        lemma_member_at(members, "append"@);
    }
}

/// What stands beside a tag is shown as referring to what the tag holds: the first item of a list, the
/// member `info` of an object, or a bare value itself. An object without `info` refers to what
/// surrounds it, or else to itself; a null and an empty list to what surrounds them. The member
/// `append` goes before the member `text`.
pub proof fn law_tag_says_what_its_text_refers_to(tagged: Json, tag: Json, active: Option<Json>)
    requires
        tagged.get("tag"@) == Some(tag),
        tag matches Json::Array(items) ==> items.len() <= 1,
    ensures
        ({
            let info = match tag {
                Json::Array(items) => if items.len() == 1 {
                    Some(items[0])
                } else {
                    active
                },
                Json::Object(_) => if tag.get("info"@) is Some {
                    tag.get("info"@)
                } else if active is Some {
                    active
                } else {
                    Some(tag)
                },
                Json::Null => active,
                _ => Some(tag),
            };
            flatten(tagged, active) == match (tagged.get("append"@), tagged.get("text"@)) {
                (Some(Json::Array(items)), _) => flatten(Json::Array(items), info),
                (_, Some(Json::Text(text))) => seq![Segment { text, info }],
                _ => Seq::empty(),
            }
        }),
{
    if let Json::Object(members) = tagged {
        lemma_member_at(members, "tag"@);
        lemma_member_at(members, "append"@);
    }
}

/// An object without a tag shows its member `text`, or else its member `append`, inside the same
/// surroundings.
pub proof fn law_untagged_text_refers_to_what_surrounds_it(tagged: Json, active: Option<Json>)
    requires
        tagged is Object,
        tagged.get("tag"@) is None,
    ensures
        flatten(tagged, active) == match (tagged.get("text"@), tagged.get("append"@)) {
            (Some(Json::Text(text)), _) => seq![Segment { text, info: active }],
            (_, Some(Json::Array(items))) => flatten(Json::Array(items), active),
            _ => Seq::empty(),
        },
{
    if let Json::Object(members) = tagged {
        lemma_member_at(members, "tag"@);
        lemma_member_at(members, "append"@);
    }
}

/// A tagged text is visible where its characters are, whatever they refer to.
pub proof fn law_tagged_text_is_as_visible_as_its_text(tagged: Json, active: Option<Json>)
    ensures
        tagged_is_visible(tagged) <==> is_visible(text_of(flatten(tagged, active))),
{
    law_tags_do_not_change_the_text(tagged, None, active);
}

/// Segments without a line feed, none of them empty, are one line as they stand.
pub proof fn law_clean_segments_are_one_line(line: Seq<Segment>)
    requires
        forall|i: int|
            0 <= i < line.len() ==> (#[trigger] line[i]).text.len() > 0
                && !line[i].text.contains('\n'),
    ensures
        break_lines(line) == seq![line],
    decreases line.len(),
{
    if line.len() == 0 {
        assert(line =~= Seq::empty());
    } else {
        let before = line.drop_last();
        assert forall|i: int| 0 <= i < before.len() implies (#[trigger] before[i]).text.len() > 0
            && !before[i].text.contains('\n') by {
            assert(before[i] == line[i]);
        }
        law_clean_segments_are_one_line(before);
        let last = line[line.len() - 1];
        law_split_at_the_first(last.text, '\n', Seq::empty());
        assert(before.push(last) =~= line);
        assert(break_lines(line) =~= seq![line]);
    }
}

/// A line feed ends a line: what stands before it makes the lines up to there, and what stands behind
/// it those that follow.
pub proof fn law_line_feed_ends_a_line(before: Seq<Segment>, info: Option<Json>, after: Seq<Segment>)
    ensures
        break_lines(before + seq![Segment { text: seq!['\n'], info }] + after) == break_lines(before)
            + break_lines(after),
    decreases after.len(),
{
    let feed = Segment { text: seq!['\n'], info };
    let whole = before + seq![feed] + after;
    law_lines_keep_the_text(before);
    if after.len() == 0 {
        assert(whole.drop_last() =~= before);
        assert(seq!['\n'].drop_last() =~= Seq::empty());
        assert(split(Seq::empty(), '\n') =~= seq![Seq::empty()]);
        assert(split(seq!['\n'], '\n') =~= seq![Seq::empty(), Seq::empty()]);
        let pieces = split(seq!['\n'], '\n');
        assert(pieces.drop_last() =~= seq![Seq::empty()]);
        assert(put_pieces(break_lines(before), pieces.drop_last(), info) == break_lines(before));
        assert(break_lines(whole) =~= break_lines(before) + break_lines(after));
    } else {
        law_line_feed_ends_a_line(before, info, after.drop_last());
        assert(whole.drop_last() =~= before + seq![feed] + after.drop_last());
        law_lines_keep_the_text(after.drop_last());
        lemma_put_pieces_behind(
            break_lines(before),
            break_lines(after.drop_last()),
            split(after.last().text, '\n'),
            after.last().info,
        );
    }
}

proof fn lemma_put_pieces_behind(
    first: Seq<Seq<Segment>>,
    lines: Seq<Seq<Segment>>,
    pieces: Seq<Seq<char>>,
    info: Option<Json>,
)
    requires
        lines.len() > 0,
    ensures
        put_pieces(lines, pieces, info).len() > 0,
        put_pieces(first + lines, pieces, info) == first + put_pieces(lines, pieces, info),
    decreases pieces.len(),
{
    if pieces.len() == 1 {
        assert(put(first + lines, pieces[0], info) =~= first + put(lines, pieces[0], info));
    } else if pieces.len() > 1 {
        lemma_put_pieces_behind(first, lines, pieces.drop_last(), info);
        let opened = put_pieces(lines, pieces.drop_last(), info).push(Seq::empty());
        let other = put_pieces(first + lines, pieces.drop_last(), info).push(Seq::empty());
        assert(other =~= first + opened);
        assert(put(other, pieces.last(), info) =~= first + put(opened, pieces.last(), info));
    }
}

/// A segment that a line feed breaks is as good as three: what stands before it, the line feed, and
/// what stands behind it. An empty segment is as good as none.
pub proof fn law_segment_may_be_cut(
    before: Seq<Segment>,
    first: Seq<char>,
    second: Seq<char>,
    info: Option<Json>,
    after: Seq<Segment>,
)
    requires
        !first.contains('\n'),
    ensures
        break_lines(
            before + seq![Segment { text: first + seq!['\n'] + second, info }] + after,
        ) == break_lines(before + seq![Segment { text: first, info }]) + break_lines(
            seq![Segment { text: second, info }] + after,
        ),
        break_lines(before + seq![Segment { text: Seq::empty(), info }]) == break_lines(before),
    decreases after.len(),
{
    let uncut = Segment { text: first + seq!['\n'] + second, info };
    let head = before + seq![Segment { text: first, info }];
    let tail = seq![Segment { text: second, info }] + after;
    let whole = before + seq![uncut] + after;
    let nothing = before + seq![Segment { text: Seq::empty(), info }];
    law_lines_keep_the_text(before);
    law_lines_keep_the_text(head);
    law_split_at_the_first(Seq::empty(), '\n', Seq::empty());
    assert(nothing.drop_last() =~= before);
    if after.len() == 0 {
        law_split_at_the_first(first, '\n', second);
        assert(whole.drop_last() =~= before);
        assert(head.drop_last() =~= before);
        assert(tail.drop_last() =~= Seq::empty());
        assert(break_lines(tail.drop_last()) =~= seq![Seq::empty()]);
        lemma_split_is_not_empty(second, '\n');
        lemma_put_more_pieces(break_lines(before), first, split(second, '\n'), info);
        lemma_put_pieces_behind(
            break_lines(head),
            seq![Seq::empty()],
            split(second, '\n'),
            info,
        );
        assert(break_lines(head) + seq![Seq::empty()] =~= break_lines(head).push(Seq::empty()));
    } else {
        law_segment_may_be_cut(before, first, second, info, after.drop_last());
        assert(whole.drop_last() =~= before + seq![uncut] + after.drop_last());
        assert(tail.drop_last() =~= seq![Segment { text: second, info }] + after.drop_last());
        law_lines_keep_the_text(tail.drop_last());
        lemma_put_pieces_behind(
            break_lines(head),
            break_lines(tail.drop_last()),
            split(after.last().text, '\n'),
            after.last().info,
        );
    }
}

proof fn lemma_put_more_pieces(
    lines: Seq<Seq<Segment>>,
    first: Seq<char>,
    pieces: Seq<Seq<char>>,
    info: Option<Json>,
)
    requires
        lines.len() > 0,
        pieces.len() > 0,
    ensures
        put_pieces(lines, seq![first] + pieces, info) == put_pieces(
            put(lines, first, info).push(Seq::empty()),
            pieces,
            info,
        ),
    decreases pieces.len(),
{
    let all = seq![first] + pieces;
    assert(all.drop_last() =~= seq![first] + pieces.drop_last());
    if pieces.len() == 1 {
        assert(all.drop_last() =~= seq![first]);
        assert(put_pieces(lines, seq![first], info) == put(lines, first, info));
        assert(all.last() == pieces[0]);
    } else {
        lemma_put_more_pieces(lines, first, pieces.drop_last(), info);
    }
}

/// Rendered lines stand for their segments, each with its text and what it refers to.
pub proof fn law_lines_are_their_segments(lines: Seq<RenderedLine>)
    ensures
        rendered(lines).len() == lines.len(),
        forall|i: int|
            0 <= i < lines.len() ==> (#[trigger] rendered(lines)[i]) == segments(lines[i]@)
                && rendered(lines)[i].len() == lines[i]@.len(),
        forall|i: int, j: int|
            0 <= i < lines.len() && 0 <= j < lines[i]@.len() ==> (
            #[trigger] rendered(lines)[i][j]).text == lines[i]@[j].text@ && rendered(lines)[i][j].info
                == match lines[i]@[j].info {
                Some(info) => Some(info@),
                None => None,
            },
{
}

} // verus!
