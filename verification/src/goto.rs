//! From a place in the infoview to the places that the value shown there refers to.
use vstd::prelude::*;
use crate::buffer::{
    law_lines_hold_their_segments, law_separator_keeps_what_is_there, lemma_start_of_start, spans_of,
    Buffer, InfoSpan, Span,
};
use crate::editor::{is_doc, DocumentId, Editor, LanguageServerId, Pane, SourceContext, ViewId};
use crate::json::{lemma_member_at, lemma_members_of, members_of, Json, Member, Value};
use crate::payload::{goals_section, law_shown_spans_are_in_order, shows_term, term_section, Shown};
use crate::protocol::{Location, Range, TextDocumentIdentifier};
use crate::rpc::{serves, Call, RpcCallParams};
use crate::segments::Segment;
use crate::state::{first_of, is_infoview_doc, Infoview, Refreshed, RpcSession, State};
use crate::views::viewed;

verus! {

/// A cursor, and the line that it stands in, as characters of the text.
#[derive(Clone, Copy, Debug, PartialEq, Eq, Structural)]
pub struct CursorLine {
    pub cursor: usize,
    pub line_start: usize,
    pub line_end: usize,
}

impl CursorLine {
    /// Whether some of the span lies in the line.
    pub open spec fn meets(self, span: Span) -> bool {
        span.end > self.line_start && span.start < self.line_end
    }

    /// Whether the cursor stands in the span.
    pub open spec fn hits(self, span: Span) -> bool {
        self.meets(span) && span.start <= self.cursor < span.end
    }

    /// Whether the span lies before the cursor.
    pub open spec fn follows(self, span: Span) -> bool {
        self.meets(span) && span.end <= self.cursor
    }

    /// The first span that the cursor stands in.
    pub open spec fn first_hit(self, spans: Seq<Span>) -> Option<Span>
        decreases spans.len(),
    {
        if spans.len() == 0 {
            None
        } else if self.hits(spans[0]) {
            Some(spans[0])
        } else {
            self.first_hit(spans.drop_first())
        }
    }

    /// The last span of the line before the cursor.
    pub open spec fn last_followed(self, spans: Seq<Span>) -> Option<Span>
        decreases spans.len(),
    {
        if spans.len() == 0 {
            None
        } else if self.follows(spans.last()) {
            Some(spans.last())
        } else {
            self.last_followed(spans.drop_last())
        }
    }

    /// What the cursor stands on: the first span around it, or else the last of the line before it.
    pub open spec fn info(self, spans: Seq<Span>) -> Option<Json> {
        match first_of(self.first_hit(spans), self.last_followed(spans)) {
            Some(span) => Some(span.info),
            None => None,
        }
    }
}

/// Where line `line` of `lines` ends: where the next one starts, or else where the text ends, which
/// has `len` characters.
pub fn line_end(line: usize, lines: usize, next_start: usize, len: usize) -> (end: usize)
    ensures
        end == if line + 1 < lines {
            next_start
        } else {
            len
        },
{
    if lines > 0 && line < lines - 1 {
        next_start
    } else {
        len
    }
}

/// What the cursor stands on.
pub fn lookup_info_at_cursor(spans: &Vec<InfoSpan>, at: CursorLine) -> (info: Option<Value>)
    ensures
        viewed(info) == at.info(spans_of(spans@)),
{
    let ghost all = spans_of(spans@);
    let mut last: Option<&InfoSpan> = None;
    let mut i: usize = 0;
    assert(all.skip(0) =~= all);
    assert(all.take(0) =~= Seq::empty());
    while i < spans.len()
        invariant
            i <= spans@.len(),
            all == spans_of(spans@),
            at.first_hit(all) == at.first_hit(all.skip(i as int)),
            viewed(last) == at.last_followed(all.take(i as int)),
        decreases spans@.len() - i,
    {
        let span = &spans[i];
        assert(all.skip(i as int).drop_first() =~= all.skip(i + 1));
        assert(all.take(i + 1).drop_last() =~= all.take(i as int));
        assert(all[i as int] == span@);
        if span.end > at.line_start && span.start < at.line_end {
            if at.cursor >= span.start && at.cursor < span.end {
                return Some(span.info.clone());
            }
            if span.end <= at.cursor {
                last = Some(span);
            }
        }
        i += 1;
    }
    assert(all.take(spans@.len() as int) =~= all);
    match last {
        Some(span) => Some(span.info.clone()),
        None => None,
    }
}

/// Whether the candidate shows another document than the infoview.
pub open spec fn shows_other(candidate: (ViewId, DocumentId), infoview_doc: Option<DocumentId>) -> bool {
    Some(candidate.1) != infoview_doc
}

/// The first candidate that shows another document than the infoview.
pub open spec fn first_other(
    candidates: Seq<(ViewId, DocumentId)>,
    infoview_doc: Option<DocumentId>,
) -> Option<ViewId>
    decreases candidates.len(),
{
    if candidates.len() == 0 {
        None
    } else if shows_other(candidates[0], infoview_doc) {
        Some(candidates[0].0)
    } else {
        first_other(candidates.drop_first(), infoview_doc)
    }
}

/// Whether `view` is a candidate that shows another document than the infoview.
pub open spec fn is_other(
    candidates: Seq<(ViewId, DocumentId)>,
    infoview_doc: Option<DocumentId>,
    view: ViewId,
) -> bool {
    exists|i: int|
        0 <= i < candidates.len() && (#[trigger] candidates[i]).0 == view && shows_other(
            candidates[i],
            infoview_doc,
        )
}

/// The view to show a place in: the preferred one, or else the first; never the infoview.
pub open spec fn target_view(
    preferred: Option<ViewId>,
    infoview_doc: Option<DocumentId>,
    candidates: Seq<(ViewId, DocumentId)>,
) -> Option<ViewId> {
    if preferred matches Some(view) && is_other(candidates, infoview_doc, view) {
        preferred
    } else {
        first_other(candidates, infoview_doc)
    }
}

/// The views as candidates.
pub open spec fn candidates_of(panes: Seq<Pane>) -> Seq<(ViewId, DocumentId)> {
    panes.map_values(|pane: Pane| (pane.id, pane.doc))
}

/// The view to show a place in.
pub fn choose_target_view(
    preferred: Option<ViewId>,
    infoview_doc: Option<DocumentId>,
    candidates: &[(ViewId, DocumentId)],
) -> (target: Option<ViewId>)
    ensures
        target == target_view(preferred, infoview_doc, candidates@),
{
    if let Some(view_id) = preferred {
        let mut i: usize = 0;
        while i < candidates.len()
            invariant
                i <= candidates@.len(),
                preferred == Some(view_id),
                forall|k: int|
                    0 <= k < i ==> !((#[trigger] candidates@[k]).0 == view_id && shows_other(
                        candidates@[k],
                        infoview_doc,
                    )),
            decreases candidates@.len() - i,
        {
            let candidate = candidates[i];
            if candidate.0 == view_id && !is_doc(infoview_doc, candidate.1) {
                assert(candidates@[i as int] == candidate);
                assert(is_other(candidates@, infoview_doc, view_id));
                return Some(view_id);
            }
            i += 1;
        }
        assert(!is_other(candidates@, infoview_doc, view_id));
    }
    let mut i: usize = 0;
    assert(candidates@.skip(0) =~= candidates@);
    while i < candidates.len()
        invariant
            i <= candidates@.len(),
            target_view(preferred, infoview_doc, candidates@) == first_other(
                candidates@,
                infoview_doc,
            ),
            first_other(candidates@, infoview_doc) == first_other(
                candidates@.skip(i as int),
                infoview_doc,
            ),
        decreases candidates@.len() - i,
    {
        let candidate = candidates[i];
        assert(candidates@.skip(i as int).drop_first() =~= candidates@.skip(i + 1));
        if !is_doc(infoview_doc, candidate.1) {
            return Some(candidate.0);
        }
        i += 1;
    }
    None
}

/// The view to show a place in.
pub fn goto_target_view(editor: &Editor, state: &State, preferred: Option<ViewId>) -> (target: Option<
    ViewId,
>)
    ensures
        target == target_view(preferred, state.infoview_doc, candidates_of(editor.panes@)),
{
    let mut candidates: Vec<(ViewId, DocumentId)> = Vec::new();
    let mut i: usize = 0;
    while i < editor.panes.len()
        invariant
            i <= editor.panes@.len(),
            candidates@ == candidates_of(editor.panes@).take(i as int),
        decreases editor.panes@.len() - i,
    {
        let pane = editor.panes[i];
        candidates.push((pane.id, pane.doc));
        assert(candidates@ =~= candidates_of(editor.panes@).take(i + 1));
        i += 1;
    }
    assert(candidates@ =~= candidates_of(editor.panes@));
    choose_target_view(preferred, state.infoview_doc, candidates.as_slice())
}

/// The value that a tag refers to: its member `info`, where it has one.
pub open spec fn unwrapped(info: Json) -> Json {
    match info.get("info"@) {
        Some(inner) => inner,
        None => info,
    }
}

/// The value that a tag refers to.
pub fn unwrap_goto_info(info: Value) -> (inner: Value)
    ensures
        inner@ == unwrapped(info@),
{
    match info.get("info") {
        Some(inner) => inner.clone(),
        None => info,
    }
}

/// A place as the server links to it.
#[derive(Debug, PartialEq, Eq)]
pub struct LeanGotoLocation {
    pub target_uri: Option<String>,
    pub uri: Option<String>,
    pub target_selection_range: Option<Range>,
    pub target_range: Option<Range>,
    pub range: Option<Range>,
}

impl Default for LeanGotoLocation {
    /// A link to nowhere.
    fn default() -> (link: Self)
        ensures
            link == (LeanGotoLocation {
                target_uri: None,
                uri: None,
                target_selection_range: None,
                target_range: None,
                range: None,
            }),
    {
        LeanGotoLocation {
            target_uri: None,
            uri: None,
            target_selection_range: None,
            target_range: None,
            range: None,
        }
    }
}

impl LeanGotoLocation {
    /// The place that is linked to, if the link names a document and a range.
    pub open spec fn location(self) -> Option<Location> {
        match (
            first_of(self.target_uri, self.uri),
            first_of(self.target_selection_range, first_of(self.target_range, self.range)),
        ) {
            (Some(uri), Some(range)) => Some(Location { uri, range }),
            _ => None,
        }
    }

    /// The place that is linked to, if the link names a document and a range.
    pub fn to_location(&self) -> (location: Option<Location>)
        ensures
            location == self.location(),
    {
        let uri = match (&self.target_uri, &self.uri) {
            (Some(uri), _) => uri.clone(),
            (None, Some(uri)) => uri.clone(),
            (None, None) => {
                return None;
            },
        };
        let range = match (self.target_selection_range, self.target_range, self.range) {
            (Some(range), _, _) => range,
            (None, Some(range), _) => range,
            (None, None, Some(range)) => range,
            (None, None, None) => {
                return None;
            },
        };
        Some(Location { uri, range })
    }
}

/// The places that are linked to.
pub open spec fn locations_of(links: Seq<LeanGotoLocation>) -> Seq<Location>
    decreases links.len(),
{
    if links.len() == 0 {
        Seq::empty()
    } else {
        let before = locations_of(links.drop_last());
        match links.last().location() {
            Some(location) => before.push(location),
            None => before,
        }
    }
}

/// What the server's reply comes to.
#[derive(Debug, PartialEq, Eq)]
pub enum GotoReply {
    /// An error to show.
    Failed(String),
    /// Places to show, after focusing a view.
    Show { focus: Option<ViewId>, locations: Vec<Location> },
}

/// What the links of the server's reply come to.
pub fn goto_locations(links: &Vec<LeanGotoLocation>, target_view: Option<ViewId>) -> (reply: GotoReply)
    ensures
        match reply {
            GotoReply::Failed(message) => locations_of(links@).len() == 0 && message@
                == "No Lean locations found."@,
            GotoReply::Show { focus, locations } => locations@.len() > 0 && locations@
                == locations_of(links@) && focus == target_view,
        },
{
    let mut locations: Vec<Location> = Vec::new();
    let mut i: usize = 0;
    while i < links.len()
        invariant
            i <= links@.len(),
            locations@ == locations_of(links@.take(i as int)),
        decreases links@.len() - i,
    {
        assert(links@.take(i + 1).drop_last() =~= links@.take(i as int));
        if let Some(location) = links[i].to_location() {
            locations.push(location);
        }
        i += 1;
    }
    assert(links@.take(links@.len() as int) =~= links@);
    if locations.is_empty() {
        GotoReply::Failed("No Lean locations found.".to_string())
    } else {
        GotoReply::Show { focus: target_view, locations }
    }
}

/// What a goto in the infoview comes to.
#[derive(Debug, PartialEq, Eq)]
pub enum GotoStart {
    /// The infoview is not focused.
    NotHandled,
    /// An error to show.
    Failed(String),
    /// A call for the server.
    Request { server_id: LanguageServerId, call: RpcCallParams, target_view: Option<ViewId> },
}

/// The mathematical value of a [`GotoStart`].
pub enum Goto {
    NotHandled,
    Failed(Seq<char>),
    Request { server_id: LanguageServerId, call: Call, target_view: Option<ViewId> },
}

impl View for GotoStart {
    type V = Goto;

    open spec fn view(&self) -> Goto {
        match *self {
            GotoStart::NotHandled => Goto::NotHandled,
            GotoStart::Failed(message) => Goto::Failed(message@),
            GotoStart::Request { server_id, call, target_view } => Goto::Request {
                server_id,
                call: call@,
                target_view,
            },
        }
    }
}

/// What the server is asked for: the places of the given kind that `info` refers to.
pub open spec fn goto_params(kind: Seq<char>, info: Json) -> Json {
    Json::Object(seq![("info"@, unwrapped(info)), ("kind"@, Json::Text(kind))])
}

impl Infoview {
    /// What a goto of the given kind comes to, with the cursor `at` in the infoview.
    pub open spec fn goto(self, editor: Editor, kind: Seq<char>, at: CursorLine) -> Goto {
        if !self.is_focused(editor) {
            Goto::NotHandled
        } else {
            match (
                at.info(self.spans),
                self.last_source_server,
                self.last_source_uri,
                self.last_source_position,
                self.rpc_session,
            ) {
                (None, _, _, _, _) => Goto::Failed("No Lean info at cursor."@),
                (Some(info), Some(server_id), Some(uri), Some(position), Some(session)) => {
                    if session.uri@ != uri@ || session.server_id != server_id {
                        Goto::Failed("Lean infoview session is stale; refresh first."@)
                    } else if !editor.runs(server_id) {
                        Goto::Failed("Lean language server is not available."@)
                    } else {
                        Goto::Request {
                            server_id,
                            call: Call {
                                uri: uri@,
                                position,
                                session_id: session.session_id@,
                                method: "Lean.Widget.getGoToLocation"@,
                                params: goto_params(kind, info),
                            },
                            target_view: target_view(
                                self.last_source_view,
                                self.infoview_doc,
                                candidates_of(editor.panes@),
                            ),
                        }
                    }
                },
                _ => Goto::Failed("Lean infoview is not ready yet."@),
            }
        }
    }
}

/// What a goto of the given kind comes to.
pub fn goto_from_infoview(editor: &Editor, state: &mut State, kind: &str, at: CursorLine) -> (start:
    GotoStart)
    requires
        old(state)@.fits(*editor),
    ensures
        final(state)@ == old(state)@.synced(*editor),
        start@ == final(state)@.goto(*editor, kind@, at),
{
    if !is_infoview_doc(editor, state) {
        return GotoStart::NotHandled;
    }
    let info = match lookup_info_at_cursor(&state.spans, at) {
        Some(info) => info,
        None => {
            return GotoStart::Failed("No Lean info at cursor.".to_string());
        },
    };
    match (
        state.last_source_server,
        &state.last_source_uri,
        state.last_source_position,
        &state.rpc_session,
    ) {
        (Some(server_id), Some(uri), Some(position), Some(session)) => {
            if session.uri != *uri || session.server_id != server_id {
                return GotoStart::Failed(
                    "Lean infoview session is stale; refresh first.".to_string(),
                );
            }
            if !editor.is_running(server_id) {
                return GotoStart::Failed("Lean language server is not available.".to_string());
            }
            let target_view = goto_target_view(editor, state, state.last_source_view);
            let mut members: Vec<Member> = Vec::new();
            members.push(Member { key: "info".to_string(), value: unwrap_goto_info(info) });
            members.push(Member { key: "kind".to_string(), value: Value::Text(kind.to_string()) });
            let call = RpcCallParams {
                text_document: TextDocumentIdentifier::new(uri.clone()),
                position,
                session_id: session.session_id.clone(),
                method: "Lean.Widget.getGoToLocation".to_string(),
                params: Value::Object(members),
            };
            proof {
                lemma_members_of(members@);
                assert(call.params@ == goto_params(kind@, info@)) by {
                    assert(members_of(members@) =~= goto_params(kind@, info@)->Object_0);
                }
            }
            GotoStart::Request { server_id, call, target_view }
        },
        _ => GotoStart::Failed("Lean infoview is not ready yet.".to_string()),
    }
}

/// Where the spans are in order, a cursor in one of them is on what that one refers to.
pub proof fn law_cursor_finds_its_span(buffer: Buffer, at: CursorLine, i: int)
    requires
        buffer.in_order(),
        0 <= i < buffer.spans.len(),
        buffer.spans[i].start <= at.cursor < buffer.spans[i].end,
        at.line_start <= at.cursor < at.line_end,
    ensures
        at.info(buffer.spans) == Some(buffer.spans[i].info),
{
    assert(at.hits(buffer.spans[i]));
    assert forall|k: int| 0 <= k < i implies !at.hits(#[trigger] buffer.spans[k]) by {
        assert(buffer.spans[k].end <= buffer.spans[i].start);
    }
    lemma_first_hit(at, buffer.spans, i);
}

proof fn lemma_first_hit(at: CursorLine, spans: Seq<Span>, i: int)
    requires
        0 <= i < spans.len(),
        at.hits(spans[i]),
        forall|k: int| 0 <= k < i ==> !at.hits(#[trigger] spans[k]),
    ensures
        at.first_hit(spans) == Some(spans[i]),
    decreases spans.len(),
{
    if i > 0 {
        assert(!at.hits(spans[0]));
        let rest = spans.drop_first();
        assert forall|k: int| 0 <= k < i - 1 implies !at.hits(#[trigger] rest[k]) by {
            assert(rest[k] == spans[k + 1]);
        }
        lemma_first_hit(at, rest, i - 1);
    }
}

/// A cursor on a character of a segment that refers to something is on what the segment refers to,
/// whatever was put into the buffer before and after the segment.
pub proof fn law_cursor_finds_its_segment(
    before: Buffer,
    segment: Segment,
    later: Buffer,
    at: CursorLine,
    k: int,
)
    requires
        before.in_order(),
        before.add_segment(segment).is_start_of(later),
        later.in_order(),
        segment.info is Some,
        0 <= k < segment.text.len(),
        at.cursor == before.text.len() + k,
        at.line_start <= at.cursor < at.line_end,
    ensures
        later.text[at.cursor as int] == segment.text[k],
        at.info(later.spans) == segment.info,
{
    let here = before.add_segment(segment);
    assert(here.text[at.cursor as int] == later.text[at.cursor as int]);
    let i = before.spans.len() as int;
    assert(here.spans[i] == later.spans[i]);
    law_cursor_finds_its_span(later, at, i);
}

/// What a cursor is on is what a span of its line refers to that the cursor stands in or behind.
/// It is on nothing only where the line has no such span.
pub proof fn law_info_is_of_the_line(at: CursorLine, spans: Seq<Span>)
    ensures
        match at.info(spans) {
            Some(info) => exists|i: int|
                0 <= i < spans.len() && (#[trigger] spans[i]).info == info && (at.hits(spans[i])
                    || at.follows(spans[i])),
            None => forall|i: int|
                0 <= i < spans.len() ==> !at.hits(#[trigger] spans[i]) && !at.follows(spans[i]),
        },
{
    lemma_first_hit_is_a_span(at, spans);
    lemma_last_followed_is_a_span(at, spans);
}

proof fn lemma_first_hit_is_a_span(at: CursorLine, spans: Seq<Span>)
    ensures
        match at.first_hit(spans) {
            Some(span) => exists|i: int|
                0 <= i < spans.len() && #[trigger] spans[i] == span && at.hits(span),
            None => forall|i: int| 0 <= i < spans.len() ==> !at.hits(#[trigger] spans[i]),
        },
    decreases spans.len(),
{
    if spans.len() > 0 {
        let rest = spans.drop_first();
        lemma_first_hit_is_a_span(at, rest);
        if at.hits(spans[0]) {
            assert(spans[0] == at.first_hit(spans)->0);
        } else if at.first_hit(rest) is Some {
            let i = choose|i: int|
                0 <= i < rest.len() && #[trigger] rest[i] == at.first_hit(rest)->0 && at.hits(
                    rest[i],
                );
            assert(spans[i + 1] == rest[i]);
        } else {
            assert forall|i: int| 0 <= i < spans.len() implies !at.hits(#[trigger] spans[i]) by {
                if i > 0 {
                    assert(!at.hits(rest[i - 1]));
                }
            }
        }
    }
}

proof fn lemma_last_followed_is_a_span(at: CursorLine, spans: Seq<Span>)
    ensures
        match at.last_followed(spans) {
            Some(span) => exists|i: int|
                0 <= i < spans.len() && #[trigger] spans[i] == span && at.follows(span),
            None => forall|i: int| 0 <= i < spans.len() ==> !at.follows(#[trigger] spans[i]),
        },
    decreases spans.len(),
{
    if spans.len() > 0 {
        let rest = spans.drop_last();
        lemma_last_followed_is_a_span(at, rest);
        if at.follows(spans.last()) {
            assert(spans[spans.len() - 1] == at.last_followed(spans)->0);
        } else if at.last_followed(rest) is Some {
            let i = choose|i: int|
                0 <= i < rest.len() && #[trigger] rest[i] == at.last_followed(rest)->0
                    && at.follows(rest[i]);
            assert(spans[i] == rest[i]);
        } else {
            assert forall|i: int| 0 <= i < spans.len() implies !at.follows(#[trigger] spans[i]) by {
                if i < rest.len() {
                    assert(!at.follows(rest[i]));
                }
            }
        }
    }
}

/// The view to show a place in is never one of the infoview, and there is one wherever a view shows
/// another document.
pub proof fn law_target_view_is_not_the_infoview(
    preferred: Option<ViewId>,
    infoview_doc: Option<DocumentId>,
    candidates: Seq<(ViewId, DocumentId)>,
)
    ensures
        match target_view(preferred, infoview_doc, candidates) {
            Some(view) => is_other(candidates, infoview_doc, view),
            None => forall|i: int|
                0 <= i < candidates.len() ==> Some((#[trigger] candidates[i]).1) == infoview_doc,
        },
{
    lemma_first_other(candidates, infoview_doc);
}

proof fn lemma_first_other(candidates: Seq<(ViewId, DocumentId)>, infoview_doc: Option<DocumentId>)
    ensures
        match first_other(candidates, infoview_doc) {
            Some(view) => is_other(candidates, infoview_doc, view),
            None => forall|i: int|
                0 <= i < candidates.len() ==> Some((#[trigger] candidates[i]).1) == infoview_doc,
        },
    decreases candidates.len(),
{
    if candidates.len() > 0 {
        let rest = candidates.drop_first();
        lemma_first_other(rest, infoview_doc);
        if shows_other(candidates[0], infoview_doc) {
            assert(is_other(candidates, infoview_doc, candidates[0].0));
        } else if first_other(rest, infoview_doc) is Some {
            let view = first_other(rest, infoview_doc)->0;
            let i = choose|i: int|
                0 <= i < rest.len() && (#[trigger] rest[i]).0 == view && shows_other(
                    rest[i],
                    infoview_doc,
                );
            assert(candidates[i + 1] == rest[i]);
        } else {
            assert forall|i: int| 0 <= i < candidates.len() implies Some(
                (#[trigger] candidates[i]).1,
            ) == infoview_doc by {
                if i > 0 {
                    assert(Some(rest[i - 1].1) == infoview_doc);
                }
            }
        }
    }
}

/// A preferred view that shows another document than the infoview is taken.
pub proof fn law_preferred_view_is_taken(
    view: ViewId,
    infoview_doc: Option<DocumentId>,
    candidates: Seq<(ViewId, DocumentId)>,
)
    requires
        is_other(candidates, infoview_doc, view),
    ensures
        target_view(Some(view), infoview_doc, candidates) == Some(view),
{
}

/// The server is asked only by a goto in a focused infoview, within a session for the document and
/// the server that the infoview is about.
pub proof fn law_goto_asks_within_its_session(
    state: Infoview,
    editor: Editor,
    kind: Seq<char>,
    at: CursorLine,
)
    ensures
        match state.goto(editor, kind, at) {
            Goto::Request { server_id, call, .. } => {
                &&& state.is_focused(editor)
                &&& state.last_source_server == Some(server_id)
                &&& editor.runs(server_id)
                &&& state.rpc_session matches Some(session)
                &&& session.server_id == server_id
                &&& session.uri@ == call.uri
                &&& session.session_id@ == call.session_id
                &&& at.info(state.spans) matches Some(info)
                &&& call.params == goto_params(kind, info)
            },
            _ => true,
        },
{
}

/// A cursor on a character of the goals in the infoview, where it refers to something, is on that.
pub proof fn law_cursor_finds_the_goal(all: Shown, i: int, j: int, k: int, at: CursorLine)
    requires
        ({
            let lines = goals_section(all.plain_goal, all.interactive_goals);
            &&& 0 <= i < lines.len()
            &&& 0 <= j < lines[i].len()
            &&& 0 <= k < lines[i][j].text.len()
            &&& lines[i][j].info is Some
            &&& at.cursor == all.accomplished().add_lines(lines.take(i)).add_segments(
                lines[i].take(j),
            ).text.len() + k
            &&& at.line_start <= at.cursor < at.line_end
        }),
    ensures
        ({
            let segment = goals_section(all.plain_goal, all.interactive_goals)[i][j];
            &&& all.buffer().text[at.cursor as int] == segment.text[k]
            &&& at.info(all.buffer().spans) == segment.info
        }),
{
    let lines = goals_section(all.plain_goal, all.interactive_goals);
    let before = all.accomplished().add_lines(lines.take(i)).add_segments(lines[i].take(j));
    law_shown_spans_are_in_order(all);
    law_lines_hold_their_segments(all.accomplished(), lines, i, j);
    lemma_start_of_start(before.add_segment(lines[i][j]), all.with_goals(), all.with_term());
    lemma_start_of_start(before.add_segment(lines[i][j]), all.with_term(), all.buffer());
    law_cursor_finds_its_segment(before, lines[i][j], all.buffer(), at, k);
}

/// A cursor on a character of the expected type in the infoview, where it refers to something, is
/// on that.
pub proof fn law_cursor_finds_the_expected_type(all: Shown, i: int, j: int, k: int, at: CursorLine)
    requires
        shows_term(all.plain_term_goal, all.interactive_term_goal),
        ({
            let lines = term_section(all.plain_term_goal, all.interactive_term_goal);
            &&& 0 <= i < lines.len()
            &&& 0 <= j < lines[i].len()
            &&& 0 <= k < lines[i][j].text.len()
            &&& lines[i][j].info is Some
            &&& at.cursor == all.with_goals().separate().add_lines(lines.take(i)).add_segments(
                lines[i].take(j),
            ).text.len() + k
            &&& at.line_start <= at.cursor < at.line_end
        }),
    ensures
        ({
            let segment = term_section(all.plain_term_goal, all.interactive_term_goal)[i][j];
            &&& all.buffer().text[at.cursor as int] == segment.text[k]
            &&& at.info(all.buffer().spans) == segment.info
        }),
{
    let lines = term_section(all.plain_term_goal, all.interactive_term_goal);
    let start = all.with_goals().separate();
    let before = start.add_lines(lines.take(i)).add_segments(lines[i].take(j));
    law_shown_spans_are_in_order(all);
    law_separator_keeps_what_is_there(all.with_goals());
    law_lines_hold_their_segments(start, lines, i, j);
    lemma_start_of_start(before.add_segment(lines[i][j]), all.with_term(), all.buffer());
    law_cursor_finds_its_segment(before, lines[i][j], all.buffer(), at, k);
}

/// Once what a refresh found has been shown, a goto with the cursor in one of its spans asks the
/// server of its source, within its session, for what that span refers to.
pub proof fn law_goto_follows_what_is_shown(
    state: Infoview,
    editor: Editor,
    later: Editor,
    source: SourceContext,
    request_seq: u64,
    session: RpcSession,
    all: Shown,
    i: int,
    kind: Seq<char>,
    at: CursorLine,
)
    requires
        serves(session, source),
        state.takes(
            editor,
            Refreshed::about(
                source,
                request_seq,
                Some(session),
                all.buffer().text,
                all.buffer().spans,
            ),
        ),
        state.is_shown(later),
        later.focused().doc == state.infoview_doc->0,
        later.runs(source.server_id),
        0 <= i < all.buffer().spans.len(),
        all.buffer().spans[i].start <= at.cursor < all.buffer().spans[i].end,
        at.line_start <= at.cursor < at.line_end,
    ensures
        ({
            let payload = Refreshed::about(
                source,
                request_seq,
                Some(session),
                all.buffer().text,
                all.buffer().spans,
            );
            let after = state.updated(editor, payload).synced(later);
            &&& after.goto(later, kind, at) matches Goto::Request { server_id, call, .. }
            &&& server_id == source.server_id
            &&& call == (Call {
                uri: source.uri@,
                position: source.position,
                session_id: session.session_id@,
                method: "Lean.Widget.getGoToLocation"@,
                params: goto_params(kind, all.buffer().spans[i].info),
            })
        }),
{
    law_shown_spans_are_in_order(all);
    law_cursor_finds_its_span(all.buffer(), at, i);
}

/// What a goto asks for is what the tag refers to: the member `info` of the tag's info, whatever it
/// holds, or the info itself where it has no such member. The kind is asked for as it was given.
pub proof fn law_goto_asks_for_what_the_tag_refers_to(kind: Seq<char>, info: Json)
    ensures
        unwrapped(info) == if info.get("info"@) is Some {
            info.get("info"@)->0
        } else {
            info
        },
        goto_params(kind, info).get("info"@) == Some(
            if info.get("info"@) is Some {
                info.get("info"@)->0
            } else {
                info
            },
        ),
        goto_params(kind, info).get("kind"@) == Some(Json::Text(kind)),
        goto_params(kind, info) matches Json::Object(members) && members.len() == 2,
{
    reveal_strlit("info");
    reveal_strlit("kind");
    let members = goto_params(kind, info)->Object_0;
    lemma_member_at(members, "info"@);
    lemma_member_at(members, "kind"@);
    assert(members[0].0 == "info"@);
    assert(members[1].0 == "kind"@);
    assert("info"@[0] != "kind"@[0]);
}

/// A call that a goto makes holds what the token under the cursor refers to, unwrapped, and names the
/// place, the session and the server that the infoview is about.
pub proof fn law_goto_call_holds_the_reference(
    state: Infoview,
    editor: Editor,
    kind: Seq<char>,
    at: CursorLine,
)
    ensures
        match state.goto(editor, kind, at) {
            Goto::Request { server_id, call, target_view: target } => {
                &&& at.info(state.spans) matches Some(info)
                &&& call.params.get("info"@) == Some(
                    if info.get("info"@) is Some {
                        info.get("info"@)->0
                    } else {
                        info
                    },
                )
                &&& call.params.get("kind"@) == Some(Json::Text(kind))
                &&& call.method == "Lean.Widget.getGoToLocation"@
                &&& state.last_source_server == Some(server_id)
                &&& state.last_source_uri matches Some(uri)
                &&& call.uri == uri@
                &&& state.last_source_position == Some(call.position)
                &&& state.rpc_session matches Some(session)
                &&& call.session_id == session.session_id@
                &&& target == target_view(
                    state.last_source_view,
                    state.infoview_doc,
                    candidates_of(editor.panes@),
                )
            },
            _ => true,
        },
{
    if let Some(info) = at.info(state.spans) {
        law_goto_asks_for_what_the_tag_refers_to(kind, info);
    }
}

/// A goto is left alone outside the infoview. In it, it says what is missing: something under the
/// cursor, a source with a session, a session that is the source's, a server that runs. Where nothing
/// is missing it asks the server.
pub proof fn law_goto_says_what_is_missing(
    state: Infoview,
    editor: Editor,
    kind: Seq<char>,
    at: CursorLine,
)
    ensures
        ({
            let ready = state.last_source_server is Some && state.last_source_uri is Some
                && state.last_source_position is Some && state.rpc_session is Some;
            let current = ready && state.rpc_session->0.uri@ == state.last_source_uri->0@
                && state.rpc_session->0.server_id == state.last_source_server->0;
            let answer = state.goto(editor, kind, at);
            if state.infoview_doc != Some(editor.focused().doc) {
                answer == Goto::NotHandled
            } else if at.info(state.spans) is None {
                answer == Goto::Failed("No Lean info at cursor."@)
            } else if !ready {
                answer == Goto::Failed("Lean infoview is not ready yet."@)
            } else if !current {
                answer == Goto::Failed("Lean infoview session is stale; refresh first."@)
            } else if !editor.running@.contains(state.last_source_server->0) {
                answer == Goto::Failed("Lean language server is not available."@)
            } else {
                answer is Request
            }
        }),
{
}

/// A cursor in a span that reaches into its line is on what the first such span refers to.
pub proof fn law_cursor_takes_the_first_span_around_it(at: CursorLine, spans: Seq<Span>, i: int)
    requires
        0 <= i < spans.len(),
        spans[i].start <= at.cursor < spans[i].end,
        spans[i].end > at.line_start,
        spans[i].start < at.line_end,
        forall|k: int|
            0 <= k < i ==> !((#[trigger] spans[k]).start <= at.cursor < spans[k].end && spans[k].end
                > at.line_start && spans[k].start < at.line_end),
    ensures
        at.info(spans) == Some(spans[i].info),
{
    lemma_first_hit(at, spans, i);
}

/// A cursor in no span of its line is on what the last span before it refers to that reaches into the
/// line.
pub proof fn law_cursor_takes_the_last_span_before_it(at: CursorLine, spans: Seq<Span>, i: int)
    requires
        forall|k: int|
            0 <= k < spans.len() ==> !((#[trigger] spans[k]).start <= at.cursor < spans[k].end
                && spans[k].end > at.line_start && spans[k].start < at.line_end),
        0 <= i < spans.len(),
        spans[i].end <= at.cursor,
        spans[i].end > at.line_start,
        spans[i].start < at.line_end,
        forall|k: int|
            i < k < spans.len() ==> !((#[trigger] spans[k]).end <= at.cursor && spans[k].end
                > at.line_start && spans[k].start < at.line_end),
    ensures
        at.info(spans) == Some(spans[i].info),
{
    lemma_first_hit_is_a_span(at, spans);
    if let Some(span) = at.first_hit(spans) {
        let k = choose|k: int|
            0 <= k < spans.len() && #[trigger] spans[k] == span && at.hits(span);
        assert(spans[k].start <= at.cursor < spans[k].end);
    }
    lemma_last_followed(at, spans, i);
}

proof fn lemma_last_followed(at: CursorLine, spans: Seq<Span>, i: int)
    requires
        0 <= i < spans.len(),
        at.follows(spans[i]),
        forall|k: int| i < k < spans.len() ==> !at.follows(#[trigger] spans[k]),
    ensures
        at.last_followed(spans) == Some(spans[i]),
    decreases spans.len(),
{
    if i < spans.len() - 1 {
        assert(!at.follows(spans[spans.len() - 1]));
        let fewer = spans.drop_last();
        assert forall|k: int| i < k < fewer.len() implies !at.follows(#[trigger] fewer[k]) by {
            assert(fewer[k] == spans[k]);
        }
        lemma_last_followed(at, fewer, i);
    }
}

/// A cursor is on nothing where no span of its line lies around it or before it.
pub proof fn law_cursor_may_be_on_nothing(at: CursorLine, spans: Seq<Span>)
    requires
        forall|k: int|
            0 <= k < spans.len() ==> (#[trigger] spans[k]).end <= at.line_start || spans[k].start
                >= at.line_end || (at.cursor < spans[k].start && at.cursor < spans[k].end),
    ensures
        at.info(spans) is None,
{
    law_info_is_of_the_line(at, spans);
}

/// Without a preferred view that shows another document, the first view that does is taken.
pub proof fn law_first_other_view_is_taken(
    preferred: Option<ViewId>,
    infoview_doc: Option<DocumentId>,
    candidates: Seq<(ViewId, DocumentId)>,
    i: int,
)
    requires
        0 <= i < candidates.len(),
        Some(candidates[i].1) != infoview_doc,
        forall|k: int| 0 <= k < i ==> Some((#[trigger] candidates[k]).1) == infoview_doc,
        preferred matches Some(view) ==> forall|k: int|
            0 <= k < candidates.len() && (#[trigger] candidates[k]).0 == view ==> Some(
                candidates[k].1,
            ) == infoview_doc,
    ensures
        target_view(preferred, infoview_doc, candidates) == Some(candidates[i].0),
{
    lemma_first_other_is(candidates, infoview_doc, i);
}

proof fn lemma_first_other_is(
    candidates: Seq<(ViewId, DocumentId)>,
    infoview_doc: Option<DocumentId>,
    i: int,
)
    requires
        0 <= i < candidates.len(),
        Some(candidates[i].1) != infoview_doc,
        forall|k: int| 0 <= k < i ==> Some((#[trigger] candidates[k]).1) == infoview_doc,
    ensures
        first_other(candidates, infoview_doc) == Some(candidates[i].0),
    decreases candidates.len(),
{
    if i > 0 {
        assert(Some(candidates[0].1) == infoview_doc);
        let rest = candidates.drop_first();
        assert forall|k: int| 0 <= k < i - 1 implies Some((#[trigger] rest[k]).1) == infoview_doc by {
            assert(rest[k] == candidates[k + 1]);
        }
        lemma_first_other_is(rest, infoview_doc, i - 1);
    }
}

/// The preferred view is taken where it shows another document than the infoview, and every view is a
/// candidate with its document.
pub proof fn law_views_are_candidates(
    panes: Seq<Pane>,
    infoview_doc: Option<DocumentId>,
    i: int,
)
    requires
        0 <= i < panes.len(),
        Some(panes[i].doc) != infoview_doc,
    ensures
        candidates_of(panes).len() == panes.len(),
        candidates_of(panes)[i] == (panes[i].id, panes[i].doc),
        target_view(Some(panes[i].id), infoview_doc, candidates_of(panes)) == Some(panes[i].id),
{
    assert(candidates_of(panes)[i] == (panes[i].id, panes[i].doc));
    assert(is_other(candidates_of(panes), infoview_doc, panes[i].id));
}

/// A link leads to its target where it names one, and else to its own document, and there to the
/// range of the selection, or else that of the target, or else its own. It leads nowhere where it
/// names no document or no range.
pub proof fn law_link_leads_to_its_target(link: LeanGotoLocation)
    ensures
        match link.location() {
            Some(place) => {
                &&& Some(place.uri) == if link.target_uri is Some {
                    link.target_uri
                } else {
                    link.uri
                }
                &&& Some(place.range) == if link.target_selection_range is Some {
                    link.target_selection_range
                } else if link.target_range is Some {
                    link.target_range
                } else {
                    link.range
                }
            },
            None => (link.target_uri is None && link.uri is None) || (
            link.target_selection_range is None && link.target_range is None && link.range is None),
        },
{
}

/// The places of links are those that each leads to, in their order.
pub proof fn law_places_are_those_of_each_link(
    first: Seq<LeanGotoLocation>,
    second: Seq<LeanGotoLocation>,
    one: LeanGotoLocation,
)
    ensures
        locations_of(first + second) == locations_of(first) + locations_of(second),
        locations_of(seq![one]) == match one.location() {
            Some(place) => seq![place],
            None => Seq::empty(),
        },
        locations_of(Seq::empty()) == Seq::<Location>::empty(),
    decreases second.len(),
{
    assert(locations_of(Seq::empty()) =~= Seq::empty());
    assert(seq![one].drop_last() =~= Seq::empty());
    if let Some(place) = one.location() {
        assert(locations_of(seq![one]) =~= seq![place]);
    }
    if second.len() == 0 {
        assert(first + second =~= first);
        assert(locations_of(first) + locations_of(second) =~= locations_of(first));
    } else {
        law_places_are_those_of_each_link(first, second.drop_last(), one);
        assert((first + second).drop_last() =~= first + second.drop_last());
        assert(locations_of(first + second) =~= locations_of(first) + locations_of(second));
    }
}

/// A goto that was started is what it says: its message, or its call, server and view.
pub proof fn law_goto_is_what_it_says(start: GotoStart)
    ensures
        match start {
            GotoStart::NotHandled => start@ == Goto::NotHandled,
            GotoStart::Failed(message) => start@ == Goto::Failed(message@),
            GotoStart::Request { server_id, call, target_view } => {
                &&& start@ matches Goto::Request {
                    server_id: asked,
                    call: made,
                    target_view: target,
                }
                &&& asked == server_id
                &&& target == target_view
                &&& made.uri == call.text_document.uri@
                &&& made.position == call.position
                &&& made.session_id == call.session_id@
                &&& made.method == call.method@
                &&& made.params == call.params@
            },
        },
{
}

} // verus!
