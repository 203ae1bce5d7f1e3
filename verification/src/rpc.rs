//! Requests to the language server.
use vstd::prelude::*;
use crate::editor::SourceContext;
use crate::json::{
    lemma_jsons_of, lemma_member_at, lemma_members_of, members_of, Json, Member, Number, Value,
};
use crate::platform::{parse_url, url_serialization};
use crate::protocol::{Position, TextDocumentIdentifier, TextDocumentPositionParams};
use crate::state::RpcSession;
use crate::views::viewed;

verus! {

/// A request for a session about a document.
#[derive(Debug, PartialEq, Eq)]
pub struct RpcConnectParams {
    pub uri: String,
}

/// A call of a method of the server within a session.
#[derive(Debug, PartialEq, Eq)]
pub struct RpcCallParams {
    pub text_document: TextDocumentIdentifier,
    pub position: Position,
    pub session_id: String,
    pub method: String,
    pub params: Value,
}

/// The mathematical value of a [`RpcCallParams`].
pub struct Call {
    pub uri: Seq<char>,
    pub position: Position,
    pub session_id: Seq<char>,
    pub method: Seq<char>,
    pub params: Json,
}

impl View for RpcCallParams {
    type V = Call;

    open spec fn view(&self) -> Call {
        Call {
            uri: self.text_document.uri@,
            position: self.position,
            session_id: self.session_id@,
            method: self.method@,
            params: self.params@,
        }
    }
}

/// The number that a JSON value holds, where it is one of 32 bits without a sign.
pub open spec fn decoded_u32(value: Json) -> Option<u32> {
    match value {
        Json::Number(Number::Unsigned(n)) if n <= u32::MAX => Some(n as u32),
        _ => None,
    }
}

/// The position of which the two values are the line and the character.
pub open spec fn decoded_pair(line: Json, character: Json) -> Option<Position> {
    match (decoded_u32(line), decoded_u32(character)) {
        (Some(line), Some(character)) => Some(Position { line, character }),
        _ => None,
    }
}

/// The position that a JSON value holds: an object with a line and a character, or an array of the
/// two.
pub open spec fn decoded_position(value: Json) -> Option<Position> {
    match value {
        Json::Object(_) => match (value.get("line"@), value.get("character"@)) {
            (Some(line), Some(character)) => decoded_pair(line, character),
            _ => None,
        },
        Json::Array(items) if items.len() == 2 => decoded_pair(items[0], items[1]),
        _ => None,
    }
}

/// The URL that a JSON value holds.
pub open spec fn decoded_url(value: Json) -> Option<Seq<char>> {
    match value {
        Json::Text(text) => url_serialization(text),
        _ => None,
    }
}

/// The URL of the document that a JSON value identifies: an object with a URL, or an array of one.
pub open spec fn decoded_document(value: Json) -> Option<Seq<char>> {
    match value {
        Json::Object(_) => match value.get("uri"@) {
            Some(url) => decoded_url(url),
            None => None,
        },
        Json::Array(items) if items.len() == 1 => decoded_url(items[0]),
        _ => None,
    }
}

/// The document that a call with these parameters is about, by its URL.
pub open spec fn envelope_document(source: SourceContext, params: Json) -> Seq<char> {
    match params.get("textDocument"@) {
        Some(value) if decoded_document(value) is Some => decoded_document(value)->0,
        _ => source.text_document.uri@,
    }
}

/// The position that a call with these parameters is about.
pub open spec fn envelope_position(source: SourceContext, params: Json) -> Position {
    match params.get("position"@) {
        Some(value) if decoded_position(value) is Some => decoded_position(value)->0,
        _ => source.position,
    }
}

/// The number that a JSON value holds.
fn decode_u32(value: &Value) -> (n: Option<u32>)
    ensures
        n == decoded_u32(value@),
{
    match value {
        Value::Number(Number::Unsigned(n)) => if *n <= u32::MAX as u64 {
            Some(*n as u32)
        } else {
            None
        },
        _ => None,
    }
}

/// The position of which the two values are the line and the character.
fn decode_pair(line: &Value, character: &Value) -> (position: Option<Position>)
    ensures
        position == decoded_pair(line@, character@),
{
    match (decode_u32(line), decode_u32(character)) {
        (Some(line), Some(character)) => Some(Position { line, character }),
        _ => None,
    }
}

/// The position that a JSON value holds.
fn decode_position(value: &Value) -> (position: Option<Position>)
    ensures
        position == decoded_position(value@),
{
    match value {
        Value::Object(_) => match (value.get("line"), value.get("character")) {
            (Some(line), Some(character)) => decode_pair(line, character),
            _ => None,
        },
        Value::Array(items) => {
            proof {
                lemma_jsons_of(items@);
            }
            if items.len() == 2 {
                decode_pair(&items[0], &items[1])
            } else {
                None
            }
        },
        _ => None,
    }
}

/// The URL that a JSON value holds.
fn decode_url(value: &Value) -> (url: Option<String>)
    ensures
        viewed(url) == decoded_url(value@),
{
    match value {
        Value::Text(text) => parse_url(text.as_str()),
        _ => None,
    }
}

/// The URL of the document that a JSON value identifies.
fn decode_document(value: &Value) -> (url: Option<String>)
    ensures
        viewed(url) == decoded_document(value@),
{
    match value {
        Value::Object(_) => match value.get("uri") {
            Some(url) => decode_url(url),
            None => None,
        },
        Value::Array(items) => {
            proof {
                lemma_jsons_of(items@);
            }
            if items.len() == 1 {
                decode_url(&items[0])
            } else {
                None
            }
        },
        _ => None,
    }
}

/// The document and the position that a call with these parameters is about, where `named` is the
/// URL of the document that they name.
pub fn envelope_with(source: &SourceContext, named: Option<String>, params: &Value) -> (context: (
    TextDocumentIdentifier,
    Position,
))
    ensures
        context.0.uri@ == match named {
            Some(uri) => uri@,
            None => source.text_document.uri@,
        },
        context.1 == envelope_position(*source, params@),
{
    let text_document = match named {
        Some(uri) => TextDocumentIdentifier::new(uri),
        None => source.text_document.clone(),
    };
    let named_position = match params.get("position") {
        Some(value) => decode_position(value),
        None => None,
    };
    let position = match named_position {
        Some(position) => position,
        None => source.position,
    };
    (text_document, position)
}

/// The document and the position that a call with these parameters is about: those that the
/// parameters name, or else those of the source.
pub fn rpc_envelope_context(source: &SourceContext, params: &Value) -> (context: (
    TextDocumentIdentifier,
    Position,
))
    ensures
        context.0.uri@ == envelope_document(*source, params@),
        context.1 == envelope_position(*source, params@),
{
    let named = match params.get("textDocument") {
        Some(value) => decode_document(value),
        None => None,
    };
    envelope_with(source, named, params)
}

/// The call of `method` with `params`.
pub open spec fn call_of(
    source: SourceContext,
    session: RpcSession,
    method: Seq<char>,
    params: Json,
) -> Call {
    Call {
        uri: envelope_document(source, params),
        position: envelope_position(source, params),
        session_id: session.session_id@,
        method,
        params,
    }
}

/// The call of `method` with `params`.
pub fn rpc_call(source: &SourceContext, session: &RpcSession, method: &str, params: Value) -> (call:
    RpcCallParams)
    ensures
        call@ == call_of(*source, *session, method@, params@),
{
    let (text_document, position) = rpc_envelope_context(source, &params);
    RpcCallParams {
        text_document,
        position,
        session_id: session.session_id.clone(),
        method: method.to_string(),
        params,
    }
}

/// A session for the source, or the request for one.
#[derive(Debug, PartialEq, Eq)]
pub enum SessionStep {
    Ready(RpcSession),
    Connect(RpcConnectParams),
}

/// Whether the session is one for the source.
pub open spec fn serves(session: RpcSession, source: SourceContext) -> bool {
    session.uri@ == source.uri@ && session.server_id == source.server_id
}

/// The session, where it is one for the source, or else the request for one.
pub fn ensure_rpc_session(source: &SourceContext, session: Option<RpcSession>) -> (step: SessionStep)
    ensures
        step == match session {
            Some(session) if serves(session, *source) => SessionStep::Ready(session),
            _ => SessionStep::Connect(RpcConnectParams { uri: source.uri }),
        },
{
    match session {
        Some(session) => if session.uri == source.uri && session.server_id == source.server_id {
            SessionStep::Ready(session)
        } else {
            SessionStep::Connect(RpcConnectParams { uri: source.uri.clone() })
        },
        None => SessionStep::Connect(RpcConnectParams { uri: source.uri.clone() }),
    }
}

/// The session that the server opened for the source, if it opened one.
pub fn connected_session(source: &SourceContext, session_id: Option<String>) -> (session: Option<
    RpcSession,
>)
    ensures
        session == match session_id {
            Some(session_id) => Some(
                RpcSession { server_id: source.server_id, uri: source.uri, session_id },
            ),
            None => None,
        },
{
    match session_id {
        Some(session_id) => Some(
            RpcSession { server_id: source.server_id, uri: source.uri.clone(), session_id },
        ),
        None => None,
    }
}

/// A session that the server opened for a source is one for that source, whatever its id.
pub proof fn law_connected_session_serves(source: SourceContext, session_id: String)
    ensures
        serves(
            RpcSession { server_id: source.server_id, uri: source.uri, session_id },
            source,
        ),
{
}

/// The character `offset` away from `character`, as far as there is one.
pub open spec fn moved(character: u32, offset: i32) -> int {
    if character + offset < 0 {
        0
    } else if character + offset > u32::MAX {
        u32::MAX as int
    } else {
        character + offset
    }
}

/// The place `offset` characters away from the source.
pub open spec fn place_at(source: SourceContext, offset: i32) -> TextDocumentPositionParams {
    TextDocumentPositionParams {
        text_document: source.text_document,
        position: Position {
            line: source.position.line,
            character: moved(source.position.character, offset) as u32,
        },
    }
}

/// The place `offset` characters away from the source.
pub fn pos_with_offset(source: &SourceContext, offset: i32) -> (place: TextDocumentPositionParams)
    ensures
        place == place_at(*source, offset),
        place.position.character == moved(source.position.character, offset),
{
    let sum: i64 = source.position.character as i64 + offset as i64;
    let character: u32 = if sum < 0 {
        0
    } else if sum > u32::MAX as i64 {
        u32::MAX
    } else {
        sum as u32
    };
    TextDocumentPositionParams {
        text_document: source.text_document.clone(),
        position: Position { line: source.position.line, character },
    }
}

/// How far from the source goals are looked for, the nearest first.
pub open spec fn goal_query_offsets() -> Seq<i32> {
    seq![0i32, -1i32, 1i32, -2i32, 2i32]
}

/// The places where goals are looked for.
pub open spec fn query_places(source: SourceContext) -> Seq<TextDocumentPositionParams> {
    goal_query_offsets().map_values(|offset: i32| place_at(source, offset))
}

/// The places where goals are looked for.
pub fn goal_query_places(source: &SourceContext) -> (places: Vec<TextDocumentPositionParams>)
    ensures
        places@ == query_places(*source),
{
    let mut places: Vec<TextDocumentPositionParams> = Vec::new();
    places.push(pos_with_offset(source, 0));
    places.push(pos_with_offset(source, -1));
    places.push(pos_with_offset(source, 1));
    places.push(pos_with_offset(source, -2));
    places.push(pos_with_offset(source, 2));
    assert(places@ =~= query_places(*source));
    places
}

/// A number as JSON.
pub open spec fn encoded_u32(n: u32) -> Json {
    Json::Number(Number::Unsigned(n as u64))
}

/// A position as JSON.
pub open spec fn encoded_position(position: Position) -> Json {
    Json::Object(
        seq![
            ("character"@, encoded_u32(position.character)),
            ("line"@, encoded_u32(position.line)),
        ],
    )
}

/// A place as JSON.
pub open spec fn encoded_place(place: TextDocumentPositionParams) -> Json {
    Json::Object(
        seq![
            ("position"@, encoded_position(place.position)),
            ("textDocument"@, Json::Object(seq![("uri"@, Json::Text(place.text_document.uri@))])),
        ],
    )
}

/// A member of an object.
fn member(key: &str, value: Value) -> (member: Member)
    ensures
        member.key@ == key@,
        member.value == value,
{
    Member { key: key.to_string(), value }
}

/// A place as JSON.
fn encode_place(place: &TextDocumentPositionParams) -> (value: Value)
    ensures
        value@ == encoded_place(*place),
{
    let mut numbers: Vec<Member> = Vec::new();
    numbers.push(
        member(
            "character",
            Value::Number(Number::Unsigned(place.position.character as u64)),
        ),
    );
    numbers.push(member("line", Value::Number(Number::Unsigned(place.position.line as u64))));
    let mut document: Vec<Member> = Vec::new();
    document.push(member("uri", Value::Text(place.text_document.uri.clone())));
    proof {
        lemma_members_of(numbers@);
        lemma_members_of(document@);
        assert(members_of(numbers@) =~= encoded_position(place.position)->Object_0);
        assert(members_of(document@) =~= seq![
            ("uri"@, Json::Text(place.text_document.uri@)),
        ]);
    }
    let mut members: Vec<Member> = Vec::new();
    members.push(member("position", Value::Object(numbers)));
    members.push(member("textDocument", Value::Object(document)));
    proof {
        lemma_members_of(members@);
        assert(members_of(members@) =~= encoded_place(*place)->Object_0);
    }
    Value::Object(members)
}

/// The calls of `method` for the places where goals are looked for.
pub open spec fn query_calls(source: SourceContext, session: RpcSession, method: Seq<char>) -> Seq<
    Call,
> {
    query_places(source).map_values(
        |place: TextDocumentPositionParams|
            call_of(source, session, method, encoded_place(place)),
    )
}

/// The calls that a vector of them stands for.
pub open spec fn calls_of(calls: Seq<RpcCallParams>) -> Seq<Call> {
    calls.map_values(|call: RpcCallParams| call@)
}

/// The calls of `method` for the places where goals are looked for.
fn goal_query_calls(source: &SourceContext, session: &RpcSession, method: &str) -> (calls: Vec<
    RpcCallParams,
>)
    ensures
        calls_of(calls@) == query_calls(*source, *session, method@),
{
    let places = goal_query_places(source);
    let ghost all = query_calls(*source, *session, method@);
    let mut calls: Vec<RpcCallParams> = Vec::new();
    let mut i: usize = 0;
    assert(calls_of(calls@) =~= all.take(0));
    while i < places.len()
        invariant
            i <= places@.len(),
            places@ == query_places(*source),
            all == query_calls(*source, *session, method@),
            calls_of(calls@) == all.take(i as int),
        decreases places@.len() - i,
    {
        let ghost before = calls_of(calls@);
        let call = rpc_call(source, session, method, encode_place(&places[i]));
        assert(call@ == all[i as int]);
        calls.push(call);
        assert(calls_of(calls@) =~= before.push(call@));
        assert(all.take(i + 1) =~= all.take(i as int).push(all[i as int]));
        i += 1;
    }
    assert(all.take(places@.len() as int) =~= all);
    calls
}

/// The calls that ask for the goals, and those that ask for the expected type, with tagged text.
/// Without a session there are none.
pub fn interactive_calls(source: &SourceContext, session: &Option<RpcSession>) -> (calls: (
    Vec<RpcCallParams>,
    Vec<RpcCallParams>,
))
    ensures
        match session {
            Some(session) => {
                &&& calls_of(calls.0@) == query_calls(
                    *source,
                    *session,
                    "Lean.Widget.getInteractiveGoals"@,
                )
                &&& calls_of(calls.1@) == query_calls(
                    *source,
                    *session,
                    "Lean.Widget.getInteractiveTermGoal"@,
                )
            },
            None => calls.0@.len() == 0 && calls.1@.len() == 0,
        },
{
    match session {
        Some(session) => (
            goal_query_calls(source, session, "Lean.Widget.getInteractiveGoals"),
            goal_query_calls(source, session, "Lean.Widget.getInteractiveTermGoal"),
        ),
        None => (Vec::new(), Vec::new()),
    }
}

/// A position that was made JSON is read back from it.
pub proof fn law_position_is_read_back(position: Position)
    ensures
        decoded_position(encoded_position(position)) == Some(position),
{
    lemma_keys_differ();
    let members = encoded_position(position)->Object_0;
    lemma_member_at(members, "line"@);
    lemma_member_at(members, "character"@);
    assert(members[0].0 == "character"@);
    assert(members[1].0 == "line"@);
}

/// A call about a place where goals are looked for is about the position of that place.
pub proof fn law_query_call_is_about_its_place(
    source: SourceContext,
    session: RpcSession,
    method: Seq<char>,
    place: TextDocumentPositionParams,
)
    ensures
        call_of(source, session, method, encoded_place(place)).position == place.position,
        call_of(source, session, method, encoded_place(place)).uri == match url_serialization(
            place.text_document.uri@,
        ) {
            Some(url) => url,
            None => source.text_document.uri@,
        },
{
    lemma_keys_differ();
    law_position_is_read_back(place.position);
    let members = encoded_place(place)->Object_0;
    lemma_member_at(members, "position"@);
    lemma_member_at(members, "textDocument"@);
    assert(members[0].0 == "position"@);
    assert(members[1].0 == "textDocument"@);
    let document = members[1].1->Object_0;
    lemma_member_at(document, "uri"@);
    assert(document[0].0 == "uri"@);
}

proof fn lemma_keys_differ()
    ensures
        "line"@ != "character"@,
        "position"@ != "textDocument"@,
{
    reveal_strlit("line");
    reveal_strlit("character");
    reveal_strlit("position");
    reveal_strlit("textDocument");
    assert("line"@.len() != "character"@.len());
    assert("position"@.len() != "textDocument"@.len());
}

/// The nearest character to a move is taken that there is: the very one where it can be counted.
pub proof fn law_move_stays_within_the_line(character: u32, offset: i32, other: int)
    ensures
        0 <= moved(character, offset) <= u32::MAX,
        0 <= character + offset <= u32::MAX ==> moved(character, offset) == character + offset,
        character + offset < 0 ==> moved(character, offset) == 0,
        character + offset > u32::MAX ==> moved(character, offset) == u32::MAX,
        0 <= other <= u32::MAX && character + offset <= other ==> moved(character, offset) <= other,
        0 <= other <= u32::MAX && character + offset >= other ==> moved(character, offset) >= other,
{
}

/// Goals are looked for in the line of the source: first at its cursor, then one character before and
/// one behind, then two before and two behind.
pub proof fn law_goals_are_looked_for_around_the_cursor(source: SourceContext)
    ensures
        query_places(source).len() == 5,
        forall|i: int|
            0 <= i < 5 ==> (#[trigger] query_places(source)[i]).text_document == source.text_document
                && query_places(source)[i].position.line == source.position.line,
        query_places(source)[0].position == source.position,
        query_places(source)[1].position.character == moved(source.position.character, -1i32),
        query_places(source)[2].position.character == moved(source.position.character, 1),
        query_places(source)[3].position.character == moved(source.position.character, -2i32),
        query_places(source)[4].position.character == moved(source.position.character, 2),
{
}

/// A place is read from an object with a line and a character, or from an array of the two, where both
/// are counts of 32 bits. Nothing else is a place.
pub proof fn law_place_is_read_from_two_counts(
    value: Json,
    line: u64,
    character: u64,
    first: Json,
    second: Json,
)
    ensures
        ({
            let counts = Json::Array(
                seq![
                    Json::Number(Number::Unsigned(line)),
                    Json::Number(Number::Unsigned(character)),
                ],
            );
            decoded_position(counts) == if line <= u32::MAX && character <= u32::MAX {
                Some(Position { line: line as u32, character: character as u32 })
            } else {
                None
            }
        }),
        value is Object && value.get("line"@) == Some(first) && value.get("character"@) == Some(
            second,
        ) ==> decoded_position(value) == decoded_position(Json::Array(seq![first, second])),
        value is Object && (value.get("line"@) is None || value.get("character"@) is None)
            ==> decoded_position(value) is None,
        !(first matches Json::Number(Number::Unsigned(n)) && n <= u32::MAX) || !(
        second matches Json::Number(Number::Unsigned(n)) && n <= u32::MAX) ==> decoded_position(
            Json::Array(seq![first, second]),
        ) is None,
        value matches Json::Array(items) ==> items.len() != 2 ==> decoded_position(value) is None,
        !(value is Array) && !(value is Object) ==> decoded_position(value) is None,
{
}

/// A document is read from an object with the text of its URL, or from an array of that text alone.
/// Nothing else is a document.
pub proof fn law_document_is_read_from_a_url(value: Json, inner: Json)
    ensures
        value is Object && value.get("uri"@) == Some(inner) ==> decoded_document(value)
            == decoded_document(Json::Array(seq![inner])),
        value is Object && value.get("uri"@) is None ==> decoded_document(value) is None,
        decoded_document(Json::Array(seq![inner])) == match inner {
            Json::Text(text) => url_serialization(text),
            _ => None,
        },
        value matches Json::Array(items) ==> items.len() != 1 ==> decoded_document(value) is None,
        !(value is Array) && !(value is Object) ==> decoded_document(value) is None,
{
}

/// A call is about the document and the position that its parameters name, and where they name none
/// that can be read, about those of the source. It carries the session, the method and the parameters
/// as they are.
pub proof fn law_call_is_about_what_its_parameters_name(
    source: SourceContext,
    session: RpcSession,
    method: Seq<char>,
    params: Json,
)
    ensures
        ({
            let call = call_of(source, session, method, params);
            let document = params.get("textDocument"@);
            let position = params.get("position"@);
            &&& call.session_id == session.session_id@
            &&& call.method == method
            &&& call.params == params
            &&& call.uri == if document is Some && decoded_document(document->0) is Some {
                decoded_document(document->0)->0
            } else {
                source.text_document.uri@
            }
            &&& call.position == if position is Some && decoded_position(position->0) is Some {
                decoded_position(position->0)->0
            } else {
                source.position
            }
        }),
{
}

/// There is one call for each place where goals are looked for, in their order, each with its place.
pub proof fn law_calls_are_for_the_places(
    source: SourceContext,
    session: RpcSession,
    method: Seq<char>,
    i: int,
)
    requires
        0 <= i < 5,
    ensures
        query_calls(source, session, method).len() == 5,
        query_calls(source, session, method)[i] == call_of(
            source,
            session,
            method,
            encoded_place(query_places(source)[i]),
        ),
        query_calls(source, session, method)[i].position == query_places(source)[i].position,
        query_calls(source, session, method)[i].method == method,
        query_calls(source, session, method)[i].session_id == session.session_id@,
{
    law_query_call_is_about_its_place(source, session, method, query_places(source)[i]);
}

/// A session serves a source where both have the same document and the same server.
pub proof fn law_session_serves_its_document_and_server(session: RpcSession, source: SourceContext)
    ensures
        serves(session, source) <==> session.uri@ == source.uri@ && session.server_id
            == source.server_id,
{
}

/// Calls are what they hold.
pub proof fn law_calls_are_what_they_hold(calls: Seq<RpcCallParams>)
    ensures
        calls_of(calls).len() == calls.len(),
        forall|i: int|
            0 <= i < calls.len() ==> (#[trigger] calls_of(calls)[i]).uri
                == calls[i].text_document.uri@ && calls_of(calls)[i].position == calls[i].position
                && calls_of(calls)[i].session_id == calls[i].session_id@ && calls_of(calls)[i].method
                == calls[i].method@ && calls_of(calls)[i].params == calls[i].params@,
{
}

} // verus!
