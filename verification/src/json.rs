//! JSON values as the language server sends them.
use vstd::prelude::*;
use crate::views::viewed;

verus! {

/// A JSON number, by the form in which it was written.
#[derive(Clone, Copy, Debug, PartialEq, Eq, Structural)]
pub enum Number {
    /// An integer from 0 up.
    Unsigned(u64),
    /// An integer below 0.
    Negative(i64),
    /// The bits of a double.
    Double(u64),
}

/// A JSON value.
#[derive(Debug, PartialEq, Eq)]
pub enum Value {
    Null,
    Bool(bool),
    Number(Number),
    Text(String),
    Array(Vec<Value>),
    Object(Vec<Member>),
}

/// One `key: value` pair of an object.
#[derive(Debug, PartialEq, Eq)]
pub struct Member {
    pub key: String,
    pub value: Value,
}

/// The mathematical value of a [`Value`].
pub enum Json {
    Null,
    Bool(bool),
    Number(Number),
    Text(Seq<char>),
    Array(Seq<Json>),
    Object(Seq<(Seq<char>, Json)>),
}

pub open spec fn json_of(v: Value) -> Json
    decreases v,
{
    match v {
        Value::Null => Json::Null,
        Value::Bool(b) => Json::Bool(b),
        Value::Number(n) => Json::Number(n),
        Value::Text(s) => Json::Text(s@),
        Value::Array(items) => Json::Array(jsons_of(items@)),
        Value::Object(members) => Json::Object(members_of(members@)),
    }
}

pub open spec fn jsons_of(items: Seq<Value>) -> Seq<Json>
    decreases items,
{
    if items.len() == 0 {
        Seq::empty()
    } else {
        jsons_of(items.drop_last()).push(json_of(items.last()))
    }
}

pub open spec fn members_of(members: Seq<Member>) -> Seq<(Seq<char>, Json)>
    decreases members,
{
    if members.len() == 0 {
        Seq::empty()
    } else {
        members_of(members.drop_last()).push((members.last().key@, json_of(members.last().value)))
    }
}

/// The place of the first member named `key`.
pub open spec fn member_at(members: Seq<(Seq<char>, Json)>, key: Seq<char>) -> Option<int>
    decreases members.len(),
{
    if members.len() == 0 {
        None
    } else {
        match member_at(members.drop_last(), key) {
            Some(i) => Some(i),
            None => if members.last().0 == key {
                Some(members.len() - 1)
            } else {
                None
            },
        }
    }
}

impl Json {
    /// The member of an object that `key` names.
    pub open spec fn get(self, key: Seq<char>) -> Option<Json> {
        match self {
            Json::Object(members) => match member_at(members, key) {
                Some(i) => Some(members[i].1),
                None => None,
            },
            _ => None,
        }
    }
}

pub proof fn lemma_member_at(members: Seq<(Seq<char>, Json)>, key: Seq<char>)
    ensures
        match member_at(members, key) {
            Some(i) => {
                &&& 0 <= i < members.len()
                &&& members[i].0 == key
                &&& forall|j: int| 0 <= j < i ==> (#[trigger] members[j]).0 != key
            },
            None => forall|j: int| 0 <= j < members.len() ==> (#[trigger] members[j]).0 != key,
        },
    decreases members.len(),
{
    if members.len() > 0 {
        let before = members.drop_last();
        lemma_member_at(before, key);
        assert forall|j: int| 0 <= j < before.len() implies before[j] == members[j] by {}
        if member_at(before, key) is None {
            assert forall|j: int| 0 <= j < members.len() - 1 implies (#[trigger] members[j]).0 != key by {
                assert(before[j].0 != key);
            }
        } else {
            let i = member_at(before, key)->0;
            assert forall|j: int| 0 <= j < i implies (#[trigger] members[j]).0 != key by {
                assert(before[j].0 != key);
            }
        }
    }
}

impl View for Value {
    type V = Json;

    open spec fn view(&self) -> Json {
        json_of(*self)
    }
}

pub proof fn lemma_jsons_of(items: Seq<Value>)
    ensures
        jsons_of(items).len() == items.len(),
        forall|i: int| 0 <= i < items.len() ==> #[trigger] jsons_of(items)[i] == json_of(items[i]),
    decreases items.len(),
{
    if items.len() > 0 {
        lemma_jsons_of(items.drop_last());
    }
}

pub proof fn lemma_members_of(members: Seq<Member>)
    ensures
        members_of(members).len() == members.len(),
        forall|i: int|
            0 <= i < members.len() ==> #[trigger] members_of(members)[i] == (
                members[i].key@,
                json_of(members[i].value),
            ),
    decreases members.len(),
{
    if members.len() > 0 {
        lemma_members_of(members.drop_last());
    }
}

pub proof fn lemma_item_is_smaller(v: Value, i: int)
    requires
        v is Array,
        0 <= i < v->Array_0@.len(),
    ensures
        decreases_to!(v => v->Array_0@[i]),
{
    let items = v->Array_0;
    assert(decreases_to!(v => v->Array_0));
    assert(decreases_to!(items => items@));
    assert(decreases_to!(items@ => items@[i]));
}

pub proof fn lemma_member_is_smaller(v: Value, i: int)
    requires
        v is Object,
        0 <= i < v->Object_0@.len(),
    ensures
        decreases_to!(v => v->Object_0@[i].value),
{
    let members = v->Object_0;
    assert(decreases_to!(v => v->Object_0));
    assert(decreases_to!(members => members@));
    assert(decreases_to!(members@ => members@[i]));
    assert(decreases_to!(members@[i] => members@[i].value));
}

impl Clone for Value {
    fn clone(&self) -> (copy: Self)
        ensures
            copy@ == self@,
        decreases self,
    {
        match self {
            Value::Null => Value::Null,
            Value::Bool(b) => Value::Bool(*b),
            Value::Number(n) => Value::Number(*n),
            Value::Text(s) => Value::Text(s.clone()),
            Value::Array(items) => {
                let mut copies: Vec<Value> = Vec::new();
                let mut i: usize = 0;
                while i < items.len()
                    invariant
                        self == Value::Array(*items),
                        i <= items.len(),
                        copies@.len() == i,
                        forall|j: int| 0 <= j < i ==> json_of(#[trigger] copies@[j]) == json_of(items@[j]),
                    decreases items.len() - i,
                {
                    proof {
                        lemma_item_is_smaller(*self, i as int);
                    }
                    copies.push(items[i].clone());
                    i += 1;
                }
                proof {
                    lemma_jsons_of(copies@);
                    lemma_jsons_of(items@);
                    assert(jsons_of(copies@) =~= jsons_of(items@));
                }
                Value::Array(copies)
            },
            Value::Object(members) => {
                let mut copies: Vec<Member> = Vec::new();
                let mut i: usize = 0;
                while i < members.len()
                    invariant
                        self == Value::Object(*members),
                        i <= members.len(),
                        copies@.len() == i,
                        forall|j: int| 0 <= j < i ==> (#[trigger] copies@[j]).key@ == members@[j].key@
                            && json_of(copies@[j].value) == json_of(members@[j].value),
                    decreases members.len() - i,
                {
                    let member = &members[i];
                    proof {
                        lemma_member_is_smaller(*self, i as int);
                    }
                    copies.push(Member { key: member.key.clone(), value: member.value.clone() });
                    i += 1;
                }
                proof {
                    lemma_members_of(copies@);
                    lemma_members_of(members@);
                    assert(members_of(copies@) =~= members_of(members@));
                }
                Value::Object(copies)
            },
        }
    }
}

impl Value {
    /// The member of an object that `key` names.
    pub fn get(&self, key: &str) -> (found: Option<&Value>)
        ensures
            viewed(found) == self@.get(key@),
            found is Some ==> decreases_to!(*self => *found->0),
    {
        match self {
            Value::Object(members) => {
                let wanted = key.to_string();
                proof {
                    lemma_members_of(members@);
                    lemma_member_at(members_of(members@), key@);
                }
                let mut i: usize = 0;
                while i < members.len()
                    invariant
                        i <= members.len(),
                        wanted@ == key@,
                        self == Value::Object(*members),
                        members_of(members@).len() == members@.len(),
                        forall|j: int|
                            0 <= j < members@.len() ==> #[trigger] members_of(members@)[j] == (
                                members@[j].key@,
                                json_of(members@[j].value),
                            ),
                        forall|j: int| 0 <= j < i ==> (#[trigger] members@[j]).key@ != key@,
                    decreases members.len() - i,
                {
                    let member = &members[i];
                    if member.key == wanted {
                        proof {
                            lemma_member_is_smaller(*self, i as int);
                            lemma_member_at(members_of(members@), key@);
                            let views = members_of(members@);
                            match member_at(views, key@) {
                                Some(k) => {
                                    assert(views[i as int].0 == key@);
                                    if k < i {
                                        assert(members@[k].key@ != key@);
                                    }
                                },
                                None => {
                                    assert(views[i as int].0 == key@);
                                },
                            }
                        }
                        return Some(&member.value);
                    }
                    i += 1;
                }
                proof {
                    lemma_member_at(members_of(members@), key@);
                    if let Some(k) = member_at(members_of(members@), key@) {
                        assert(members@[k].key@ != key@);
                    }
                }
                None
            },
            _ => None,
        }
    }
}

/// A member of an object is found by its key, and the first of several. Nothing else has members.
pub proof fn law_member_is_found_by_its_key(value: Json, key: Seq<char>)
    ensures
        match value {
            Json::Object(members) => match value.get(key) {
                Some(found) => exists|i: int|
                    0 <= i < members.len() && (#[trigger] members[i]) == (key, found) && forall|
                        j: int,
                    |
                        0 <= j < i ==> (#[trigger] members[j]).0 != key,
                None => forall|j: int| 0 <= j < members.len() ==> (#[trigger] members[j]).0 != key,
            },
            _ => value.get(key) is None,
        },
{
    if let Json::Object(members) = value {
        lemma_member_at(members, key);
        if let Some(i) = member_at(members, key) {
            assert(members[i] == (key, members[i].1));
        }
    }
}

/// A value stands for the JSON value of its kind, with the same contents.
pub proof fn law_value_is_its_json(value: Value)
    ensures
        match value {
            Value::Null => value@ == Json::Null,
            Value::Bool(b) => value@ == Json::Bool(b),
            Value::Number(n) => value@ == Json::Number(n),
            Value::Text(text) => value@ == Json::Text(text@),
            Value::Array(items) => {
                &&& value@ matches Json::Array(views)
                &&& views.len() == items@.len()
                &&& forall|i: int| 0 <= i < items@.len() ==> #[trigger] views[i] == items@[i]@
            },
            Value::Object(members) => {
                &&& value@ matches Json::Object(views)
                &&& views.len() == members@.len()
                &&& forall|i: int|
                    0 <= i < members@.len() ==> #[trigger] views[i] == (
                        members@[i].key@,
                        members@[i].value@,
                    )
            },
        },
{
    match value {
        Value::Array(items) => {
            lemma_jsons_of(items@);
        },
        Value::Object(members) => {
            lemma_members_of(members@);
        },
        _ => {},
    }
}

} // verus!
