//! JSON documents as plain values.

use crate::text::same_text;
use vstd::prelude::*;

verus! {

/// A JSON value. A number is kept as the text of its digits; the members of
/// an object are kept as a list of names with their values.
#[derive(Debug)]
pub enum JsonValue {
    Null,
    Bool(bool),
    Number(String),
    Text(String),
    Array(Vec<JsonValue>),
    Object(Vec<(String, JsonValue)>),
}

/// What a JSON value says.
pub enum JsonModel {
    Null,
    Bool(bool),
    Number(Seq<char>),
    Text(Seq<char>),
    Array(Seq<JsonModel>),
    Object(Seq<(Seq<char>, JsonModel)>),
}

impl JsonValue {
    /// What this value says.
    pub open spec fn model(self) -> JsonModel
        decreases self,
    {
        match self {
            JsonValue::Null => JsonModel::Null,
            JsonValue::Bool(flag) => JsonModel::Bool(flag),
            JsonValue::Number(digits) => JsonModel::Number(digits@),
            JsonValue::Text(text) => JsonModel::Text(text@),
            JsonValue::Array(items) => JsonModel::Array(
                Seq::new(
                    items@.len(),
                    |i: int|
                        if 0 <= i < items@.len() {
                            items@[i].model()
                        } else {
                            JsonModel::Null
                        },
                ),
            ),
            JsonValue::Object(members) => JsonModel::Object(
                Seq::new(
                    members@.len(),
                    |i: int|
                        if 0 <= i < members@.len() {
                            (members@[i].0@, members@[i].1.model())
                        } else {
                            (Seq::<char>::empty(), JsonModel::Null)
                        },
                ),
            ),
        }
    }
}

/// What a list of values says, one for one.
pub open spec fn models_of(items: Seq<JsonValue>) -> Seq<JsonModel> {
    Seq::new(items.len(), |i: int| items[i].model())
}

/// What a list of members says, one for one.
pub open spec fn members_of(members: Seq<(String, JsonValue)>) -> Seq<(Seq<char>, JsonModel)> {
    Seq::new(members.len(), |i: int| (members[i].0@, members[i].1.model()))
}

/// An array says what its items say.
pub proof fn lemma_array_model(items: Vec<JsonValue>)
    ensures
        JsonValue::Array(items).model() == JsonModel::Array(models_of(items@)),
{
    assert(JsonValue::Array(items).model()->Array_0 =~= models_of(items@));
}

/// An object says what its members say.
pub proof fn lemma_object_model(members: Vec<(String, JsonValue)>)
    ensures
        JsonValue::Object(members).model() == JsonModel::Object(members_of(members@)),
{
    assert(JsonValue::Object(members).model()->Object_0 =~= members_of(members@));
}

/// The value of the first of the first `upto` members that is called `name`.
pub open spec fn member(members: Seq<(Seq<char>, JsonModel)>, name: Seq<char>, upto: int) -> Option<
    JsonModel,
>
    decreases upto,
{
    if upto <= 0 {
        None
    } else {
        match member(members, name, upto - 1) {
            Some(value) => Some(value),
            None => if members[upto - 1].0 == name {
                Some(members[upto - 1].1)
            } else {
                None
            },
        }
    }
}

/// The value of the member called `name`, or else of the one called `other`.
pub open spec fn field(members: Seq<(Seq<char>, JsonModel)>, name: Seq<char>, other: Seq<char>) -> Option<
    JsonModel,
> {
    match member(members, name, members.len() as int) {
        Some(value) => Some(value),
        None => member(members, other, members.len() as int),
    }
}

/// There is a member called `name` and another called `other`.
pub open spec fn given_twice(members: Seq<(Seq<char>, JsonModel)>, name: Seq<char>, other: Seq<char>) -> bool {
    &&& name != other
    &&& member(members, name, members.len() as int) is Some
    &&& member(members, other, members.len() as int) is Some
}

/// What a value that may be missing says.
pub open spec fn said(value: Option<&JsonValue>) -> Option<JsonModel> {
    match value {
        Some(held) => Some(held.model()),
        None => None,
    }
}

/// The first member called `name`, if there is one.
pub fn find_member<'a>(members: &'a Vec<(String, JsonValue)>, name: &str) -> (found: Option<
    &'a JsonValue,
>)
    ensures
        said(found) == member(members_of(members@), name@, members@.len() as int),
{
    let mut i: usize = 0;
    while i < members.len()
        invariant
            i <= members@.len(),
            member(members_of(members@), name@, i as int) is None,
        decreases members@.len() - i,
    {
        if same_text(members[i].0.as_str(), name) {
            proof {
                lemma_member_stays(members_of(members@), name@, i + 1, members@.len() as int);
            }
            return Some(&members[i].1);
        }
        i += 1;
    }
    None
}

/// A member that is found among the first members stays the one found.
pub proof fn lemma_member_stays(
    members: Seq<(Seq<char>, JsonModel)>,
    name: Seq<char>,
    upto: int,
    later: int,
)
    requires
        upto <= later,
        member(members, name, upto) is Some,
    ensures
        member(members, name, later) == member(members, name, upto),
    decreases later - upto,
{
    if upto < later {
        lemma_member_stays(members, name, upto, later - 1);
    }
}

/// The member called `name`, or else the one called `other`.
pub fn find_field<'a>(members: &'a Vec<(String, JsonValue)>, name: &str, other: &str) -> (found:
    Option<&'a JsonValue>)
    ensures
        said(found) == field(members_of(members@), name@, other@),
{
    match find_member(members, name) {
        Some(held) => Some(held),
        None => find_member(members, other),
    }
}

/// Whether there is a member called `name` and another called `other`.
pub fn is_given_twice(members: &Vec<(String, JsonValue)>, name: &str, other: &str) -> (twice: bool)
    ensures
        twice == given_twice(members_of(members@), name@, other@),
{
    !same_text(name, other) && find_member(members, name).is_some() && find_member(
        members,
        other,
    ).is_some()
}

} // verus!
