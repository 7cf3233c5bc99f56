//! JSON documents as values, and the JSON text of single values.
use vstd::prelude::*;
use vstd::string::StringExecFns;

use crate::text::{decimal, digit_char};

verus! {

/// A JSON value. The members of an object stand in the order in which they are to be written.
#[derive(Debug)]
pub enum Json {
    Null,
    Bool(bool),
    Number(u64),
    Text(String),
    List(Vec<Json>),
    Object(Vec<Member>),
}

/// A member of an object.
#[derive(Debug)]
pub struct Member {
    pub key: String,
    pub value: Json,
}

/// What a [`Json`] value says.
#[verifier::ext_equal]
pub enum JsonView {
    Null,
    Bool(bool),
    Number(nat),
    Text(Seq<char>),
    List(Seq<JsonView>),
    Object(Seq<(Seq<char>, JsonView)>),
}

pub open spec fn json_view(json: Json) -> JsonView
    decreases json,
{
    match json {
        Json::Null => JsonView::Null,
        Json::Bool(yes) => JsonView::Bool(yes),
        Json::Number(n) => JsonView::Number(n as nat),
        Json::Text(text) => JsonView::Text(text@),
        Json::List(items) => JsonView::List(item_views(items@)),
        Json::Object(members) => JsonView::Object(member_views(members@)),
    }
}

pub open spec fn item_views(items: Seq<Json>) -> Seq<JsonView>
    decreases items,
{
    if items.len() == 0 {
        seq![]
    } else {
        item_views(items.drop_last()).push(json_view(items.last()))
    }
}

pub open spec fn member_views(members: Seq<Member>) -> Seq<(Seq<char>, JsonView)>
    decreases members,
{
    if members.len() == 0 {
        seq![]
    } else {
        member_views(members.drop_last()).push(
            (members.last().key@, json_view(members.last().value)),
        )
    }
}

impl View for Json {
    type V = JsonView;

    open spec fn view(&self) -> JsonView {
        json_view(*self)
    }
}

/// An object that is being put together.
pub(crate) struct Fields {
    members: Vec<Member>,
}

impl View for Fields {
    type V = Seq<(Seq<char>, JsonView)>;

    closed spec fn view(&self) -> Seq<(Seq<char>, JsonView)> {
        member_views(self.members@)
    }
}

impl Fields {
    pub(crate) fn new() -> (fields: Fields)
        ensures
            fields@ == Seq::<(Seq<char>, JsonView)>::empty(),
    {
        Fields { members: Vec::new() }
    }

    /// Adds a member at the end.
    pub(crate) fn with(self, key: &str, value: Json) -> (fields: Fields)
        ensures
            fields@ == self@.push((key@, value@)),
    {
        let mut members = self.members;
        let ghost earlier = members@;
        members.push(Member { key: String::from_str(key), value });
        assert(members@.drop_last() =~= earlier);
        Fields { members }
    }

    /// Finishes the object.
    pub(crate) fn object(self) -> (json: Json)
        ensures
            json@ == JsonView::Object(self@),
    {
        Json::Object(self.members)
    }
}

/// A text as a JSON value.
pub(crate) fn text_value(text: &str) -> (json: Json)
    ensures
        json@ == JsonView::Text(text@),
{
    Json::Text(String::from_str(text))
}

/// A number as a JSON value.
pub(crate) fn number_value(n: u64) -> (json: Json)
    ensures
        json@ == JsonView::Number(n as nat),
{
    Json::Number(n)
}

/// How a character stands in a JSON string: as it is, but for quotes, backslashes and control
/// characters.
pub open spec fn escaped(c: char) -> Seq<char> {
    if c == '"' || c == '\\' {
        seq!['\\', c]
    } else if c as int == 0x08 {
        seq!['\\', 'b']
    } else if c as int == 0x09 {
        seq!['\\', 't']
    } else if c as int == 0x0a {
        seq!['\\', 'n']
    } else if c as int == 0x0c {
        seq!['\\', 'f']
    } else if c as int == 0x0d {
        seq!['\\', 'r']
    } else if (c as int) < 0x20 {
        seq!['\\', 'u', '0', '0', digit_char(c as int / 16), digit_char(c as int % 16)]
    } else {
        seq![c]
    }
}

pub open spec fn escaped_text(text: Seq<char>) -> Seq<char>
    decreases text.len(),
{
    if text.len() == 0 {
        seq![]
    } else {
        escaped_text(text.drop_last()) + escaped(text.last())
    }
}

/// The JSON text of a string.
pub open spec fn quoted(text: Seq<char>) -> Seq<char> {
    "\""@ + escaped_text(text) + "\""@
}

/// Writes a string as JSON: calls `Display` of `serde_json::Value` on a `Value::String`. It puts
/// quotes around the string and escapes what [`escaped`] says, and nothing else.
#[verifier::external_body]
pub(crate) fn string_text(text: &str) -> (shown: String)
    ensures
        shown@ == quoted(text@),
{
    serde_json::Value::from(text).to_string()
}

/// The JSON text of an object with three numbers and a string.
pub open spec fn four_members(
    names: Seq<Seq<char>>,
    numbers: Seq<u16>,
    text: Seq<char>,
) -> Seq<char> {
    "{"@ + quoted(names[0]) + ":"@ + decimal(numbers[0] as nat) + ","@ + quoted(names[1]) + ":"@
        + decimal(numbers[1] as nat) + ","@ + quoted(names[2]) + ":"@ + decimal(
        numbers[2] as nat,
    ) + ","@ + quoted(names[3]) + ":"@ + quoted(text) + "}"@
}

/// Writes an object of three numbers and a string as JSON: calls `Display` of
/// `serde_json::Value` on a `Value::Object` whose members were inserted in the given order. They
/// come out in that order, without any space between them, where their names are distinct.
#[verifier::external_body]
pub(crate) fn object_text(names: [&str; 4], numbers: [u16; 3], text: &str) -> (shown: String)
    requires
        forall|i: int, j: int| 0 <= i < j < 4 ==> (#[trigger] names@[i])@ != (#[trigger] names@[j])@,
    ensures
        shown@ == four_members(names@.map_values(|name: &str| name@), numbers@, text@),
{
    let mut members = serde_json::Map::new();
    members.insert(names[0].to_string(), serde_json::Value::from(numbers[0]));
    members.insert(names[1].to_string(), serde_json::Value::from(numbers[1]));
    members.insert(names[2].to_string(), serde_json::Value::from(numbers[2]));
    members.insert(names[3].to_string(), serde_json::Value::from(text));
    serde_json::Value::Object(members).to_string()
}

} // verus!
