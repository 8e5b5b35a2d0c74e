//! JSON values as plain data, read and written by `serde_json`.
//!
//! The library works on values of its own type `Json`. Turning bytes into a
//! value and a value into text is left to `serde_json`; what these two steps
//! return is not proved here but named, by `json_of_bytes` and `json_text`.

use crate::text::{option_view, result_view, str_equal};
use serde_json::Value;
use vstd::prelude::*;

verus! {

/// A JSON number, kept the way `serde_json` holds it: an integer where the
/// text was one that fits, else a float. A float is kept as its decimal text.
#[derive(Debug, PartialEq)]
pub enum Number {
    /// A non-negative integer.
    PosInt(u64),
    /// A negative integer.
    NegInt(i64),
    /// Any other number, as the text that stands for it.
    Float(String),
}

impl Clone for Number {
    fn clone(&self) -> (copy: Number)
        ensures
            copy@ == self@,
    {
        match self {
            Number::PosInt(u) => Number::PosInt(*u),
            Number::NegInt(i) => Number::NegInt(*i),
            Number::Float(t) => Number::Float(t.clone()),
        }
    }
}

/// A JSON value. The members of an object are kept in a list, in the order in
/// which they were handed over.
#[derive(Debug, PartialEq)]
pub enum Json {
    Null,
    Bool(bool),
    Number(Number),
    String(String),
    Array(Vec<Json>),
    Object(Vec<(String, Json)>),
}

/// What a `Number` stands for.
pub enum NumberView {
    PosInt(u64),
    NegInt(i64),
    Float(Seq<char>),
}

/// What a `Json` stands for: the value with its texts as sequences of
/// characters and its lists as sequences.
pub enum JsonView {
    Null,
    Bool(bool),
    Number(NumberView),
    String(Seq<char>),
    Array(Seq<JsonView>),
    Object(Seq<(Seq<char>, JsonView)>),
}

impl View for Number {
    type V = NumberView;

    open spec fn view(&self) -> NumberView {
        match self {
            Number::PosInt(u) => NumberView::PosInt(*u),
            Number::NegInt(i) => NumberView::NegInt(*i),
            Number::Float(t) => NumberView::Float(t@),
        }
    }
}

/// What a value stands for.
pub open spec fn json_view(json: Json) -> JsonView
    decreases json,
{
    match json {
        Json::Null => JsonView::Null,
        Json::Bool(b) => JsonView::Bool(b),
        Json::Number(n) => JsonView::Number(n@),
        Json::String(s) => JsonView::String(s@),
        Json::Array(items) => JsonView::Array(
            Seq::new(
                items@.len(),
                |i: int|
                    if 0 <= i < items@.len() {
                        json_view(items@[i])
                    } else {
                        JsonView::Null
                    },
            ),
        ),
        Json::Object(members) => JsonView::Object(
            Seq::new(
                members@.len(),
                |i: int|
                    if 0 <= i < members@.len() {
                        (members@[i].0@, json_view(members@[i].1))
                    } else {
                        (Seq::empty(), JsonView::Null)
                    },
            ),
        ),
    }
}

impl View for Json {
    type V = JsonView;

    open spec fn view(&self) -> JsonView {
        json_view(*self)
    }
}

/// What a list of members stands for.
pub open spec fn members_view(members: Seq<(String, Json)>) -> Seq<(Seq<char>, JsonView)> {
    Seq::new(members.len(), |i: int| (members[i].0@, members[i].1@))
}

/// What a list of values stands for.
pub open spec fn items_view(items: Seq<Json>) -> Seq<JsonView> {
    Seq::new(items.len(), |i: int| items[i]@)
}

/// An array stands for the values that its list stands for.
pub proof fn lemma_array_view(items: Vec<Json>)
    ensures
        Json::Array(items)@ == JsonView::Array(items_view(items@)),
{
    let array = Json::Array(items);
    assert(array@->Array_0 =~= items_view(items@));
}

/// An object stands for the members that its list stands for.
pub proof fn lemma_object_view(members: Vec<(String, Json)>)
    ensures
        Json::Object(members)@ == JsonView::Object(members_view(members@)),
{
    let object = Json::Object(members);
    assert(object@->Object_0 =~= members_view(members@));
}

/// `serde_json::Value`. Nothing is assumed of it: a value of this type only
/// passes between the four functions below that rebuild it, read it and
/// write it.
#[verifier::external_type_specification]
#[verifier::external_body]
pub struct ExValue(serde_json::Value);

/// The value that `serde_json` reads from `bytes`, or the message with which
/// it refuses them.
pub uninterp spec fn json_of_bytes(bytes: Seq<u8>) -> Result<JsonView, Seq<char>>;

/// The compact text that `serde_json` writes for `value`, or the message with
/// which it refuses to.
pub uninterp spec fn json_text(value: JsonView) -> Result<Seq<char>, Seq<char>>;

/// Rebuilds a `serde_json::Value` as a `Json`, variant by variant: an array
/// item by item, an object member by member in the order in which its map
/// hands them out, and a number as the first of `as_u64`, `as_i64` and its
/// text that applies.
#[verifier::external_body]
fn lift(value: &Value) -> Json {
    match value {
        Value::Null => Json::Null,
        Value::Bool(b) => Json::Bool(*b),
        Value::Number(n) => Json::Number(
            match (n.as_u64(), n.as_i64()) {
                (Some(u), _) => Number::PosInt(u),
                (None, Some(i)) => Number::NegInt(i),
                (None, None) => Number::Float(n.to_string()),
            },
        ),
        Value::String(s) => Json::String(s.clone()),
        Value::Array(a) => Json::Array(a.iter().map(lift).collect()),
        Value::Object(m) => Json::Object(m.iter().map(|(k, v)| (k.clone(), lift(v))).collect()),
    }
}

/// Rebuilds a `Json` as a `serde_json::Value`, variant by variant. The
/// members of an object go into `serde_json`'s map one after the other, and
/// the text of a float is read back by `serde_json`; one that it does not
/// take for a number becomes `null`.
#[verifier::external_body]
fn lower(json: &Json) -> Value {
    match json {
        Json::Null => Value::Null,
        Json::Bool(b) => Value::Bool(*b),
        Json::Number(Number::PosInt(u)) => Value::from(*u),
        Json::Number(Number::NegInt(i)) => Value::from(*i),
        Json::Number(Number::Float(t)) => t.parse().map_or(Value::Null, Value::Number),
        Json::String(s) => Value::String(s.clone()),
        Json::Array(a) => Value::Array(a.iter().map(lower).collect()),
        Json::Object(m) => Value::Object(m.iter().map(|(k, v)| (k.clone(), lower(v))).collect()),
    }
}

/// `serde_json::from_slice`, its result rebuilt as a `Json`. The outcome is
/// taken to depend on the bytes alone; an error is handed on as its message.
#[verifier::external_body]
fn parse_json(bytes: &[u8]) -> (r: Result<Json, String>)
    ensures
        result_view(r) == json_of_bytes(bytes@),
{
    match serde_json::from_slice::<Value>(bytes) {
        Ok(value) => Ok(lift(&value)),
        Err(e) => Err(e.to_string()),
    }
}

/// `serde_json::to_string` on the value rebuilt for it. The outcome is taken
/// to depend on the value alone; an error is handed on as its message.
#[verifier::external_body]
fn render_json(value: &Json) -> (r: Result<String, String>)
    ensures
        result_view(r) == json_text(value@),
{
    match serde_json::to_string(&lower(value)) {
        Ok(text) => Ok(text),
        Err(e) => Err(e.to_string()),
    }
}

/// The member named `key` is at index `i`, and none before it has that name.
pub open spec fn first_member_at(
    members: Seq<(Seq<char>, JsonView)>,
    key: Seq<char>,
    i: int,
) -> bool {
    &&& 0 <= i < members.len()
    &&& members[i].0 == key
    &&& forall|j: int| 0 <= j < i ==> (#[trigger] members[j]).0 != key
}

/// The value of the first member named `key`.
pub open spec fn member_value(members: Seq<(Seq<char>, JsonView)>, key: Seq<char>) -> Option<
    JsonView,
> {
    if exists|i: int| first_member_at(members, key, i) {
        Some(members[choose|i: int| first_member_at(members, key, i)].1)
    } else {
        None
    }
}

/// There is one first member of a name at most.
pub proof fn lemma_first_member_unique(
    members: Seq<(Seq<char>, JsonView)>,
    key: Seq<char>,
    i: int,
    j: int,
)
    requires
        first_member_at(members, key, i),
        first_member_at(members, key, j),
    ensures
        i == j,
{
    if i < j {
        assert(members[i].0 == key);
    } else if j < i {
        assert(members[j].0 == key);
    }
}

impl JsonView {
    /// The value of the member named `key`, for an object that has one.
    pub open spec fn member(self, key: Seq<char>) -> Option<JsonView> {
        match self {
            JsonView::Object(members) => member_value(members, key),
            _ => None,
        }
    }

    /// The text of a string.
    pub open spec fn text(self) -> Option<Seq<char>> {
        match self {
            JsonView::String(s) => Some(s),
            _ => None,
        }
    }

    /// The value of a non-negative integer.
    pub open spec fn unsigned(self) -> Option<u64> {
        match self {
            JsonView::Number(NumberView::PosInt(u)) => Some(u),
            _ => None,
        }
    }

    /// The value of a boolean.
    pub open spec fn flag(self) -> Option<bool> {
        match self {
            JsonView::Bool(b) => Some(b),
            _ => None,
        }
    }

    /// The number, whatever its kind.
    pub open spec fn number(self) -> Option<NumberView> {
        match self {
            JsonView::Number(n) => Some(n),
            _ => None,
        }
    }
}

impl Json {
    /// Reads a value from JSON text.
    pub fn parse(bytes: &[u8]) -> (r: Result<Json, String>)
        ensures
            result_view(r) == json_of_bytes(bytes@),
    {
        parse_json(bytes)
    }

    /// Writes the value as compact JSON text.
    pub fn to_text(&self) -> (r: Result<String, String>)
        ensures
            result_view(r) == json_text(self@),
    {
        render_json(self)
    }

    /// The value of the member named `key`, where this is an object that has
    /// one.
    pub fn get(&self, key: &str) -> (r: Option<&Json>)
        ensures
            option_view(r) == self@.member(key@),
    {
        match self {
            Json::Object(members) => {
                let ghost view = members_view(members@);
                proof {
                    lemma_object_view(*members);
                }
                let mut i: usize = 0;
                while i < members.len()
                    invariant
                        i <= members.len(),
                        view == members_view(members@),
                        self@.member(key@) == member_value(view, key@),
                        forall|j: int| 0 <= j < i ==> (#[trigger] view[j]).0 != key@,
                    decreases members.len() - i,
                {
                    if str_equal(members[i].0.as_str(), key) {
                        proof {
                            assert(first_member_at(view, key@, i as int));
                            let k = choose|k: int| first_member_at(view, key@, k);
                            lemma_first_member_unique(view, key@, i as int, k);
                        }
                        return Some(&members[i].1);
                    }
                    i = i + 1;
                }
                None
            },
            _ => None,
        }
    }

    /// The text, where this is a string.
    pub fn as_str(&self) -> (r: Option<&str>)
        ensures
            option_view(r) == self@.text(),
    {
        match self {
            Json::String(s) => Some(s.as_str()),
            _ => None,
        }
    }

    /// The value, where this is a non-negative integer.
    pub fn as_u64(&self) -> (r: Option<u64>)
        ensures
            r == self@.unsigned(),
    {
        match self {
            Json::Number(Number::PosInt(u)) => Some(*u),
            _ => None,
        }
    }

    /// The value, where this is a boolean.
    pub fn as_bool(&self) -> (r: Option<bool>)
        ensures
            r == self@.flag(),
    {
        match self {
            Json::Bool(b) => Some(*b),
            _ => None,
        }
    }

    /// The number, where this is one.
    pub fn as_number(&self) -> (r: Option<&Number>)
        ensures
            option_view(r) == self@.number(),
    {
        match self {
            Json::Number(n) => Some(n),
            _ => None,
        }
    }
}

} // verus!
