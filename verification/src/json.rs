//! JSON text read with `serde_json` into a small tree of the library's own:
//! numbers are kept as their text, an object's members in the order
//! `serde_json` hands them out.
use vstd::prelude::*;

verus! {

#[verifier::external_type_specification]
#[verifier::external_body]
pub struct ExSerdeJsonValue(serde_json::Value);

/// A parsed JSON value.
#[derive(Debug, PartialEq)]
pub enum JsonValue {
    Null,
    Bool(bool),
    /// a number, as `serde_json` writes it
    Number(String),
    Str(String),
    Array(Vec<JsonValue>),
    /// the members, in order
    Object(Vec<(String, JsonValue)>),
}

/// Mathematical model of a JSON value.
pub enum JsonView {
    Null,
    Bool(bool),
    Number(Seq<char>),
    Str(Seq<char>),
    Array(Seq<JsonView>),
    Object(Seq<(Seq<char>, JsonView)>),
}

/// Model of a JSON value.
pub open spec fn json_view(j: JsonValue) -> JsonView
    decreases j,
{
    match j {
        JsonValue::Null => JsonView::Null,
        JsonValue::Bool(b) => JsonView::Bool(b),
        JsonValue::Number(t) => JsonView::Number(t@),
        JsonValue::Str(t) => JsonView::Str(t@),
        JsonValue::Array(items) => JsonView::Array(json_items_view(items@)),
        JsonValue::Object(members) => JsonView::Object(json_members_view(members@)),
    }
}

/// Models of a sequence of JSON values.
pub open spec fn json_items_view(s: Seq<JsonValue>) -> Seq<JsonView>
    decreases s,
{
    if s.len() == 0 {
        Seq::empty()
    } else {
        json_items_view(s.drop_last()).push(json_view(s.last()))
    }
}

/// Models of a sequence of object members.
pub open spec fn json_members_view(s: Seq<(String, JsonValue)>) -> Seq<(Seq<char>, JsonView)>
    decreases s,
{
    if s.len() == 0 {
        Seq::empty()
    } else {
        json_members_view(s.drop_last()).push((s.last().0@, json_view(s.last().1)))
    }
}

impl View for JsonValue {
    type V = JsonView;

    open spec fn view(&self) -> JsonView {
        json_view(*self)
    }
}

/// `json_items_view` is taken element by element.
pub broadcast proof fn lemma_json_items_view(s: Seq<JsonValue>)
    ensures
        #[trigger] json_items_view(s).len() == s.len(),
        forall|i: int| 0 <= i < s.len() ==> #[trigger] json_items_view(s)[i] == s[i]@,
    decreases s.len(),
{
    if s.len() > 0 {
        lemma_json_items_view(s.drop_last());
    }
}

/// `json_members_view` is taken element by element.
pub broadcast proof fn lemma_json_members_view(s: Seq<(String, JsonValue)>)
    ensures
        #[trigger] json_members_view(s).len() == s.len(),
        forall|i: int| 0 <= i < s.len() ==> #[trigger] json_members_view(s)[i] == (s[i].0@, s[i].1@),
    decreases s.len(),
{
    if s.len() > 0 {
        lemma_json_members_view(s.drop_last());
    }
}

/// Every string value inside `j` is shorter than `n` characters.
pub open spec fn strings_shorter(j: JsonView, n: nat) -> bool
    decreases j, 0int,
{
    match j {
        JsonView::Str(s) => s.len() < n,
        JsonView::Array(items) => items_shorter(items, n),
        JsonView::Object(members) => members_shorter(members, n),
        _ => true,
    }
}

/// Every string value inside the items is shorter than `n` characters.
pub open spec fn items_shorter(items: Seq<JsonView>, n: nat) -> bool
    decreases items, 1int,
{
    if items.len() == 0 {
        true
    } else {
        items_shorter(items.drop_last(), n) && strings_shorter(items.last(), n)
    }
}

/// Every string value inside the members' values is shorter than `n`
/// characters.
pub open spec fn members_shorter(members: Seq<(Seq<char>, JsonView)>, n: nat) -> bool
    decreases members, 1int,
{
    if members.len() == 0 {
        true
    } else {
        members_shorter(members.drop_last(), n) && strings_shorter(members.last().1, n)
    }
}

/// What `serde_json::from_str::<serde_json::Value>` makes of a text: the
/// value (numbers written back with `Number`'s `Display`), or `None` when
/// the text is not JSON.
pub uninterp spec fn json_of(text: Seq<char>) -> Option<JsonView>;

/// `serde_json::from_str::<serde_json::Value>`, the value copied into a
/// [`JsonValue`]. Claimed: the result is [`json_of`] of the text, and each
/// string inside it is shorter than the text (a JSON string literal stands
/// between two quotes, and an escape never decodes to more characters than
/// it is written with).
#[verifier::external_body]
pub fn parse_json(text: &str) -> (r: Option<JsonValue>)
    ensures
        match r {
            Some(j) => json_of(text@) == Some(j@) && strings_shorter(j@, text@.len()),
            None => json_of(text@) is None,
        },
{
    serde_json::from_str::<serde_json::Value>(text).ok().map(|v| copy_json(&v))
}

/// Copies a `serde_json::Value` into a [`JsonValue`], variant for variant;
/// a number becomes its `Display` text. It only converts: what the copy
/// holds is what [`parse_json`] states of the parse.
#[verifier::external_body]
fn copy_json(v: &serde_json::Value) -> JsonValue {
    match v {
        serde_json::Value::Null => JsonValue::Null,
        serde_json::Value::Bool(b) => JsonValue::Bool(*b),
        serde_json::Value::Number(n) => JsonValue::Number(n.to_string()),
        serde_json::Value::String(s) => JsonValue::Str(s.clone()),
        serde_json::Value::Array(items) => JsonValue::Array(items.iter().map(copy_json).collect()),
        serde_json::Value::Object(map) => JsonValue::Object(map.iter().map(|(k, x)| (k.clone(), copy_json(x))).collect()),
    }
}

} // verus!
