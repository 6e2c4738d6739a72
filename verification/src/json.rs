//! A JSON document as the library reads it.
//!
//! Numbers keep only what the rules read of them: their value when it is a
//! non-negative integer that fits in `u64`. Object members keep the order in
//! which they were handed over; keys are unique in parsed documents.

use vstd::prelude::*;

verus! {

#[verifier::external_type_specification]
#[verifier::external_body]
pub struct ExJsonValue(serde_json::Value);

/// A JSON value.
#[derive(Debug)]
pub enum Json {
    Null,
    Bool(bool),
    /// A number, holding its value when that is an unsigned 64-bit integer.
    Number(Option<u64>),
    /// A number the library writes, given by its JSON text (`0.2`).
    NumberText(String),
    Str(String),
    Array(Vec<Json>),
    Object(Vec<(String, Json)>),
}

/// Mathematical value of a [`Json`].
pub enum JsonValue {
    Null,
    Bool(bool),
    Number(Option<u64>),
    NumberText(Seq<char>),
    Str(Seq<char>),
    Array(Seq<JsonValue>),
    Object(Seq<(Seq<char>, JsonValue)>),
}

pub open spec fn json_value(j: Json) -> JsonValue
    decreases j,
{
    match j {
        Json::Null => JsonValue::Null,
        Json::Bool(b) => JsonValue::Bool(b),
        Json::Number(n) => JsonValue::Number(n),
        Json::NumberText(t) => JsonValue::NumberText(t@),
        Json::Str(s) => JsonValue::Str(s@),
        Json::Array(a) => JsonValue::Array(json_values(a@)),
        Json::Object(f) => JsonValue::Object(json_fields(f@)),
    }
}

pub open spec fn json_values(items: Seq<Json>) -> Seq<JsonValue>
    decreases items,
{
    if items.len() == 0 {
        Seq::empty()
    } else {
        json_values(items.drop_last()).push(json_value(items.last()))
    }
}

pub open spec fn json_fields(fields: Seq<(String, Json)>) -> Seq<(Seq<char>, JsonValue)>
    decreases fields,
{
    if fields.len() == 0 {
        Seq::empty()
    } else {
        json_fields(fields.drop_last()).push((fields.last().0@, json_value(fields.last().1)))
    }
}

/// Appends an element to an array under construction.
pub fn push_item(items: &mut Vec<Json>, v: Json)
    ensures
        json_values(final(items)@) == json_values(old(items)@).push(json_value(v)),
{
    let ghost before = items@;
    items.push(v);
    assert(items@.drop_last() =~= before);
}

/// Appends a member to an object under construction.
pub fn push_field(fields: &mut Vec<(String, Json)>, key: &str, v: Json)
    ensures
        json_fields(final(fields)@) == json_fields(old(fields)@).push((key@, json_value(v))),
{
    let ghost before = fields@;
    fields.push((String::from_str(key), v));
    assert(fields@.drop_last() =~= before);
}

/// What `serde_json::from_str::<serde_json::Value>` yields for a text: `None`
/// when the text is not one JSON document, else the document.
pub uninterp spec fn parsed_json(text: Seq<char>) -> Option<Json>;

/// Converts a parsed `serde_json::Value` member by member.
#[verifier::external_body]
fn json_from_value(v: &serde_json::Value) -> Json {
    match v {
        serde_json::Value::Null => Json::Null,
        serde_json::Value::Bool(b) => Json::Bool(*b),
        serde_json::Value::Number(n) => Json::Number(n.as_u64()),
        serde_json::Value::String(s) => Json::Str(s.clone()),
        serde_json::Value::Array(a) => Json::Array(a.iter().map(json_from_value).collect()),
        serde_json::Value::Object(m) => Json::Object(
            m.iter().map(|(k, x)| (k.clone(), json_from_value(x))).collect(),
        ),
    }
}

/// Parses a text with `serde_json::from_str::<serde_json::Value>`; the result
/// is named [`parsed_json`] of the text, nothing more is claimed of it.
#[verifier::external_body]
fn serde_parse(text: &str) -> (r: Option<Json>)
    ensures
        r == parsed_json(text@),
{
    serde_json::from_str::<serde_json::Value>(text).ok().map(|v| json_from_value(&v))
}

/// Parses one JSON document.
pub fn parse_json(text: &str) -> (r: Option<Json>)
    ensures
        r == parsed_json(text@),
{
    serde_parse(text)
}

/// First member of `fields` whose key is `key`.
pub open spec fn field_of(fields: Seq<(String, Json)>, key: Seq<char>) -> Option<Json>
    decreases fields.len(),
{
    if fields.len() == 0 {
        None
    } else if fields[0].0@ == key {
        Some(fields[0].1)
    } else {
        field_of(fields.drop_first(), key)
    }
}

/// `Value::get(key)`: the member of an object, `None` for anything else.
pub open spec fn get_spec(j: Json, key: Seq<char>) -> Option<Json> {
    match j {
        Json::Object(fields) => field_of(fields@, key),
        _ => None,
    }
}

/// `Value::as_str`.
pub open spec fn as_str_spec(j: Json) -> Option<Seq<char>> {
    match j {
        Json::Str(s) => Some(s@),
        _ => None,
    }
}

/// `Value::as_array`.
pub open spec fn as_array_spec(j: Json) -> Option<Seq<Json>> {
    match j {
        Json::Array(a) => Some(a@),
        _ => None,
    }
}

/// `Value::as_u64`.
pub open spec fn as_u64_spec(j: Json) -> Option<u64> {
    match j {
        Json::Number(n) => n,
        _ => None,
    }
}

pub open spec fn opt_get(j: Option<Json>, key: Seq<char>) -> Option<Json> {
    match j {
        Some(v) => get_spec(v, key),
        None => None,
    }
}

pub open spec fn opt_str(j: Option<Json>) -> Option<Seq<char>> {
    match j {
        Some(v) => as_str_spec(v),
        None => None,
    }
}

pub open spec fn opt_array(j: Option<Json>) -> Option<Seq<Json>> {
    match j {
        Some(v) => as_array_spec(v),
        None => None,
    }
}

pub open spec fn opt_u64(j: Option<Json>) -> Option<u64> {
    match j {
        Some(v) => as_u64_spec(v),
        None => None,
    }
}

/// The member named by a string literal.
pub fn get<'a>(j: &'a Json, key: &str) -> (r: Option<&'a Json>)
    ensures
        match r {
            Some(v) => get_spec(*j, key@) == Some(*v),
            None => get_spec(*j, key@) is None,
        },
{
    match j {
        Json::Object(fields) => {
            let k = crate::text::chars_of(key);
            let mut i: usize = 0;
            assert(fields@.skip(0) =~= fields@);
            while i < fields.len()
                invariant
                    i <= fields@.len(),
                    k@ == key@,
                    get_spec(*j, key@) == field_of(fields@, key@),
                    field_of(fields@, key@) == field_of(fields@.skip(i as int), key@),
                decreases fields.len() - i,
            {
                assert(fields@.skip(i as int).drop_first() =~= fields@.skip(i + 1));
                let fk = crate::text::chars_of(fields[i].0.as_str());
                if crate::text::seq_eq(&fk, &k) {
                    assert(fields@.skip(i as int)[0] == fields@[i as int]);
                    assert(fields@[i as int].0@ == key@);
                    assert(field_of(fields@.skip(i as int), key@) == Some(fields@[i as int].1));
                    return Some(&fields[i].1);
                }
                i = i + 1;
            }
            None
        },
        _ => None,
    }
}

pub fn as_str(j: &Json) -> (r: Option<&String>)
    ensures
        match r {
            Some(s) => as_str_spec(*j) == Some(s@),
            None => as_str_spec(*j) is None,
        },
{
    match j {
        Json::Str(s) => Some(s),
        _ => None,
    }
}

pub fn as_array(j: &Json) -> (r: Option<&Vec<Json>>)
    ensures
        match r {
            Some(a) => as_array_spec(*j) == Some(a@),
            None => as_array_spec(*j) is None,
        },
{
    match j {
        Json::Array(a) => Some(a),
        _ => None,
    }
}

pub fn as_u64(j: &Json) -> (r: Option<u64>)
    ensures
        r == as_u64_spec(*j),
{
    match j {
        Json::Number(n) => *n,
        _ => None,
    }
}

} // verus!
