//! A JSON document as the library reads it, and the one call into
//! `serde_json` that produces it.

use vstd::prelude::*;
use crate::text::str_equals;

verus! {

/// A JSON value. An object keeps its members in the order in which the
/// parsed map yields them; a number keeps only its text, which the library
/// never reads.
#[derive(Debug)]
pub enum JsonValue {
    Null,
    Bool(bool),
    Number(String),
    String(String),
    Array(Vec<JsonValue>),
    Object(Vec<(String, JsonValue)>),
}

/// The error that `serde_json` reports for text that is not one JSON value.
#[verifier::external_type_specification]
#[verifier::external_body]
pub struct ExJsonError(serde_json::Error);

/// A value as `serde_json` parses it; it only passes through the conversion
/// below.
#[verifier::external_type_specification]
#[verifier::external_body]
pub struct ExJsonTree(serde_json::Value);

/// The value that `serde_json::from_str::<serde_json::Value>` parses `text`
/// into, members of objects in the map's order; `None` where it fails.
pub uninterp spec fn json_parse(text: Seq<char>) -> Option<JsonValue>;

/// The value of the first member named `key`.
pub open spec fn entry_lookup(entries: Seq<(String, JsonValue)>, key: Seq<char>) -> Option<
    JsonValue,
>
    decreases entries.len(),
{
    if entries.len() == 0 {
        None
    } else if entries[0].0@ == key {
        Some(entries[0].1)
    } else {
        entry_lookup(entries.drop_first(), key)
    }
}

/// The member `key` of an object (`Value::get` with a string index); `None`
/// for a value that is not an object.
pub open spec fn member(v: JsonValue, key: Seq<char>) -> Option<JsonValue> {
    match v {
        JsonValue::Object(entries) => entry_lookup(entries@, key),
        _ => None,
    }
}

/// The text of a JSON string (`Value::as_str`).
pub open spec fn text_of(v: JsonValue) -> Option<Seq<char>> {
    match v {
        JsonValue::String(s) => Some(s@),
        _ => None,
    }
}

/// The text of the member `key`, where that member is a string.
pub open spec fn member_text(v: JsonValue, key: Seq<char>) -> Option<Seq<char>> {
    match member(v, key) {
        Some(m) => text_of(m),
        None => None,
    }
}

/// Converts a parsed `serde_json` value, one variant for one, members and
/// items in the order the value holds them. Nothing is stated of it: the
/// contract of `parse_json` covers the parse and this conversion together.
#[verifier::external_body]
fn from_serde(v: serde_json::Value) -> JsonValue {
    match v {
        serde_json::Value::Null => JsonValue::Null,
        serde_json::Value::Bool(b) => JsonValue::Bool(b),
        serde_json::Value::Number(n) => JsonValue::Number(n.to_string()),
        serde_json::Value::String(s) => JsonValue::String(s),
        serde_json::Value::Array(items) => JsonValue::Array(items.into_iter().map(from_serde).collect()),
        serde_json::Value::Object(map) => {
            let mut members = Vec::new();
            for (key, item) in map {
                members.push((key, from_serde(item)));
            }
            JsonValue::Object(members)
        },
    }
}

/// Parses `text` as one JSON value with `serde_json::from_str`. The result is
/// a function of the text alone: `Ok` exactly where `json_parse` names a
/// value, and then that value.
#[verifier::external_body]
pub(crate) fn parse_json(text: &str) -> (r: Result<JsonValue, serde_json::Error>)
    ensures
        match r {
            Ok(v) => json_parse(text@) == Some(v),
            Err(_) => json_parse(text@) is None,
        },
{
    match serde_json::from_str::<serde_json::Value>(text) {
        Ok(v) => Ok(from_serde(v)),
        Err(e) => Err(e),
    }
}

/// The value of the first member of `entries` named `key`.
pub fn lookup<'a>(entries: &'a Vec<(String, JsonValue)>, key: &str) -> (r: Option<&'a JsonValue>)
    ensures
        match r {
            Some(x) => entry_lookup(entries@, key@) == Some(*x),
            None => entry_lookup(entries@, key@) is None,
        },
{
    let n = entries.len();
    assert(entries@.skip(0) =~= entries@);
    for i in 0..n
        invariant
            n == entries@.len(),
            entry_lookup(entries@, key@) == entry_lookup(entries@.skip(i as int), key@),
    {
        let found = str_equals(entries[i].0.as_str(), key);
        assert(entries@.skip(i as int)[0] == entries@[i as int]);
        if found {
            return Some(&entries[i].1);
        }
        assert(entries@.skip(i as int).drop_first() =~= entries@.skip(i + 1));
    }
    None
}

impl JsonValue {
    /// The member `key` of an object; `None` for other values.
    pub fn get(&self, key: &str) -> (r: Option<&JsonValue>)
        ensures
            match r {
                Some(x) => member(*self, key@) == Some(*x),
                None => member(*self, key@) is None,
            },
    {
        match self {
            JsonValue::Object(entries) => lookup(entries, key),
            _ => None,
        }
    }

    /// The items of an array; `None` for other values.
    pub fn as_array(&self) -> (r: Option<&Vec<JsonValue>>)
        ensures
            match r {
                Some(items) => *self == JsonValue::Array(*items),
                None => !(*self is Array),
            },
    {
        match self {
            JsonValue::Array(items) => Some(items),
            _ => None,
        }
    }

    /// The members of an object; `None` for other values.
    pub fn as_object(&self) -> (r: Option<&Vec<(String, JsonValue)>>)
        ensures
            match r {
                Some(entries) => *self == JsonValue::Object(*entries),
                None => !(*self is Object),
            },
    {
        match self {
            JsonValue::Object(entries) => Some(entries),
            _ => None,
        }
    }

    /// Whether the value is `null`.
    pub fn is_null(&self) -> (r: bool)
        ensures
            r == (*self is Null),
    {
        match self {
            JsonValue::Null => true,
            _ => false,
        }
    }

    /// The text of a JSON string; `None` for other values.
    pub fn as_str(&self) -> (r: Option<&String>)
        ensures
            match r {
                Some(s) => text_of(*self) == Some(s@),
                None => text_of(*self) is None,
            },
    {
        match self {
            JsonValue::String(s) => Some(s),
            _ => None,
        }
    }

    /// The text of the member `key`, where that member is a string.
    pub fn get_str(&self, key: &str) -> (r: Option<&String>)
        ensures
            match r {
                Some(s) => member_text(*self, key@) == Some(s@),
                None => member_text(*self, key@) is None,
            },
    {
        match self.get(key) {
            Some(m) => m.as_str(),
            None => None,
        }
    }
}

} // verus!
