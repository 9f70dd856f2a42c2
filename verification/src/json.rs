//! JSON documents as plain values, read with `serde_json`.

use crate::text::{chars_of, same_text};
use vstd::prelude::*;

verus! {

/// A JSON document. A number is kept as the text it is written with; the
/// members of an object stand in the order in which the reader hands them out,
/// each key once.
#[derive(Debug, PartialEq, Eq)]
pub enum Json {
    Null,
    Bool(bool),
    Number(String),
    Text(String),
    Array(Vec<Json>),
    Object(Vec<(String, Json)>),
}

/// `serde_json::Value`, carried through as it is.
#[verifier::external_type_specification]
#[verifier::external_body]
pub struct ExValue(serde_json::Value);

/// `serde_json::Error`, carried through as it is.
#[verifier::external_type_specification]
#[verifier::external_body]
pub struct ExJsonError(serde_json::Error);

/// The document that a text is read as; `None` where the reader refuses the
/// text.
pub uninterp spec fn json_parse(text: Seq<char>) -> Option<Json>;

/// Takes a `serde_json::Value` over into a `Json`, variant by variant. Nothing
/// is claimed of the result.
#[verifier::external_body]
fn json_from(value: &serde_json::Value) -> Json {
    match value {
        serde_json::Value::Null => Json::Null,
        serde_json::Value::Bool(b) => Json::Bool(*b),
        serde_json::Value::Number(n) => Json::Number(n.to_string()),
        serde_json::Value::String(s) => Json::Text(s.clone()),
        serde_json::Value::Array(items) => Json::Array(items.iter().map(json_from).collect()),
        serde_json::Value::Object(fields) => Json::Object(
            fields.iter().map(|(k, v)| (k.clone(), json_from(v))).collect(),
        ),
    }
}

/// `serde_json::from_str` for a `Value`, taken over into a `Json`. The
/// outcome depends on the text alone; nothing more is claimed of it.
#[verifier::external_body]
pub(crate) fn parse_json(text: &str) -> (parsed: Result<Json, serde_json::Error>)
    ensures
        parsed is Ok <==> json_parse(text@) is Some,
        parsed matches Ok(document) ==> json_parse(text@) == Some(document),
{
    serde_json::from_str::<serde_json::Value>(text).map(|value| json_from(&value))
}

/// The place of the first member of an object under `key`.
pub open spec fn member_index(fields: Seq<(String, Json)>, key: Seq<char>) -> Option<int> {
    if exists|i: int| 0 <= i < fields.len() && (#[trigger] fields[i]).0@ == key {
        Some(
            choose|i: int|
                0 <= i < fields.len() && (#[trigger] fields[i]).0@ == key && forall|j: int|
                    0 <= j < i ==> (#[trigger] fields[j]).0@ != key,
        )
    } else {
        None
    }
}

/// The member of an object under `key`; `None` for anything but an object
/// that has such a member.
pub open spec fn member_of(json: Json, key: Seq<char>) -> Option<Json> {
    match json {
        Json::Object(fields) => match member_index(fields@, key) {
            Some(i) => Some(fields@[i].1),
            None => None,
        },
        _ => None,
    }
}

/// The text of a JSON string; `None` for anything else.
pub open spec fn text_of(json: Json) -> Option<Seq<char>> {
    match json {
        Json::Text(s) => Some(s@),
        _ => None,
    }
}

impl Json {
    /// The member of an object under `key`.
    pub fn get(&self, key: &str) -> (found: Option<&Json>)
        ensures
            found is Some <==> member_of(*self, key@) is Some,
            found matches Some(member) ==> member_of(*self, key@) == Some(*member),
    {
        match self {
            Json::Object(fields) => {
                let wanted = chars_of(key);
                let mut i: usize = 0;
                while i < fields.len()
                    invariant
                        i <= fields.len(),
                        wanted@ == key@,
                        *self == Json::Object(*fields),
                        forall|j: int| 0 <= j < i ==> (#[trigger] fields@[j]).0@ != key@,
                    decreases fields.len() - i,
                {
                    if same_text(&chars_of(fields[i].0.as_str()), &wanted) {
                        proof {
                            let first = member_index(fields@, key@);
                            assert(fields@[i as int].0@ == key@);
                            assert(first == Some(i as int));
                        }
                        return Some(&fields[i].1);
                    }
                    i += 1;
                }
                None
            },
            _ => None,
        }
    }

    /// The text of a JSON string.
    pub fn as_str(&self) -> (text: Option<&str>)
        ensures
            text is Some <==> text_of(*self) is Some,
            text matches Some(s) ==> text_of(*self) == Some(s@),
    {
        match self {
            Json::Text(s) => Some(s.as_str()),
            _ => None,
        }
    }
}

} // verus!
