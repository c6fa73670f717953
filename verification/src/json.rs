//! A JSON document as plain values, and the trusted bridge to
//! `serde_json`, which does the actual parsing.

use vstd::prelude::*;

verus! {

/// A parsed JSON document.  A number keeps only its textual form: the
/// configuration schema accepts no numbers, so nothing more of one is
/// ever read.
pub enum Json {
    Null,
    Bool(bool),
    Number(String),
    Str(String),
    Array(Vec<Json>),
    Object(Vec<(String, Json)>),
}

impl Json {
    /// The string inside a JSON string value.
    pub fn as_str(&self) -> (r: Option<&String>)
        ensures
            match r {
                Some(s) => *self == Json::Str(*s),
                None => !(*self is Str),
            },
    {
        match self {
            Json::Str(s) => Some(s),
            _ => None,
        }
    }

    /// The elements of a JSON array.
    pub fn as_array(&self) -> (r: Option<&Vec<Json>>)
        ensures
            match r {
                Some(elems) => *self == Json::Array(*elems),
                None => !(*self is Array),
            },
    {
        match self {
            Json::Array(elems) => Some(elems),
            _ => None,
        }
    }

    /// The fields of a JSON object.
    pub fn as_object(&self) -> (r: Option<&Vec<(String, Json)>>)
        ensures
            match r {
                Some(fields) => *self == Json::Object(*fields),
                None => !(*self is Object),
            },
    {
        match self {
            Json::Object(fields) => Some(fields),
            _ => None,
        }
    }
}

/// Declares `serde_json::Value`, the parser's own document type, so
/// that the trusted conversion below may take it; it stays opaque.
#[verifier::external_type_specification]
#[verifier::external_body]
pub struct ExSerdeValue(serde_json::Value);

/// The document that parsing the given text yields, carried over to
/// [`Json`]; `None` exactly when the text is not valid JSON.
pub uninterp spec fn json_of(text: Seq<char>) -> Option<Json>;

/// Relies on `serde_json::from_str::<serde_json::Value>`: parses a
/// JSON document; the result depends on the text alone.
#[verifier::external_body]
pub(crate) fn parse_json(text: &str) -> (r: Option<Json>)
    ensures
        r == json_of(text@),
{
    match serde_json::from_str::<serde_json::Value>(text) {
        Ok(v) => Some(value_to_json(v)),
        Err(_) => None,
    }
}

/// Relies on the shape of `serde_json::Value`: each variant is carried
/// to the matching [`Json`] variant, fields moved one for one (a
/// number keeps its textual form; object entries keep the order the
/// parser's map hands them out in).
#[verifier::external_body]
fn value_to_json(v: serde_json::Value) -> Json {
    match v {
        serde_json::Value::Null => Json::Null,
        serde_json::Value::Bool(b) => Json::Bool(b),
        serde_json::Value::Number(n) => Json::Number(n.to_string()),
        serde_json::Value::String(s) => Json::Str(s),
        serde_json::Value::Array(a) => Json::Array(a.into_iter().map(value_to_json).collect()),
        serde_json::Value::Object(o) => {
            Json::Object(o.into_iter().map(|(k, x)| (k, value_to_json(x))).collect())
        },
    }
}

} // verus!
