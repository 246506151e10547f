//! JSON values as the library reads them; the text itself is parsed by
//! `serde_json`.
use vstd::prelude::*;

use crate::text::str_eq;

verus! {

/// The outside type `serde_json::Value`, declared so that the trusted
/// conversion below can take it; Verus sees nothing inside it.
#[verifier::external_type_specification]
#[verifier::external_body]
pub struct ExJsonValue(serde_json::Value);

/// A JSON value. A number is held as what `as_u64` gives for it: the
/// value when it is a non-negative integer that fits in `u64`, else none.
pub enum Json {
    Null,
    Bool(bool),
    Number(Option<u64>),
    String(String),
    Array(Vec<Json>),
    Object(Vec<(String, Json)>),
}

/// What `serde_json::from_str::<Value>` makes of a text, or the text of its error.
pub uninterp spec fn json_document(text: Seq<char>) -> Result<Json, Seq<char>>;

/// Trusted: `serde_json::from_str::<serde_json::Value>`. The contract claims
/// only that the value (or the error's `Display` text) is `json_document`
/// of the text.
#[verifier::external_body]
pub(crate) fn from_str(text: &str) -> (r: Result<Json, String>)
    ensures
        match r {
            Ok(v) => json_document(text@) == Ok::<Json, Seq<char>>(v),
            Err(e) => json_document(text@) == Err::<Json, Seq<char>>(e@),
        },
{
    match serde_json::from_str::<serde_json::Value>(text) {
        Ok(value) => Ok(from_value(value)),
        Err(e) => Err(e.to_string()),
    }
}

/// The conversion that `from_str` applies: one variant for one, fields
/// moved; a number becomes what its `as_u64` gives.
#[verifier::external_body]
fn from_value(value: serde_json::Value) -> Json {
    match value {
        serde_json::Value::Null => Json::Null,
        serde_json::Value::Bool(b) => Json::Bool(b),
        serde_json::Value::Number(n) => Json::Number(n.as_u64()),
        serde_json::Value::String(s) => Json::String(s),
        serde_json::Value::Array(items) => Json::Array(items.into_iter().map(from_value).collect()),
        serde_json::Value::Object(map) => Json::Object(
            map.into_iter().map(|(k, v)| (k, from_value(v))).collect(),
        ),
    }
}

/// The value of the first member named `key`.
pub open spec fn json_get(m: Seq<(String, Json)>, key: Seq<char>) -> Option<Json>
    decreases m.len(),
{
    if m.len() == 0 {
        None
    } else if m[0].0@ == key {
        Some(m[0].1)
    } else {
        json_get(m.drop_first(), key)
    }
}

/// The value of the member named `key`.
pub fn get<'a>(m: &'a [(String, Json)], key: &str) -> (r: Option<&'a Json>)
    ensures
        match json_get(m@, key@) {
            Some(w) => r matches Some(v) && *v == w,
            None => r is None,
        },
{
    let mut i: usize = 0;
    assert(m@.skip(0) == m@);
    while i < m.len()
        invariant
            0 <= i <= m@.len(),
            json_get(m@.skip(i as int), key@) == json_get(m@, key@),
        decreases m.len() - i,
    {
        assert(m@.skip(i as int)[0] == m@[i as int]);
        assert(m@.skip(i as int).drop_first() == m@.skip(i + 1));
        if str_eq(m[i].0.as_str(), key) {
            return Some(&m[i].1);
        }
        i += 1;
    }
    None
}

} // verus!
