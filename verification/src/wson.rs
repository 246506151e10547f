//! WSON documents (the format of `vex.ws` and `vex.lock`) as values the
//! library reads; the text itself is parsed by `wson_rs`.
use vstd::prelude::*;

use crate::text::str_eq;

verus! {

/// The outside type `wson_rs::WsonValue`, declared so that the trusted
/// conversion below can take it; Verus sees nothing inside it.
#[verifier::external_type_specification]
#[verifier::external_body]
pub struct ExWsonValue(wson_rs::WsonValue);

/// A WSON value. A float is held without its number, which nothing here reads.
pub enum Wson {
    Null,
    Bool(bool),
    Int(i64),
    Float,
    String(String),
    Date(String),
    DateTime(String),
    Version(Vec<u32>),
    Array(Vec<Wson>),
    Object(Vec<(String, Wson)>),
}

/// What `wson_rs::loads` makes of a text: the entries of its top-level
/// object, or the text of the parse error.
pub uninterp spec fn wson_document(input: Seq<char>) -> Result<Seq<(String, Wson)>, Seq<char>>;

/// Trusted: `wson_rs::loads`, which parses a WSON text into a map of its
/// top-level entries. The contract claims only that the result (entries, or
/// the error's `Display` text) is `wson_document` of the text.
#[verifier::external_body]
pub(crate) fn loads(input: &str) -> (r: Result<Vec<(String, Wson)>, String>)
    ensures
        match r {
            Ok(m) => wson_document(input@) == Ok::<Seq<(String, Wson)>, Seq<char>>(m@),
            Err(e) => wson_document(input@) == Err::<Seq<(String, Wson)>, Seq<char>>(e@),
        },
{
    match wson_rs::loads(input) {
        Ok(map) => {
            let mut entries = Vec::new();
            for (key, value) in map {
                entries.push((key, from_value(value)));
            }
            Ok(entries)
        },
        Err(e) => Err(e.to_string()),
    }
}

/// The conversion that `loads` applies to each value: one variant for one,
/// fields moved; a float's number is dropped.
#[verifier::external_body]
fn from_value(value: wson_rs::WsonValue) -> Wson {
    match value {
        wson_rs::WsonValue::Null => Wson::Null,
        wson_rs::WsonValue::Bool(b) => Wson::Bool(b),
        wson_rs::WsonValue::Int(i) => Wson::Int(i),
        wson_rs::WsonValue::Float(_) => Wson::Float,
        wson_rs::WsonValue::String(s) => Wson::String(s),
        wson_rs::WsonValue::Date(s) => Wson::Date(s),
        wson_rs::WsonValue::DateTime(s) => Wson::DateTime(s),
        wson_rs::WsonValue::Version(v) => Wson::Version(v),
        wson_rs::WsonValue::Array(items) => Wson::Array(items.into_iter().map(from_value).collect()),
        wson_rs::WsonValue::Object(map) => Wson::Object(
            map.into_iter().map(|(k, v)| (k, from_value(v))).collect(),
        ),
    }
}

/// The value of the first entry named `key`.
pub open spec fn wson_get(m: Seq<(String, Wson)>, key: Seq<char>) -> Option<Wson>
    decreases m.len(),
{
    if m.len() == 0 {
        None
    } else if m[0].0@ == key {
        Some(m[0].1)
    } else {
        wson_get(m.drop_first(), key)
    }
}

/// The value of the entry named `key`.
pub fn get<'a>(m: &'a [(String, Wson)], key: &str) -> (r: Option<&'a Wson>)
    ensures
        match wson_get(m@, key@) {
            Some(w) => r matches Some(v) && *v == w,
            None => r is None,
        },
{
    let mut i: usize = 0;
    assert(m@.skip(0) == m@);
    while i < m.len()
        invariant
            0 <= i <= m@.len(),
            wson_get(m@.skip(i as int), key@) == wson_get(m@, key@),
        decreases m.len() - i,
    {
        assert(m@.skip(i as int)[0] == m@[i as int]);
        assert(m@.skip(i as int).drop_first() == m@.skip(i + 1));
        if str_eq(m[i].0.as_str(), key) {
            return Some(&m[i].1);
        }
        i += 1;
    }
    None
}

} // verus!
