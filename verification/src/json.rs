//! Reading JSON payloads. Parsing and printing are `serde_json`'s; the
//! library reads a payload through these accessors, each of which parses
//! the text and picks one thing out of it, so a text that is not JSON (or
//! not an object) simply has no fields.

use vstd::prelude::*;

verus! {

/// The string field `key` of the JSON object `text`: `None` when `text` is
/// not JSON, not an object, lacks `key`, or holds a non-string there.
pub uninterp spec fn json_str_field(text: Seq<char>, key: Seq<char>) -> Option<Seq<char>>;

/// The field `key` of the JSON object `text` read as a `u64`: `None` when
/// it is missing or not a non-negative integer that fits.
pub uninterp spec fn json_u64_field(text: Seq<char>, key: Seq<char>) -> Option<u64>;

/// The field `key` of the JSON object `text` read as an `i64`.
pub uninterp spec fn json_i64_field(text: Seq<char>, key: Seq<char>) -> Option<i64>;

/// The JSON object `text` has a field `key`, of any kind.
pub uninterp spec fn json_has_field(text: Seq<char>, key: Seq<char>) -> bool;

/// The items of the array field `key` of the JSON object `text`, each
/// printed back as compact JSON: `None` when the field is missing or not
/// an array.
pub uninterp spec fn json_array_field(text: Seq<char>, key: Seq<char>) -> Option<Seq<Seq<char>>>;

/// `text` parsed as JSON, when it is a string: that string.
pub uninterp spec fn json_str_value(text: Seq<char>) -> Option<Seq<char>>;

/// The entries of the JSON object `text`, in the order `serde_json` walks
/// its map, each value printed back as compact JSON.
pub uninterp spec fn json_object_entries(text: Seq<char>) -> Option<Seq<(Seq<char>, Seq<char>)>>;

/// `text` pretty-printed as JSON; a text that does not parse is printed as
/// a JSON string holding it.
pub uninterp spec fn json_pretty_payload(text: Seq<char>) -> Seq<char>;

/// `serde_json::from_str::<serde_json::Value>`, then `Value::get(key)` and
/// `Value::as_str`: the string field `key` of the JSON object `text`.
#[verifier::external_body]
pub(crate) fn json_field(text: &str, key: &str) -> (r: Option<String>)
    ensures
        match r {
            Some(v) => json_str_field(text@, key@) == Some(v@),
            None => json_str_field(text@, key@) is None,
        },
{
    match serde_json::from_str::<serde_json::Value>(text) {
        Ok(v) => v.get(key).and_then(|f| f.as_str()).map(|s| s.to_string()),
        Err(_) => None,
    }
}

/// `serde_json::from_str`, then `Value::get(key)` and `Value::as_u64`.
#[verifier::external_body]
pub(crate) fn json_u64(text: &str, key: &str) -> (r: Option<u64>)
    ensures
        r == json_u64_field(text@, key@),
{
    match serde_json::from_str::<serde_json::Value>(text) {
        Ok(v) => v.get(key).and_then(|f| f.as_u64()),
        Err(_) => None,
    }
}

/// `serde_json::from_str`, then `Value::get(key)` and `Value::as_i64`.
#[verifier::external_body]
pub(crate) fn json_i64(text: &str, key: &str) -> (r: Option<i64>)
    ensures
        r == json_i64_field(text@, key@),
{
    match serde_json::from_str::<serde_json::Value>(text) {
        Ok(v) => v.get(key).and_then(|f| f.as_i64()),
        Err(_) => None,
    }
}

/// `serde_json::from_str`, then whether `Value::get(key)` finds a field.
#[verifier::external_body]
pub(crate) fn json_has(text: &str, key: &str) -> (r: bool)
    ensures
        r == json_has_field(text@, key@),
{
    match serde_json::from_str::<serde_json::Value>(text) {
        Ok(v) => v.get(key).is_some(),
        Err(_) => false,
    }
}

/// `serde_json::from_str`, then `Value::get(key)` and `Value::as_array`,
/// each item printed with `Value::to_string`.
#[verifier::external_body]
pub(crate) fn json_array(text: &str, key: &str) -> (r: Option<Vec<String>>)
    ensures
        match r {
            Some(items) => json_array_field(text@, key@) == Some(items@.map_values(|s: String| s@)),
            None => json_array_field(text@, key@) is None,
        },
{
    match serde_json::from_str::<serde_json::Value>(text) {
        Ok(v) => v.get(key).and_then(|f| f.as_array()).map(|a| a.iter().map(|x| x.to_string()).collect()),
        Err(_) => None,
    }
}

/// `serde_json::from_str`, then `Value::as_str`.
#[verifier::external_body]
pub(crate) fn json_as_str(text: &str) -> (r: Option<String>)
    ensures
        match r {
            Some(v) => json_str_value(text@) == Some(v@),
            None => json_str_value(text@) is None,
        },
{
    match serde_json::from_str::<serde_json::Value>(text) {
        Ok(v) => v.as_str().map(|s| s.to_string()),
        Err(_) => None,
    }
}

/// `serde_json::from_str`, then `Value::as_object`, each entry's value
/// printed with `Value::to_string`.
#[verifier::external_body]
pub(crate) fn json_entries(text: &str) -> (r: Option<Vec<(String, String)>>)
    ensures
        match r {
            Some(es) => json_object_entries(text@) == Some(es@.map_values(|e: (String, String)| (e.0@, e.1@))),
            None => json_object_entries(text@) is None,
        },
{
    match serde_json::from_str::<serde_json::Value>(text) {
        Ok(v) => v.as_object().map(|o| o.iter().map(|(k, x)| (k.clone(), x.to_string())).collect()),
        Err(_) => None,
    }
}

/// `serde_json::from_str` (a text that does not parse becomes
/// `Value::String`), then `serde_json::to_string_pretty`.
#[verifier::external_body]
pub(crate) fn pretty_payload(text: &str) -> (r: String)
    ensures
        r@ == json_pretty_payload(text@),
{
    let v = match serde_json::from_str::<serde_json::Value>(text) {
        Ok(v) => v,
        Err(_) => serde_json::Value::String(text.to_string()),
    };
    match serde_json::to_string_pretty(&v) {
        Ok(s) => s,
        Err(_) => v.to_string(),
    }
}

} // verus!
