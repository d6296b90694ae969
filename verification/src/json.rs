//! The crate's view of the JSON values that the manifest and the registry
//! document are made of.  Parsing and the individual accessors are supplied
//! by `serde_json` and trusted at this boundary; each accessor's result is a
//! function of its arguments alone, so it is given a name here, and every
//! decision taken on what the accessors return is made by verified code in
//! the neighbouring modules, whose contracts speak through these names.

use vstd::prelude::*;

verus! {

#[verifier::external_type_specification]
#[verifier::external_body]
pub struct ExValue(serde_json::Value);

/// What a text parses to: the JSON document when the text is well-formed
/// JSON, nothing otherwise.
pub uninterp spec fn spec_parse_json(text: Seq<char>) -> Option<serde_json::Value>;

/// The value under `key` when the value is an object holding that key.
pub uninterp spec fn spec_json_get(v: serde_json::Value, key: Seq<char>) -> Option<
    serde_json::Value,
>;

/// The character content when the value is a JSON string.
pub uninterp spec fn spec_json_string(v: serde_json::Value) -> Option<Seq<char>>;

/// The elements, in order, when the value is a JSON array.
pub uninterp spec fn spec_json_array(v: serde_json::Value) -> Option<Seq<serde_json::Value>>;

/// The compact JSON rendering of a value.
pub uninterp spec fn spec_json_render(v: serde_json::Value) -> Seq<char>;

/// Relies on `serde_json::from_str::<Value>`: parses a JSON document, or
/// fails on text that is not well-formed JSON.  The result depends on the
/// text alone.
#[verifier::external_body]
pub fn parse_json(text: &str) -> (r: Option<serde_json::Value>)
    ensures
        match r {
            Some(v) => spec_parse_json(text@) == Some(v),
            None => spec_parse_json(text@) is None,
        },
{
    serde_json::from_str::<serde_json::Value>(text).ok()
}

/// Relies on `serde_json::Value::get` with a string index: the value under
/// `key` when `v` is an object holding that key, `None` otherwise.
#[verifier::external_body]
pub fn json_get<'a>(v: &'a serde_json::Value, key: &str) -> (r: Option<&'a serde_json::Value>)
    ensures
        match r {
            Some(f) => spec_json_get(*v, key@) == Some(*f),
            None => spec_json_get(*v, key@) is None,
        },
{
    v.get(key)
}

/// Relies on `serde_json::Value::as_str`: the character content when `v` is
/// a JSON string, `None` otherwise.
#[verifier::external_body]
pub fn json_string(v: &serde_json::Value) -> (r: Option<String>)
    ensures
        match r {
            Some(s) => spec_json_string(*v) == Some(s@),
            None => spec_json_string(*v) is None,
        },
{
    v.as_str().map(|s| s.to_string())
}

/// Relies on `serde_json::Value::as_array`: the elements when `v` is a JSON
/// array, `None` otherwise.
#[verifier::external_body]
pub fn json_array<'a>(v: &'a serde_json::Value) -> (r: Option<&'a Vec<serde_json::Value>>)
    ensures
        match r {
            Some(a) => spec_json_array(*v) == Some(a@),
            None => spec_json_array(*v) is None,
        },
{
    v.as_array()
}

/// Relies on `Display for serde_json::Value`: the compact JSON rendering of
/// any value (for a JSON string this keeps the quotes).
#[verifier::external_body]
pub fn json_render(v: &serde_json::Value) -> (r: String)
    ensures
        r@ == spec_json_render(*v),
{
    v.to_string()
}

} // verus!
