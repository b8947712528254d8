//! The JSON readings that the library asks of `serde_json`.
use vstd::prelude::*;

verus! {

/// What `serde_json::from_str::<Vec<String>>` gives for `text`: the array of
/// strings, or the text of the error it reports.
pub uninterp spec fn json_string_array(text: Seq<char>) -> Result<Seq<Seq<char>>, Seq<char>>;

/// The string value of the top-level key `key` when `text` is a JSON object
/// that has such a key holding a string; `None` otherwise.
pub uninterp spec fn json_string_field(text: Seq<char>, key: Seq<char>) -> Option<Seq<char>>;

/// Parses `text` as a JSON array of strings with `serde_json::from_str`.
/// Its contract only ties the outcome to the name `json_string_array`; which
/// texts parse, and the wording of the error, are what serde_json decides.
#[verifier::external_body]
pub(crate) fn parse_string_array(text: &str) -> (r: std::result::Result<Vec<String>, String>)
    ensures
        match r {
            Ok(v) => json_string_array(text@) == Ok::<Seq<Seq<char>>, Seq<char>>(
                v@.map_values(|s: String| s@),
            ),
            Err(m) => json_string_array(text@) == Err::<Seq<Seq<char>>, Seq<char>>(m@),
        },
{
    match serde_json::from_str::<Vec<String>>(text) {
        Ok(v) => Ok(v),
        Err(e) => Err(e.to_string()),
    }
}

/// Reads the string under the top-level key `key` of the JSON text `text`,
/// with `serde_json::from_str::<serde_json::Value>`, `Value::get` and
/// `Value::as_str`.  Its contract only ties the outcome to `json_string_field`.
#[verifier::external_body]
pub(crate) fn string_field(text: &str, key: &str) -> (r: Option<String>)
    ensures
        match r {
            Some(v) => json_string_field(text@, key@) == Some(v@),
            None => json_string_field(text@, key@) is None,
        },
{
    match serde_json::from_str::<serde_json::Value>(text) {
        Ok(v) => v.get(key).and_then(serde_json::Value::as_str).map(String::from),
        Err(_) => None,
    }
}

} // verus!
