//! Reading single texts out of JSON.

use vstd::prelude::*;

verus! {

/// The text that stands in a JSON document at a pointer; `None` where the
/// document cannot be read, or no text stands there.
pub uninterp spec fn json_text_at(document: Seq<char>, pointer: Seq<char>) -> Option<Seq<char>>;

/// `serde_json::from_str` into a `Value`, then `Value::pointer` and
/// `Value::as_str`: the text at the pointer, named [`json_text_at`]. What JSON
/// is, and what a pointer leads to, is left to the crate.
#[verifier::external_body]
pub(crate) fn string_at(document: &str, pointer: &str) -> (r: Option<String>)
    ensures
        r.deep_view() == json_text_at(document@, pointer@),
{
    match serde_json::from_str::<serde_json::Value>(document) {
        Ok(value) => value.pointer(pointer).and_then(|v| v.as_str()).map(|s| s.to_string()),
        Err(_) => None,
    }
}

} // verus!
