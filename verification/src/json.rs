//! Reading members out of JSON text with serde_json.

use vstd::prelude::*;

verus! {

/// What serde_json makes of `text` as one JSON document, asked for the
/// string member `key` of its top level: `None` when `text` is not a
/// JSON document at all, `Some(None)` when it is but holds no string
/// under `key` (not an object, no such member, or a non-string member),
/// `Some(Some(v))` for the member's string value.
pub uninterp spec fn json_string_member(text: Seq<char>, key: Seq<char>) -> Option<Option<Seq<char>>>;

/// Parses `text` with `serde_json::from_str::<serde_json::Value>` and
/// reads the top-level member `key` with `Value::get` and
/// `Value::as_str`. The contract names the outcome
/// `json_string_member(text, key)`; what serde_json's grammar accepts is
/// not written out here.
#[verifier::external_body]
pub(crate) fn read_json_string_member(text: &str, key: &str) -> (r: Option<Option<String>>)
    ensures
        match r {
            None => json_string_member(text@, key@) is None,
            Some(None) => json_string_member(text@, key@) == Some(None::<Seq<char>>),
            Some(Some(v)) => json_string_member(text@, key@) == Some(Some(v@)),
        },
{
    match serde_json::from_str::<serde_json::Value>(text) {
        Ok(v) => Some(v.get(key).and_then(serde_json::Value::as_str).map(str::to_string)),
        Err(_) => None,
    }
}

/// What serde_json makes of `text`, asked for the array at member
/// `inner` of member `outer` of its top level: `None` when `text` is not
/// a JSON document, `Some(None)` when there is no array there, and
/// otherwise each element as an unsigned integer when it is one.
pub uninterp spec fn json_nested_u64s(text: Seq<char>, outer: Seq<char>, inner: Seq<char>) -> Option<Option<Seq<Option<u64>>>>;

/// Parses `text` with `serde_json::from_str::<serde_json::Value>`, walks
/// to `outer` then `inner` with `Value::get`, reads an array with
/// `Value::as_array` and each element with `Value::as_u64`. The
/// contract names the outcome `json_nested_u64s(text, outer, inner)`.
#[verifier::external_body]
pub(crate) fn read_json_nested_u64s(text: &str, outer: &str, inner: &str) -> (r: Option<Option<Vec<Option<u64>>>>)
    ensures
        match r {
            None => json_nested_u64s(text@, outer@, inner@) is None,
            Some(None) => json_nested_u64s(text@, outer@, inner@) == Some(None::<Seq<Option<u64>>>),
            Some(Some(xs)) => json_nested_u64s(text@, outer@, inner@) == Some(Some(xs@)),
        },
{
    match serde_json::from_str::<serde_json::Value>(text) {
        Ok(v) => Some(
            v.get(outer)
                .and_then(|w| w.get(inner))
                .and_then(serde_json::Value::as_array)
                .map(|xs| xs.iter().map(serde_json::Value::as_u64).collect()),
        ),
        Err(_) => None,
    }
}

} // verus!
