//! Trusted boundary to the JSON parser. Each accessor parses a document and
//! reads one member; what it returns is named by an uninterpreted function
//! of the document text, so every caller's contract states exactly which
//! members must be present for a decode to succeed. JSON parsing is
//! deterministic, so naming its result is sound.

use vstd::prelude::*;

verus! {

/// The string member at `key` of the top-level object of `doc`, if `doc`
/// parses and has one.
pub uninterp spec fn json_str_field(doc: Seq<char>, key: Seq<char>) -> Option<Seq<char>>;

/// The length of the array member at `key` of the top-level object.
pub uninterp spec fn json_array_len(doc: Seq<char>, key: Seq<char>) -> Option<int>;

/// The string member at `field` of the `i`-th element of the array at `key`.
pub uninterp spec fn json_array_str_field(
    doc: Seq<char>,
    key: Seq<char>,
    i: int,
    field: Seq<char>,
) -> Option<Seq<char>>;

/// The unsigned-integer member at `field` of the `i`-th element of the
/// array at `key`.
pub uninterp spec fn json_array_u64_field(
    doc: Seq<char>,
    key: Seq<char>,
    i: int,
    field: Seq<char>,
) -> Option<u64>;

/// Relies on serde_json::from_str and Value::{get, as_str}: returns the
/// string value at `key` in the top-level object of `doc`, and `None` when
/// `doc` is not valid JSON, lacks the member, or the member is not a
/// string. A function of the document text alone.
#[verifier::external_body]
pub fn get_json_str_field(doc: &str, key: &str) -> (r: Option<String>)
    ensures
        match r {
            Some(s) => json_str_field(doc@, key@) == Some(s@),
            None => json_str_field(doc@, key@) is None,
        },
{
    let v: serde_json::Value = serde_json::from_str(doc).ok()?;
    Some(v.get(key)?.as_str()?.to_owned())
}

/// Relies on serde_json::from_str and Value::{get, as_array}: returns the
/// length of the array at `key`, `None` when absent or not an array.
#[verifier::external_body]
pub fn get_json_array_len(doc: &str, key: &str) -> (r: Option<usize>)
    ensures
        match r {
            Some(n) => json_array_len(doc@, key@) == Some(n as int),
            None => json_array_len(doc@, key@) is None,
        },
{
    let v: serde_json::Value = serde_json::from_str(doc).ok()?;
    Some(v.get(key)?.as_array()?.len())
}

/// Relies on serde_json::from_str and Value::{get, as_array, as_str}:
/// returns the string at `field` of element `i` of the array at `key`.
#[verifier::external_body]
pub fn get_json_array_str_field(doc: &str, key: &str, i: usize, field: &str) -> (r: Option<
    String,
>)
    ensures
        match r {
            Some(s) => json_array_str_field(doc@, key@, i as int, field@) == Some(s@),
            None => json_array_str_field(doc@, key@, i as int, field@) is None,
        },
{
    let v: serde_json::Value = serde_json::from_str(doc).ok()?;
    Some(v.get(key)?.as_array()?.get(i)?.get(field)?.as_str()?.to_owned())
}

/// Relies on serde_json::from_str and Value::{get, as_array, as_u64}:
/// returns the unsigned integer at `field` of element `i` of the array at
/// `key`.
#[verifier::external_body]
pub fn get_json_array_u64_field(doc: &str, key: &str, i: usize, field: &str) -> (r: Option<u64>)
    ensures
        match r {
            Some(n) => json_array_u64_field(doc@, key@, i as int, field@) == Some(n),
            None => json_array_u64_field(doc@, key@, i as int, field@) is None,
        },
{
    let v: serde_json::Value = serde_json::from_str(doc).ok()?;
    v.get(key)?.as_array()?.get(i)?.get(field)?.as_u64()
}

} // verus!
