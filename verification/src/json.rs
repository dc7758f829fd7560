//! The JSON values that travel between the gateway and its servers, carried through
//! opaquely, and the calls into `serde_json` that read, write and inspect them.
use vstd::prelude::*;

verus! {

/// A JSON value of `serde_json`. Its content is opaque here.
#[verifier::external_type_specification]
#[verifier::external_body]
pub struct ExJsonValue(serde_json::Value);

/// Whether `serde_json::from_str::<Value>` accepts the text.
pub uninterp spec fn json_text_accepted(text: Seq<char>) -> bool;

/// Whether `serde_json::from_slice::<Value>` accepts the bytes.
pub uninterp spec fn json_bytes_accepted(bytes: Seq<u8>) -> bool;

/// The value that `serde_json::from_str::<Value>` reads from the text, where it accepts it.
pub uninterp spec fn json_text_value(text: Seq<char>) -> serde_json::Value;

/// The value that `serde_json::from_slice::<Value>` reads from the bytes, where it
/// accepts them.
pub uninterp spec fn json_bytes_value(bytes: Seq<u8>) -> serde_json::Value;

/// The text of the error of `serde_json::from_slice::<Value>` on bytes it refuses.
pub uninterp spec fn json_bytes_error(bytes: Seq<u8>) -> Seq<char>;

/// The compact JSON text that `serde_json::to_vec` writes for a value.
pub uninterp spec fn json_encoding(value: serde_json::Value) -> Seq<u8>;

/// The member named `key` that `Value::get` finds in a value (`None` where the value is
/// no object or has no such member).
pub uninterp spec fn json_member_of(value: serde_json::Value, key: Seq<char>) -> Option<
    serde_json::Value,
>;

/// The text that `Value::as_str` gives of a value (`None` where it is no JSON string).
pub uninterp spec fn json_string_of(value: serde_json::Value) -> Option<Seq<char>>;

/// Whether `PartialEq` of `Value` finds two values equal.
pub uninterp spec fn json_values_equal(a: serde_json::Value, b: serde_json::Value) -> bool;

/// `serde_json::from_str::<Value>`: the value that `text` holds, where it is JSON.
/// The contract claims that success and the value depend on the text alone.
#[verifier::external_body]
pub(crate) fn parse_json_text(text: &str) -> (r: Option<serde_json::Value>)
    ensures
        r is Some == json_text_accepted(text@),
        r is Some ==> r->Some_0 == json_text_value(text@),
{
    match serde_json::from_str::<serde_json::Value>(text) {
        Ok(v) => Some(v),
        Err(_) => None,
    }
}

/// `serde_json::from_slice::<Value>`: the value that `bytes` hold, or the text of
/// the parse error. The contract claims that success, the value and the error's text
/// depend on the bytes alone.
#[verifier::external_body]
pub(crate) fn parse_json_bytes(bytes: &[u8]) -> (r: Result<serde_json::Value, String>)
    ensures
        r is Ok == json_bytes_accepted(bytes@),
        r is Ok ==> r->Ok_0 == json_bytes_value(bytes@),
        r is Err ==> r->Err_0@ == json_bytes_error(bytes@),
{
    match serde_json::from_slice::<serde_json::Value>(bytes) {
        Ok(v) => Ok(v),
        Err(e) => Err(e.to_string()),
    }
}

/// `serde_json::to_vec`: the compact JSON text of a value. The contract claims that it
/// succeeds on every `Value` (it fails only where a `Serialize` impl fails or a map has
/// keys that are no strings, neither of which a `Value` has, and writing into a `Vec`
/// does not fail), and that the bytes depend on the value alone.
#[verifier::external_body]
pub(crate) fn encode_json(value: &serde_json::Value) -> (r: Result<Vec<u8>, String>)
    ensures
        r is Ok,
        r is Ok ==> r->Ok_0@ == json_encoding(*value),
{
    match serde_json::to_vec(value) {
        Ok(bytes) => Ok(bytes),
        Err(e) => Err(e.to_string()),
    }
}

/// `Value::get` with a key: a copy of the member named `key` where the value is an
/// object that has one. The contract claims that it depends on the value and the key
/// alone.
#[verifier::external_body]
pub(crate) fn json_member(value: &serde_json::Value, key: &str) -> (r: Option<serde_json::Value>)
    ensures
        r == json_member_of(*value, key@),
{
    value.get(key).cloned()
}

/// `Value::as_str`: the text of a JSON string. The contract claims that it depends on
/// the value alone.
#[verifier::external_body]
pub(crate) fn json_string(value: &serde_json::Value) -> (r: Option<String>)
    ensures
        match r {
            Some(s) => json_string_of(*value) == Some(s@),
            None => json_string_of(*value) is None,
        },
{
    match value.as_str() {
        Some(s) => Some(s.to_string()),
        None => None,
    }
}

/// `PartialEq` of `Value`: whether two values are equal. The contract claims that it
/// depends on the two values alone.
#[verifier::external_body]
pub(crate) fn json_equal(a: &serde_json::Value, b: &serde_json::Value) -> (r: bool)
    ensures
        r == json_values_equal(*a, *b),
{
    a == b
}

} // verus!
