//! JSON text, read by `serde_json`.
//!
//! What the crate makes of a text is not restated here. Its results carry
//! names, so that contracts can speak of them.
use vstd::prelude::*;

verus! {

/// A JSON value as `serde_json` holds it. Nothing inside it is visible to proofs.
#[verifier::external_type_specification]
#[verifier::external_body]
pub struct ExJsonValue(serde_json::Value);

/// The value that `serde_json::from_str` reads from `text`, `None` where it
/// reports an error.
pub uninterp spec fn parsed_json(text: Seq<char>) -> Option<serde_json::Value>;

/// The member of `value` that `serde_json::Value::get` finds under `key`.
pub uninterp spec fn json_member(value: serde_json::Value, key: Seq<char>) -> Option<
    serde_json::Value,
>;

/// The bit pattern of what `serde_json::Value::as_f64` makes of `value`.
pub uninterp spec fn json_number_bits(value: serde_json::Value) -> Option<u64>;

/// `serde_json::from_str` into a `serde_json::Value`. The contract claims that
/// the outcome, value or error, depends on the text alone.
#[verifier::external_body]
pub(crate) fn parse_json(text: &str) -> (r: Option<serde_json::Value>)
    ensures
        r == parsed_json(text@),
{
    serde_json::from_str(text).ok()
}

/// `serde_json::Value::get` with a string index. The contract claims that the
/// outcome depends on the value and the key alone.
#[verifier::external_body]
pub(crate) fn member<'a>(value: &'a serde_json::Value, key: &str) -> (r: Option<
    &'a serde_json::Value,
>)
    ensures
        r is Some <==> json_member(*value, key@) is Some,
        r is Some ==> *r->0 == json_member(*value, key@)->0,
{
    value.get(key)
}

/// `serde_json::Value::as_f64`, handed on as a bit pattern. The contract claims
/// that the outcome depends on the value alone.
#[verifier::external_body]
pub(crate) fn number_bits(value: &serde_json::Value) -> (r: Option<u64>)
    ensures
        r == json_number_bits(*value),
{
    value.as_f64().map(|number| number.to_bits())
}

} // verus!
