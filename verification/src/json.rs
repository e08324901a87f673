//! JSON values carried through the runtime without being interpreted.

use vstd::prelude::*;

verus! {

/// `serde_json::Value`, carried opaquely: the runtime never reads inside it.
#[verifier::external_type_specification]
#[verifier::external_body]
pub struct ExJsonValue(serde_json::Value);

/// `<serde_json::Value as Clone>::clone` copies the value.
pub assume_specification[ <serde_json::Value as core::clone::Clone>::clone ](
    v: &serde_json::Value,
) -> (r: serde_json::Value)
    ensures
        r == *v,
;

/// Builds `serde_json::Value::Object` over an empty `serde_json::Map`
/// (what `json!({})` expands to). Nothing is stated of the opaque value.
#[verifier::external_body]
pub(crate) fn empty_json_object() -> serde_json::Value {
    serde_json::Value::Object(serde_json::Map::new())
}

} // verus!
