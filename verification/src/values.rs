//! The opaque payload type carried by the log service.
//!
//! Log entries are arbitrary JSON values: the coordinators never look inside
//! one, they only store it and hand it back. The type is therefore declared
//! opaquely and the only operation taken on trust is cloning.

use vstd::prelude::*;

verus! {

#[verifier::external_type_specification]
#[verifier::external_body]
pub struct ExValue(serde_json::Value);

/// Relies on `<serde_json::Value as Clone>::clone`: the clone is a deep copy
/// equal to the original value.
#[verifier::external_body]
pub(crate) fn clone_value(v: &serde_json::Value) -> (r: serde_json::Value)
    ensures
        r == *v,
{
    v.clone()
}

} // verus!
