use vstd::prelude::*;

verus! {

#[verifier::external_type_specification]
#[verifier::external_body]
pub struct ExUuid(uuid::Uuid);

/// Calls `uuid::Uuid::new_v4`, which returns a freshly drawn random version-4 id.
/// The value depends on the random source, so nothing is stated of it.
#[verifier::external_body]
pub(crate) fn new_uuid() -> (id: uuid::Uuid) {
    uuid::Uuid::new_v4()
}

/// `uuid::Uuid` derives `Clone` and `Copy`; its `clone` returns the same id.
pub assume_specification[ <uuid::Uuid as core::clone::Clone>::clone ](u: &uuid::Uuid) -> (r: uuid::Uuid)
    ensures
        r == *u,
;

} // verus!
