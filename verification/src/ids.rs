//! Agent identifiers, drawn from the `uuid` crate.

use vstd::prelude::*;

verus! {

/// `uuid::Uuid` carried opaquely: the engine never reads its value, it only
/// tags each agent with one.
#[verifier::external_type_specification]
#[verifier::external_body]
pub struct ExUuid(uuid::Uuid);

/// Relies on `uuid::Uuid::new_v4`: a randomly generated version-4 UUID.
/// The value depends on the random source, so nothing is promised of it.
#[verifier::external_body]
pub(crate) fn fresh_agent_id() -> uuid::Uuid {
    uuid::Uuid::new_v4()
}

} // verus!
