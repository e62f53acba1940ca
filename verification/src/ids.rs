use vstd::prelude::*;

verus! {

/// Relies on uuid's `Uuid::new_v4`: a random 128-bit identifier, handed
/// back as its plain integer value. The value is random, so nothing is
/// assumed of it; every caller checks for a collision and reports it as a
/// storage error rather than trusting freshness.
#[verifier::external_body]
pub fn fresh_id() -> u128 {
    uuid::Uuid::new_v4().as_u128()
}

} // verus!
