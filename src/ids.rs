//! Fresh identities for pools and players.
use vstd::prelude::*;

verus! {

/// Relies on `uuid::Uuid::new_v4`: a random identity drawn from the system's
/// generator, with the version nibble set to 4 and the variant bits to `10`;
/// `as_u128` reads its sixteen bytes big-endian. It panics only when the
/// system has no random bytes to give.
#[verifier::external_body]
pub(crate) fn random_uuid() -> (r: u128)
    ensures
        r & 0xF000_C000_0000_0000_0000u128 == 0x4000_8000_0000_0000_0000u128,
{
    uuid::Uuid::new_v4().as_u128()
}

} // verus!
