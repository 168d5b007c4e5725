//! Fresh identifiers for profiles, nodes and bands.

use vstd::prelude::*;

verus! {

/// Draws a fresh random identifier: `uuid::Uuid::new_v4`, read as its
/// big-endian 128-bit value (`Uuid::as_u128`).
///
/// The value comes from the operating system's random source, so nothing is
/// stated of it; every caller is verified for whatever value comes back.
#[verifier::external_body]
pub(crate) fn fresh_id() -> u128 {
    uuid::Uuid::new_v4().as_u128()
}

} // verus!
