//! Filter meshes.
//!
//! The biquad filters themselves compute in floating point and live with the
//! application.

use vstd::prelude::*;

verus! {

/// A mesh of biquad filters; it has no parts yet.
pub struct BiquadMesh {}

} // verus!
