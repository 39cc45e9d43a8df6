//! The one randomness source of the library: a uniform draw of a stored
//! fraction in `[0, 1)`.  Everything stochastic in the kernel is built from
//! this wrapper, so a deterministic source could replace it in one place.

use vstd::prelude::*;
use crate::fx::{Fx, SCALE};

verus! {

/// Relies on rand::random_range: a uniform draw from the given range, taken
/// from the thread-local generator; the result lies inside the range, and the
/// range given here is never empty.
#[verifier::external_body]
pub fn random_fraction() -> (r: Fx)
    ensures
        0 <= r@ < SCALE,
{
    Fx { v: rand::random_range(0u32..1_000_000u32) as i128 }
}

} // verus!
