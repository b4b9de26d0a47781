//! The random source threaded through graph construction and the ant
//! colony engine: a seeded `StdRng`, opaque to verification.  Every claim
//! about the library holds for every sequence of drawn values.

use vstd::prelude::*;

verus! {

#[verifier::external_type_specification]
#[verifier::external_body]
pub struct ExStdRng(rand::rngs::StdRng);

/// Relies on rand's `Rng::gen_range` over `0..n`: it returns a value of
/// the range, and panics only on an empty range, which the precondition
/// rules out.  Nothing more is assumed of the drawn value.
#[verifier::external_body]
pub(crate) fn rand_below(rng: &mut rand::rngs::StdRng, n: u128) -> (r: u128)
    requires
        n >= 1,
    ensures
        r < n,
{
    rand::Rng::gen_range(rng, 0..n)
}

} // verus!
