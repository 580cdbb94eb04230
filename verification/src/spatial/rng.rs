use rand::Rng;
use vstd::prelude::*;

verus! {

/// The thread-local generator of the `rand` crate, carried through as an opaque value.
#[verifier::external_type_specification]
#[verifier::external_body]
pub struct ExThreadRng(rand::rngs::ThreadRng);

/// Calls `rand::Rng::gen_range(low, high)` on the generator. The draw lies in the
/// half-open range `[low, high)`; which value of the range comes back is left open.
/// The outside function panics when `low >= high`, which the precondition rules out.
#[verifier::external_body]
pub(crate) fn gen_range_usize(rng: &mut rand::rngs::ThreadRng, low: usize, high: usize) -> (drawn: usize)
    requires
        low < high,
    ensures
        low <= drawn < high,
{
    rng.gen_range(low, high)
}

} // verus!
