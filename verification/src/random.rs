//! Pseudo-random numbers for the initial weights.

use vstd::prelude::*;

verus! {

/// The bit pattern of the number that `merand48::merand48` derives from a
/// seed.
pub uninterp spec fn merand48_bits(seed: u64) -> u32;

/// Calls `merand48::merand48` and hands back the bit pattern of its result.
/// The function computes its result from the seed alone, by integer
/// arithmetic and one subtraction; the contract names that result.
#[verifier::external_body]
pub(crate) fn merand48(seed: u64) -> (r: u32)
    ensures
        r == merand48_bits(seed),
{
    merand48::merand48(seed).to_bits()
}

} // verus!
