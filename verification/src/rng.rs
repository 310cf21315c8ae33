use vstd::prelude::*;

verus! {

/// Relies on `rand::random_range`: a draw from the half-open range `0..n` is
/// always strictly below `n`. The precondition keeps the range non-empty, so
/// the call cannot panic. Nothing more is assumed of the draw: every caller
/// must cope with any value below the bound.
#[verifier::external_body]
pub(crate) fn rand_below(n: u32) -> (r: u32)
    requires
        n >= 1,
    ensures
        r < n,
{
    rand::random_range(0..n)
}

} // verus!
