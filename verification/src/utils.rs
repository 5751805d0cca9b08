use vstd::prelude::*;

verus! {

/// Clamp `input` into the inclusive range `[min, max]`.
pub fn clamp(input: i64, min: i64, max: i64) -> (r: i64)
    requires
        min <= max,
    ensures
        min <= r <= max,
        r == if input < min {
            min
        } else if input > max {
            max
        } else {
            input
        },
{
    if input < min {
        min
    } else if input > max {
        max
    } else {
        input
    }
}

/// A uniform draw from the half-open range `[lo, hi)`.
pub fn random(lo: i64, hi: i64) -> (r: i64)
    requires
        lo < hi,
    ensures
        lo <= r < hi,
{
    crate::rng::rand_range(lo, hi)
}

} // verus!
