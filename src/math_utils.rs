//! Small numeric helpers.

use vstd::prelude::*;

verus! {

/// The value nearest to `val` in the closed interval `[min, max]`.
pub open spec fn clamped(val: int, min: int, max: int) -> int {
    if val > max {
        max
    } else if val < min {
        min
    } else {
        val
    }
}

/// Limits `val` to the closed interval `[min, max]`.
pub fn clamp(val: i64, min: i64, max: i64) -> (r: i64)
    requires
        min <= max,
    ensures
        r == clamped(val as int, min as int, max as int),
        min <= r <= max,
{
    if val > max {
        max
    } else if val < min {
        min
    } else {
        val
    }
}

} // verus!
