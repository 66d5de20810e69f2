//! Wrapping a coordinate around the edges of a grid.

use vstd::prelude::*;

verus! {

/// What `wrap_val` returns: `value` itself when wrapping is off or `value`
/// lies within `min..=max`, the opposite end when it has left the range.
pub open spec fn spec_wrap_val(should_wrap: bool, value: int, min: int, max: int) -> int {
    if !should_wrap {
        value
    } else if value < min {
        max
    } else if value > max {
        min
    } else {
        value
    }
}

/// Wraps `value` around `min` and `max`. With `should_wrap` false nothing is
/// done. Otherwise a value below `min` becomes `max`, one above `max`
/// becomes `min`.
pub fn wrap_val(should_wrap: bool, value: i32, min: i32, max: i32) -> (r: i32)
    ensures
        r as int == spec_wrap_val(should_wrap, value as int, min as int, max as int),
{
    if !should_wrap {
        value
    } else if value < min {
        max
    } else if value > max {
        min
    } else {
        value
    }
}

/// With wrapping on and a non-empty range, the result lies in the range.
pub proof fn lemma_wrap_in_range(value: int, min: int, max: int)
    requires
        min <= max,
    ensures
        min <= spec_wrap_val(true, value, min, max) <= max,
{
}

} // verus!
