use vstd::prelude::*;
use vstd::std_specs::cmp::{PartialOrdIs, PartialOrdSpec};

verus! {

/// The value of `value` limited to the range from `min` to `max`: `min`
/// for a value below it, else `max` for a value above that, else the value
/// itself. A value that compares with neither bound stays as it is.
pub open spec fn clamped<T: PartialOrd>(value: T, min: T, max: T) -> T {
    if value.is_lt(&min) {
        min
    } else if value.is_gt(&max) {
        max
    } else {
        value
    }
}

/// Limits `value` to the range from `min` to `max`.
pub fn clamp<T>(value: T, min: T, max: T) -> (result: T) where T: PartialOrd
    ensures
        T::obeys_partial_cmp_spec() ==> result == clamped(value, min, max),
        result == value || result == min || result == max,
{
    if value < min {
        return min;
    } else if value > max {
        return max;
    } else {
        value
    }
}

/// For whole numbers the limited value lies in the range, whenever the
/// range is not empty, and a value inside the range stays as it is.
pub proof fn lemma_clamped_lies_in_range(value: i64, min: i64, max: i64)
    requires
        min <= max,
    ensures
        min <= clamped(value, min, max) <= max,
        min <= value <= max ==> clamped(value, min, max) == value,
{
}

} // verus!
