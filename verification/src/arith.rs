//! Signed arithmetic that stops at the ends of its range.

use vstd::prelude::*;

verus! {

/// Saturating arithmetic on `i64`.
pub struct Saturating {}

impl Saturating {
    /// The nearest `i64` to a number.
    pub open spec fn to_i64(value: int) -> i64 {
        if value < i64::MIN {
            i64::MIN
        } else if value > i64::MAX {
            i64::MAX
        } else {
            value as i64
        }
    }

    /// A number in the range is itself, and any other is the end of the range on
    /// its side.
    pub proof fn law_nearest(value: int)
        ensures
            i64::MIN <= value <= i64::MAX ==> Self::to_i64(value) == value,
            value < i64::MIN ==> Self::to_i64(value) == i64::MIN,
            value > i64::MAX ==> Self::to_i64(value) == i64::MAX,
    {
    }

    /// The `i64` that is nearest to a wider number.
    pub fn narrow(value: i128) -> (nearest: i64)
        ensures
            nearest == Self::to_i64(value as int),
    {
        if value < i64::MIN as i128 {
            i64::MIN
        } else if value > i64::MAX as i128 {
            i64::MAX
        } else {
            value as i64
        }
    }
}

} // verus!
