//! Epsilon-comparison and sign tests on fixed-point reals.

use vstd::prelude::*;
use crate::fixed::{mag, EPS};

verus! {

/// Three-way epsilon-comparison: 0 when the two reals differ by less than
/// `EPS`, otherwise the sign of `a - b`.
pub open spec fn cmp_v(a: int, b: int) -> int {
    if mag(a - b) < EPS {
        0
    } else if a > b {
        1
    } else {
        -1
    }
}

/// Whether two reals carry the same sign, zero counting as positive (the
/// fixed-point stand-in for the float sign-bit test, where this library's
/// sole zero is the positive one).
pub open spec fn same_sign_v(a: int, b: int) -> bool {
    (a >= 0 && b >= 0) || (a < 0 && b < 0)
}

/// Epsilon-comparison of two reals; returns -1, 0 or 1.
pub fn cmp(a: i64, b: i64) -> (r: i64)
    ensures
        r == cmp_v(a as int, b as int),
{
    let d: i128 = a as i128 - b as i128;
    let dm: i128 = if d < 0 {
        -d
    } else {
        d
    };
    if dm < EPS as i128 {
        0
    } else if a > b {
        1
    } else {
        -1
    }
}

/// Sign-equality of two reals, zero counting as positive.
pub fn same_sign(a: i64, b: i64) -> (r: bool)
    ensures
        r == same_sign_v(a as int, b as int),
{
    (a >= 0 && b >= 0) || (a < 0 && b < 0)
}

} // verus!
