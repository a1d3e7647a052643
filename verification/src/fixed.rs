//! Fixed-point real arithmetic.
//!
//! Every real number in this library is carried as an `i64` count of units
//! of `1/ONE`.  Sums, products and quotients are truncated toward zero and
//! saturate at the `i64` bounds; saturation plays the role that overflow to
//! the infinities plays for floating point, and in particular it preserves
//! the sign of the exact result.

use vstd::prelude::*;
use vstd::arithmetic::div_mod::*;

verus! {

/// Number of fixed-point units in 1.0 (so one unit is 1e-8).
pub const ONE: i64 = 100_000_000;

/// Tolerance of epsilon-equality: 1e-6, in units.
pub const EPS: i64 = 100;

/// Large finite sentinel standing in for an unbounded domain end: the
/// real number `i32::MAX / 2`, that is 1073741823.5 units.
pub const INF: i64 = 107_374_182_350_000_000;

/// Magnitude of an integer.
pub open spec fn mag(x: int) -> int {
    if x >= 0 {
        x
    } else {
        -x
    }
}

/// Clamp an integer into the `i64` range.
pub open spec fn sat64(x: int) -> int {
    if x > i64::MAX {
        i64::MAX as int
    } else if x < i64::MIN {
        i64::MIN as int
    } else {
        x
    }
}

/// Quotient rounded toward zero, the rounding of Rust's `/` on machine
/// integers (spec-mode `/` is Euclidean, hence the detour over magnitudes).
pub open spec fn div_trunc(a: int, b: int) -> int {
    if (a >= 0) == (b >= 0) {
        mag(a) / mag(b)
    } else {
        -(mag(a) / mag(b))
    }
}

/// Saturating fixed-point sum.
pub open spec fn sat_add(a: int, b: int) -> int {
    sat64(a + b)
}

/// Saturating, truncating fixed-point product.
pub open spec fn sat_mul(a: int, b: int) -> int {
    sat64(div_trunc(a * b, ONE as int))
}

/// Saturating, truncating fixed-point quotient (defined for b != 0).
pub open spec fn sat_div(a: int, b: int) -> int {
    sat64(div_trunc(a * ONE, b))
}

/// Clamp an `i128` into the `i64` range.
pub(crate) fn clamp64(x: i128) -> (r: i64)
    ensures
        r as int == sat64(x as int),
{
    if x > i64::MAX as i128 {
        i64::MAX
    } else if x < i64::MIN as i128 {
        i64::MIN
    } else {
        x as i64
    }
}

/// Truncating division on `i128`, via sign and magnitude.
pub(crate) fn div_trunc_i128(a: i128, b: i128) -> (r: i128)
    requires
        b != 0,
        a != i128::MIN,
        b != i128::MIN,
    ensures
        r as int == div_trunc(a as int, b as int),
        mag(r as int) <= mag(a as int),
{
    let am: u128 = if a < 0 {
        (-a) as u128
    } else {
        a as u128
    };
    let bm: u128 = if b < 0 {
        (-b) as u128
    } else {
        b as u128
    };
    let qm: u128 = am / bm;
    proof {
        lemma_div_is_ordered_by_denominator(am as int, 1, bm as int);
        lemma_div_basics(am as int);
    }
    if (a < 0) != (b < 0) {
        -(qm as i128)
    } else {
        qm as i128
    }
}

/// Saturating fixed-point sum of two reals.
pub fn fx_add(a: i64, b: i64) -> (r: i64)
    ensures
        r as int == sat_add(a as int, b as int),
{
    clamp64(a as i128 + b as i128)
}

/// Saturating fixed-point product of two reals.
pub fn fx_mul(a: i64, b: i64) -> (r: i64)
    ensures
        r as int == sat_mul(a as int, b as int),
{
    proof {
        assert(i64::MIN * i64::MIN >= a as int * b as int >= i64::MAX * i64::MIN) by (nonlinear_arith)
            requires
                i64::MIN <= a <= i64::MAX,
                i64::MIN <= b <= i64::MAX,
        ;
    }
    let p: i128 = a as i128 * b as i128;
    clamp64(div_trunc_i128(p, ONE as i128))
}

/// Saturating fixed-point quotient of two reals.
pub fn fx_div(a: i64, b: i64) -> (r: i64)
    requires
        b != 0,
    ensures
        r as int == sat_div(a as int, b as int),
{
    proof {
        assert(i64::MIN * (ONE as int) <= a as int * (ONE as int) <= i64::MAX * (ONE as int))
            by (nonlinear_arith)
            requires
                i64::MIN <= a <= i64::MAX,
        ;
    }
    let n: i128 = a as i128 * ONE as i128;
    clamp64(div_trunc_i128(n, b as i128))
}

/// Saturating magnitude of a real (`|i64::MIN|` clamps to `i64::MAX`).
pub fn fx_abs(a: i64) -> (r: i64)
    ensures
        r as int == sat64(mag(a as int)),
{
    if a == i64::MIN {
        i64::MAX
    } else if a < 0 {
        -a
    } else {
        a
    }
}

/// Midpoint of two reals, rounded toward zero.
pub fn fx_midpoint(a: i64, b: i64) -> (r: i64)
    ensures
        r as int == div_trunc(a + b, 2),
        a <= b ==> a <= r <= b,
{
    let s: i128 = a as i128 + b as i128;
    let q: i128 = div_trunc_i128(s, 2);
    proof {
        if a <= b {
            lemma_midpoint_between(a as int, b as int);
        } else {
            lemma_midpoint_between(b as int, a as int);
        }
    }
    q as i64
}

/// A truncated half lies between the two halved values.
proof fn lemma_midpoint_between(a: int, b: int)
    requires
        a <= b,
    ensures
        a <= div_trunc(a + b, 2) <= b,
{
    let s = a + b;
    if s >= 0 {
        assert(div_trunc(s, 2) == s / 2);
        lemma_div_is_ordered(2 * a, s, 2);
        lemma_div_is_ordered(s, 2 * b, 2);
        lemma_div_multiples_vanish(a, 2);
        lemma_div_multiples_vanish(b, 2);
    } else {
        assert(div_trunc(s, 2) == -((-s) / 2));
        lemma_div_is_ordered(-s, 2 * (-a), 2);
        lemma_div_is_ordered(2 * (-b), -s, 2);
        lemma_div_multiples_vanish(-a, 2);
        lemma_div_multiples_vanish(-b, 2);
    }
}

} // verus!
