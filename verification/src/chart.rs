//! Auto-ranging over the sampled x-domain and the two-way affine mapping
//! between the plotted area's pixels and mathematical coordinates.

use vstd::prelude::*;
use vstd::arithmetic::div_mod::{
    lemma_div_is_ordered, lemma_div_multiples_vanish, lemma_div_pos_is_pos,
    lemma_fundamental_div_mod, lemma_fundamental_div_mod_converse,
    lemma_mod_division_less_than_divisor,
};
use vstd::arithmetic::mul::{lemma_mul_inequality, lemma_mul_nonnegative};
use crate::fixed::{div_trunc, div_trunc_i128, fx_abs, mag, sat64};
use crate::polynomial::{eval, to_ints, Polynomial};

verus! {

/// Fixed mathematical x-extent of the plot, `[-10, 10]` by policy.
pub const X_LO: i64 = -1_000_000_000;

/// Upper end of the fixed x-extent.
pub const X_HI: i64 = 1_000_000_000;

/// Number of sampling grid points across the x-domain (step 0.02).
pub const SAMPLES: usize = 1001;

/// The `i`-th sampling abscissa, running from -10 to 10.
pub open spec fn sample_x(i: int) -> int {
    (i - 500) * 2_000_000
}

/// Smaller of two integers.
pub open spec fn min2(a: int, b: int) -> int {
    if a <= b {
        a
    } else {
        b
    }
}

/// Larger of two integers.
pub open spec fn max2(a: int, b: int) -> int {
    if a >= b {
        a
    } else {
        b
    }
}

/// Least sampled value of the polynomial on grid points `0..=i`.
pub open spec fn min_to(c: Seq<int>, i: int) -> int
    decreases i,
{
    if i <= 0 {
        eval(c, sample_x(0))
    } else {
        min2(min_to(c, i - 1), eval(c, sample_x(i)))
    }
}

/// Greatest sampled value of the polynomial on grid points `0..=i`.
pub open spec fn max_to(c: Seq<int>, i: int) -> int
    decreases i,
{
    if i <= 0 {
        eval(c, sample_x(0))
    } else {
        max2(max_to(c, i - 1), eval(c, sample_x(i)))
    }
}

/// Half-height of the symmetric y-window: the largest magnitude any
/// sampled value of either curve reaches, clamped into the real range.
pub open spec fn y_half_range(c: Seq<int>, p: Option<Seq<int>>) -> int {
    let lo = match p {
        Option::Some(pc) => min2(min_to(c, SAMPLES - 1), min_to(pc, SAMPLES - 1)),
        Option::None => min_to(c, SAMPLES - 1),
    };
    let hi = match p {
        Option::Some(pc) => max2(max_to(c, SAMPLES - 1), max_to(pc, SAMPLES - 1)),
        Option::None => max_to(c, SAMPLES - 1),
    };
    sat64(max2(mag(lo), mag(hi)))
}

/// Right edge of the plotted area on a surface `width` pixels wide:
/// 20 pixels of margin, the whole clamped into the `i32` pixel space.
pub open spec fn px_right(width: int) -> int {
    let w = min2(width, i32::MAX as int);
    max2(w - 20, 0)
}

/// Bottom edge of the plotted area on a surface `height` pixels tall:
/// 20 pixels of margin and 30 for the x-label strip.
pub open spec fn px_bottom(height: int) -> int {
    let h = min2(height, i32::MAX as int);
    max2(h - 50, 0)
}

/// Result of a pixel-to-coordinates conversion.
#[derive(Clone, Copy, Debug)]
pub struct Point {
    pub x: i64,
    pub y: i64,
}

/// The immutable value behind the pixel/coordinate conversion: the
/// mathematical window `[x_min, x_max] x [y_min, y_max]` and the pixel
/// rectangle `[left, right] x [top, bottom]` it is drawn into.
#[derive(Clone, Copy, Debug)]
pub struct Chart {
    pub x_min: i64,
    pub x_max: i64,
    pub y_min: i64,
    pub y_max: i64,
    pub left: i32,
    pub top: i32,
    pub right: i32,
    pub bottom: i32,
}

impl Chart {
    /// Both the window and the pixel rectangle are non-degenerate, so the
    /// affine maps below are defined.
    pub open spec fn wf(self) -> bool {
        self.left < self.right && self.top < self.bottom && self.x_min < self.x_max
            && self.y_min < self.y_max
    }

    /// The pixel lies in the plotted rectangle.
    pub open spec fn in_area(self, px: int, py: int) -> bool {
        self.left <= px <= self.right && self.top <= py <= self.bottom
    }

    /// Mathematical x under the pixel column `px`.
    pub open spec fn coord_x(self, px: int) -> int {
        self.x_min + div_trunc((px - self.left) * (self.x_max - self.x_min), self.right - self.left)
    }

    /// Mathematical y under the pixel row `py` (pixel rows grow downward).
    pub open spec fn coord_y(self, py: int) -> int {
        self.y_max - div_trunc((py - self.top) * (self.y_max - self.y_min), self.bottom - self.top)
    }

    /// Pixel column of the mathematical x `mx`: the forward transform.
    pub open spec fn pixel_x(self, mx: int) -> int {
        self.left + div_trunc((mx - self.x_min) * (self.right - self.left), self.x_max - self.x_min)
    }

    /// Pixel row of the mathematical y `my`.
    pub open spec fn pixel_y(self, my: int) -> int {
        self.top + div_trunc((self.y_max - my) * (self.bottom - self.top), self.y_max - self.y_min)
    }
}

/// For `0 <= d <= w` the scaled quotient `d * x / w` stays within `[0, x]`.
proof fn lemma_scale_bounds(d: int, w: int, x: int)
    requires
        0 <= d <= w,
        0 < w,
        0 <= x,
    ensures
        0 <= div_trunc(d * x, w) <= x,
{
    lemma_mul_nonnegative(d, x);
    assert(div_trunc(d * x, w) == (d * x) / w);
    lemma_div_pos_is_pos(d * x, w);
    lemma_mul_inequality(d, w, x);
    lemma_div_is_ordered(d * x, w * x, w);
    lemma_div_multiples_vanish(x, w);
}

/// Least and greatest value of the polynomial over the sampling grid.
fn sample_min_max(p: &Polynomial) -> (r: (i64, i64))
    ensures
        r.0 as int == min_to(p@, SAMPLES - 1),
        r.1 as int == max_to(p@, SAMPLES - 1),
{
    let first = p.get_image(X_LO);
    let mut lo = first;
    let mut hi = first;
    for i in 1..SAMPLES
        invariant
            lo as int == min_to(p@, i - 1),
            hi as int == max_to(p@, i - 1),
    {
        let xi: i64 = (i as i64 - 500) * 2_000_000;
        let y = p.get_image(xi);
        if y < lo {
            lo = y;
        }
        if y > hi {
            hi = y;
        }
    }
    (lo, hi)
}

impl Chart {
    /// Build the chart mapping for a polynomial, overlaying an optional
    /// previous polynomial: both are sampled across the fixed x-domain,
    /// the y-window is made symmetric about zero from the largest sampled
    /// magnitude, and the plotted pixel rectangle keeps a 20-pixel margin
    /// plus a 30-pixel label strip at the left and at the bottom.
    pub fn polynomial(
        coefficients: Vec<i64>,
        prev_coefficients: Option<Vec<i64>>,
        width: u32,
        height: u32,
    ) -> (r: Chart)
        ensures
            r.x_min == X_LO && r.x_max == X_HI,
            r.y_max as int == y_half_range(
                to_ints(coefficients@),
                match prev_coefficients {
                    Option::Some(p) => Option::Some(to_ints(p@)),
                    Option::None => Option::None,
                },
            ),
            r.y_min == -r.y_max,
            r.left == 50 && r.top == 20,
            r.right as int == px_right(width as int),
            r.bottom as int == px_bottom(height as int),
    {
        let p = Polynomial::from_coefficients(coefficients);
        let (mut lo, mut hi) = sample_min_max(&p);
        if let Option::Some(pc) = prev_coefficients {
            let pp = Polynomial::from_coefficients(pc);
            let (lo2, hi2) = sample_min_max(&pp);
            if lo2 < lo {
                lo = lo2;
            }
            if hi2 > hi {
                hi = hi2;
            }
        }
        let a_lo = fx_abs(lo);
        let a_hi = fx_abs(hi);
        let half = if a_lo >= a_hi {
            a_lo
        } else {
            a_hi
        };
        let wcap: u32 = if width > i32::MAX as u32 {
            i32::MAX as u32
        } else {
            width
        };
        let hcap: u32 = if height > i32::MAX as u32 {
            i32::MAX as u32
        } else {
            height
        };
        let right: i32 = if wcap < 20 {
            0
        } else {
            (wcap - 20) as i32
        };
        let bottom: i32 = if hcap < 50 {
            0
        } else {
            (hcap - 50) as i32
        };
        Chart {
            x_min: X_LO,
            x_max: X_HI,
            y_min: -half,
            y_max: half,
            left: 50,
            top: 20,
            right,
            bottom,
        }
    }

    /// Convert a pixel of the rendering surface to the mathematical
    /// coordinates under it; pixels outside the plotted area, or a
    /// degenerate chart, give nothing.
    pub fn coord(&self, x: i32, y: i32) -> (r: Option<Point>)
        ensures
            r is Some <==> self.wf() && self.in_area(x as int, y as int),
            r matches Option::Some(pt) ==> pt.x as int == self.coord_x(x as int) && pt.y as int
                == self.coord_y(y as int),
    {
        if !(self.left < self.right && self.top < self.bottom && self.x_min < self.x_max
            && self.y_min < self.y_max) {
            return Option::None;
        }
        if !(self.left <= x && x <= self.right && self.top <= y && y <= self.bottom) {
            return Option::None;
        }
        let xspan: i128 = self.x_max as i128 - self.x_min as i128;
        let yspan: i128 = self.y_max as i128 - self.y_min as i128;
        let wspan: i128 = self.right as i128 - self.left as i128;
        let hspan: i128 = self.bottom as i128 - self.top as i128;
        proof {
            lemma_span_product(xspan as int, x as int - self.left as int);
            lemma_span_product(yspan as int, y as int - self.top as int);
        }
        let qx: i128 = div_trunc_i128((x as i128 - self.left as i128) * xspan, wspan);
        let qy: i128 = div_trunc_i128((y as i128 - self.top as i128) * yspan, hspan);
        proof {
            lemma_scale_bounds(x as int - self.left as int, wspan as int, xspan as int);
            lemma_scale_bounds(y as int - self.top as int, hspan as int, yspan as int);
        }
        let mx: i64 = (self.x_min as i128 + qx) as i64;
        let my: i64 = (self.y_max as i128 - qy) as i64;
        Option::Some(Point { x: mx, y: my })
    }

    /// The forward transform: the pixel a mathematical coordinate pair is
    /// drawn at, or nothing when it lies outside the window (or the chart
    /// is degenerate).
    pub fn pixel_of(&self, x: i64, y: i64) -> (r: Option<(i32, i32)>)
        ensures
            r is Some <==> self.wf() && self.x_min <= x <= self.x_max && self.y_min <= y
                <= self.y_max,
            r matches Option::Some(p) ==> p.0 as int == self.pixel_x(x as int) && p.1 as int
                == self.pixel_y(y as int),
    {
        if !(self.left < self.right && self.top < self.bottom && self.x_min < self.x_max
            && self.y_min < self.y_max) {
            return Option::None;
        }
        if !(self.x_min <= x && x <= self.x_max && self.y_min <= y && y <= self.y_max) {
            return Option::None;
        }
        let xspan: i128 = self.x_max as i128 - self.x_min as i128;
        let yspan: i128 = self.y_max as i128 - self.y_min as i128;
        let wspan: i128 = self.right as i128 - self.left as i128;
        let hspan: i128 = self.bottom as i128 - self.top as i128;
        proof {
            lemma_span_product(x as int - self.x_min as int, wspan as int);
            lemma_span_product(self.y_max as int - y as int, hspan as int);
        }
        let qx: i128 = div_trunc_i128((x as i128 - self.x_min as i128) * wspan, xspan);
        let qy: i128 = div_trunc_i128((self.y_max as i128 - y as i128) * hspan, yspan);
        proof {
            lemma_scale_bounds(x as int - self.x_min as int, xspan as int, wspan as int);
            lemma_scale_bounds(self.y_max as int - y as int, yspan as int, hspan as int);
        }
        let px: i32 = (self.left as i128 + qx) as i32;
        let py: i32 = (self.top as i128 + qy) as i32;
        Option::Some((px, py))
    }
}

/// The product of a span and a pixel offset stays far inside `i128`.
proof fn lemma_span_product(a: int, b: int)
    requires
        0 <= a < 0x2_0000_0000_0000_0000,
        0 <= b < 0x2_0000_0000,
    ensures
        0 <= a * b < 0x4_0000_0000_0000_0000_0000_0000,
        0 <= b * a < 0x4_0000_0000_0000_0000_0000_0000,
{
    lemma_mul_nonnegative(a, b);
    assert(a * b < 0x4_0000_0000_0000_0000_0000_0000) by (nonlinear_arith)
        requires
            0 <= a < 0x2_0000_0000_0000_0000,
            0 <= b < 0x2_0000_0000,
    ;
}

/// One-dimensional round trip: scaling a pixel offset `d` of a `w`-pixel
/// span into a window `x` units wide and back again loses at most one
/// pixel, provided the window is at least as fine as the pixel grid.
proof fn lemma_round_trip_1d(d: int, w: int, x: int)
    requires
        0 < d < w,
        w <= x,
    ensures
        d - 1 <= div_trunc(div_trunc(d * x, w) * w, x) <= d,
{
    lemma_mul_nonnegative(d, x);
    let q = (d * x) / w;
    assert(div_trunc(d * x, w) == q);
    lemma_div_pos_is_pos(d * x, w);
    lemma_mul_nonnegative(q, w);
    assert(div_trunc(q * w, x) == (q * w) / x);
    lemma_fundamental_div_mod(d * x, w);
    let r = (d * x) % w;
    lemma_mod_division_less_than_divisor(d * x, w);
    assert(q * w == d * x - r) by (nonlinear_arith)
        requires
            d * x == w * q + r,
    ;
    if r == 0 {
        assert(q * w == d * x);
        assert(q * w == x * d) by (nonlinear_arith)
            requires
                q * w == d * x,
        ;
        lemma_div_multiples_vanish(d, x);
    } else {
        assert(q * w == (d - 1) * x + (x - r)) by (nonlinear_arith)
            requires
                q * w == d * x - r,
        ;
        lemma_fundamental_div_mod_converse(q * w, x, d - 1, x - r);
    }
}

/// Coordinate round trip: for a pixel strictly inside the plotted area of
/// a well-formed chart whose mathematical window is at least as fine as
/// the pixel grid on each axis, converting the pixel to mathematical
/// coordinates and applying the forward transform used to build the chart
/// gives back a pixel at most one off the original.
pub proof fn lemma_coord_round_trip(c: Chart, px: int, py: int)
    requires
        c.wf(),
        c.left < px < c.right,
        c.top < py < c.bottom,
        c.right - c.left <= c.x_max - c.x_min,
        c.bottom - c.top <= c.y_max - c.y_min,
    ensures
        px - 1 <= c.pixel_x(c.coord_x(px)) <= px,
        py - 1 <= c.pixel_y(c.coord_y(py)) <= py,
{
    let w = c.right - c.left;
    let x = c.x_max - c.x_min;
    let d = px - c.left;
    lemma_round_trip_1d(d, w, x);
    assert(c.coord_x(px) - c.x_min == div_trunc(d * x, w));
    assert(c.pixel_x(c.coord_x(px)) == c.left + div_trunc(div_trunc(d * x, w) * w, x));

    let h = c.bottom - c.top;
    let yy = c.y_max - c.y_min;
    let dy = py - c.top;
    lemma_round_trip_1d(dy, h, yy);
    assert(c.y_max - c.coord_y(py) == div_trunc(dy * yy, h));
    assert(c.pixel_y(c.coord_y(py)) == c.top + div_trunc(div_trunc(dy * yy, h) * h, yy));
}

} // verus!
