//! The polynomial model: evaluation, differentiation and real-root
//! isolation over fixed-point reals.

use vstd::prelude::*;
use crate::fixed::{
    clamp64,
    div_trunc, sat64, sat_add, sat_div, sat_mul, fx_add, fx_div, fx_midpoint, fx_mul, EPS,
    INF, ONE,
};
use crate::utils::{cmp, cmp_v, same_sign, same_sign_v};

verus! {

/// Widen a sequence of fixed-point reals to mathematical integers.
pub open spec fn to_ints(s: Seq<i64>) -> Seq<int> {
    s.map(|i: int, v: i64| v as int)
}

/// A dense univariate polynomial: `coefficients[i]` multiplies `x^i`.
/// The sequence may be empty (the identically-zero function); trailing
/// zero coefficients are kept as given.
pub struct Polynomial {
    coefficients: Vec<i64>,
}

impl View for Polynomial {
    type V = Seq<int>;

    closed spec fn view(&self) -> Seq<int> {
        to_ints(self.coefficients@)
    }
}

/// One step of evaluation by incremental powers: `image` accumulates the
/// first `i` terms and `x_pot` carries `x^i`.
pub open spec fn eval_step(c: Seq<int>, x: int, i: int, image: int, x_pot: int) -> int
    decreases c.len() - i,
{
    if i < 0 || i >= c.len() {
        image
    } else {
        eval_step(c, x, i + 1, sat_add(image, sat_mul(c[i], x_pot)), sat_mul(x_pot, x))
    }
}

/// Value of the polynomial at `x`, computed exactly as the executable
/// evaluator does: terms summed in ascending index order, the running
/// power updated by one saturating product per step.
pub open spec fn eval(c: Seq<int>, x: int) -> int {
    eval_step(c, x, 0, 0, ONE as int)
}

/// Raw derivative coefficients: entry `i` is `(i + 1) * c[i + 1]`,
/// saturated (the index factor is a whole number, not a fixed-point real,
/// so this is a plain integer product).
pub open spec fn deriv_raw(c: Seq<int>) -> Seq<int> {
    Seq::new((c.len() - 1) as nat, |i: int| sat64((i + 1) * c[i + 1]))
}

/// The derivative polynomial, each coefficient divided by the derivative's
/// own leading coefficient so that the leading coefficient becomes one.
/// When that leading coefficient is zero the normalization is skipped:
/// this library's explicit policy for the degenerate case, since a
/// division by zero has no fixed-point value.  Scaling by a nonzero
/// constant never moves a root.
pub open spec fn deriv(c: Seq<int>) -> Seq<int> {
    if c.len() <= 1 {
        Seq::empty()
    } else {
        let d = deriv_raw(c);
        let lead = d[d.len() - 1];
        if lead == 0 {
            d
        } else {
            d.map(|i: int, v: int| sat_div(v, lead))
        }
    }
}

/// Number of narrowing passes of the bisection solver: fixed, so that the
/// runtime and the reached precision are deterministic.
pub const BISECT_ITERS: usize = 500;

/// State of the bisection after one narrowing pass with `n` passes left:
/// the interval is halved toward the side whose endpoint values still
/// differ in sign, and the low bound is returned once no pass is left.
pub open spec fn bisect_step(c: Seq<int>, lo: int, hi: int, loimg: int, n: nat) -> int
    decreases n,
{
    if n == 0 {
        lo
    } else {
        let mid = div_trunc(lo + hi, 2);
        let midimg = eval(c, mid);
        if same_sign_v(loimg, midimg) {
            bisect_step(c, mid, hi, midimg, (n - 1) as nat)
        } else {
            bisect_step(c, lo, mid, loimg, (n - 1) as nat)
        }
    }
}

/// Result of the bisection solver on `[a, b]`: an endpoint whose value is
/// epsilon-equal to zero is returned at once; when both endpoint values
/// carry the same sign there is no crossing and nothing is returned;
/// otherwise the low bound after `BISECT_ITERS` narrowing passes.
pub open spec fn bisect(c: Seq<int>, a: int, b: int) -> Option<int> {
    let aimg = eval(c, a);
    let bimg = eval(c, b);
    if cmp_v(aimg, 0) == 0 {
        Option::Some(a)
    } else if cmp_v(bimg, 0) == 0 {
        Option::Some(b)
    } else if same_sign_v(aimg, bimg) {
        Option::None
    } else {
        Option::Some(bisect_step(c, a, b, aimg, BISECT_ITERS as nat))
    }
}

/// Roots gathered from the isolating intervals `[crit[i-1], crit[i]]` from
/// `i` upward, appended to `acc` in order, a result epsilon-equal to the
/// last accepted root being dropped.
pub open spec fn collect_roots(c: Seq<int>, crit: Seq<int>, i: int, acc: Seq<int>) -> Seq<int>
    decreases crit.len() - i,
{
    if i < 1 || i >= crit.len() {
        acc
    } else {
        let acc2 = match bisect(c, crit[i - 1], crit[i]) {
            Option::Some(r) => if acc.len() > 0 && cmp_v(r, acc.last()) == 0 {
                acc
            } else {
                acc.push(r)
            },
            Option::None => acc,
        };
        collect_roots(c, crit, i + 1, acc2)
    }
}

/// The ascending, epsilon-deduplicated root list: a single zero
/// coefficient counts as the identically-zero function with the one
/// conventional root 0; a single nonzero coefficient has no root; and a
/// longer polynomial is bisected between consecutive critical points
/// (the roots of its derivative, fenced by the `INF` sentinels).
pub open spec fn roots_of(c: Seq<int>) -> Seq<int>
    decreases c.len(),
{
    if c.len() <= 1 {
        if c.len() == 1 && c[0] == 0 {
            seq![0int]
        } else {
            Seq::empty()
        }
    } else {
        let crit = seq![-(INF as int)] + roots_of(deriv(c)) + seq![INF as int];
        collect_roots(c, crit, 1, Seq::empty())
    }
}

/// Root finding is a pure function of the coefficient sequence: any two
/// root lists computed from equal coefficient views are identical, so
/// calling the isolator twice on equal inputs yields identical outputs.
pub proof fn lemma_roots_deterministic(p: Polynomial, q: Polynomial, r1: Seq<i64>, r2: Seq<i64>)
    requires
        p@ == q@,
        to_ints(r1) == roots_of(p@),
        to_ints(r2) == roots_of(q@),
    ensures
        r1 == r2,
{
    assert(r1.len() == to_ints(r1).len());
    assert(r2.len() == to_ints(r2).len());
    assert forall|k: int| 0 <= k < r1.len() implies r1[k] == r2[k] by {
        assert(to_ints(r1)[k] == r1[k] as int);
        assert(to_ints(r2)[k] == r2[k] as int);
    }
    assert(r1 =~= r2);
}

/// Widening distributes over push.
proof fn lemma_to_ints_push(s: Seq<i64>, v: i64)
    ensures
        to_ints(s.push(v)) == to_ints(s).push(v as int),
{
    assert(to_ints(s.push(v)) =~= to_ints(s).push(v as int));
}

impl Polynomial {
    /// Wrap an ordered coefficient sequence; no validation is performed.
    pub fn from_coefficients(coefficients: Vec<i64>) -> (r: Self)
        ensures
            r@ == to_ints(coefficients@),
    {
        Self { coefficients }
    }

    /// Number of coefficients.
    pub fn len(&self) -> (r: usize)
        ensures
            r == self@.len(),
    {
        self.coefficients.len()
    }

    /// The coefficient of `x^i`.
    pub fn coefficient(&self, i: usize) -> (r: i64)
        requires
            i < self@.len(),
        ensures
            r as int == self@[i as int],
    {
        self.coefficients[i]
    }

    /// Evaluate the polynomial at `x`.
    pub fn get_image(&self, x: i64) -> (r: i64)
        ensures
            r as int == eval(self@, x as int),
    {
        let len = self.coefficients.len();
        let mut image: i64 = 0;
        let mut x_pot: i64 = ONE;
        for i in 0..len
            invariant
                len == self@.len(),
                eval(self@, x as int) == eval_step(
                    self@,
                    x as int,
                    i as int,
                    image as int,
                    x_pot as int,
                ),
        {
            image = fx_add(image, fx_mul(self.coefficients[i], x_pot));
            x_pot = fx_mul(x_pot, x);
        }
        image
    }

    /// The derivative polynomial, normalized as `deriv` describes.
    pub fn find_derivative(&self) -> (r: Polynomial)
        ensures
            r@ == deriv(self@),
    {
        let len = self.coefficients.len();
        if len <= 1 {
            let e = Polynomial { coefficients: Vec::new() };
            proof {
                assert(e@ =~= deriv(self@));
            }
            return e;
        }
        let mut d: Vec<i64> = Vec::new();
        for i in 1..len
            invariant
                2 <= len == self@.len(),
                d@.len() == i - 1,
                1 <= i <= len,
                forall|j: int| 0 <= j < i - 1 ==> d@[j] as int == deriv_raw(self@)[j],
        {
            let ci = self.coefficients[i];
            proof {
                assert(0x10000000000000000 * i64::MIN <= i as int * ci as int <= 0x10000000000000000
                    * i64::MAX) by (nonlinear_arith)
                    requires
                        0 <= i as int <= 0xffffffffffffffff,
                        i64::MIN <= ci as int <= i64::MAX,
                ;
            }
            let p: i128 = i as i128 * ci as i128;
            d.push(clamp64(p));
        }
        let lead = d[len - 2];
        if lead == 0 {
            let r = Polynomial { coefficients: d };
            proof {
                assert(r@ =~= deriv(self@));
            }
            return r;
        }
        let mut nd: Vec<i64> = Vec::new();
        let dlen = d.len();
        for j in 0..dlen
            invariant
                dlen == d@.len() == self@.len() - 1,
                nd@.len() == j,
                lead as int == deriv_raw(self@)[dlen - 1],
                lead != 0,
                forall|k: int| 0 <= k < d@.len() ==> d@[k] as int == deriv_raw(self@)[k],
                forall|k: int| 0 <= k < j ==> nd@[k] as int == sat_div(
                    deriv_raw(self@)[k],
                    lead as int,
                ),
        {
            nd.push(fx_div(d[j], lead));
        }
        let r = Polynomial { coefficients: nd };
        proof {
            assert(r@ =~= deriv(self@));
        }
        r
    }

    /// Bounded bisection on `[a, b]`, assuming at most one sign crossing
    /// inside the interval; the result is exactly `bisect`, and when the
    /// bounds are ordered it stays between them.
    pub fn bsearch_root(&self, a: i64, b: i64) -> (r: Option<i64>)
        ensures
            match r {
                Option::Some(v) => bisect(self@, a as int, b as int) == Option::Some(v as int) && (
                a <= b ==> a <= v <= b),
                Option::None => bisect(self@, a as int, b as int) is None,
            },
            cmp_v(eval(self@, a as int), 0) == 0 ==> r == Option::Some(a),
            cmp_v(eval(self@, a as int), 0) != 0 && cmp_v(eval(self@, b as int), 0) == 0 ==> r
                == Option::Some(b),
            cmp_v(eval(self@, a as int), 0) != 0 && cmp_v(eval(self@, b as int), 0) != 0
                && same_sign_v(eval(self@, a as int), eval(self@, b as int)) ==> r is None,
    {
        let mut lo = a;
        let mut hi = b;
        let mut loimg = self.get_image(lo);
        let hiimg = self.get_image(hi);

        if cmp(loimg, 0) == 0 {
            return Option::Some(lo);
        }
        if cmp(hiimg, 0) == 0 {
            return Option::Some(hi);
        }
        if same_sign(loimg, hiimg) {
            return Option::None;
        }

        for k in 0..BISECT_ITERS
            invariant
                loimg as int == eval(self@, lo as int),
                a <= b ==> a <= lo <= hi <= b,
                bisect_step(
                    self@,
                    lo as int,
                    hi as int,
                    loimg as int,
                    (BISECT_ITERS - k) as nat,
                ) == bisect_step(
                    self@,
                    a as int,
                    b as int,
                    eval(self@, a as int),
                    BISECT_ITERS as nat,
                ),
        {
            let mid = fx_midpoint(lo, hi);
            let midimg = self.get_image(mid);
            if same_sign(loimg, midimg) {
                loimg = midimg;
                lo = mid;
            } else {
                hi = mid;
            }
        }
        Option::Some(lo)
    }

    /// All real roots, ascending and epsilon-deduplicated: exactly
    /// `roots_of` of the coefficient view.  Every entry lies between the
    /// domain sentinels and each is at least `EPS` above its predecessor.
    pub fn get_roots(&self) -> (r: Vec<i64>)
        requires
            self@.len() >= 1,
        ensures
            to_ints(r@) == roots_of(self@),
            forall|k: int| 0 <= k < r@.len() ==> -INF <= #[trigger] r@[k] <= INF,
            forall|k: int| 0 <= k < r@.len() - 1 ==> (#[trigger] r@[k]) + EPS <= r@[k + 1],
            self@.len() == 1 && self@[0] == 0 ==> r@ == seq![0i64],
            self@.len() == 1 && self@[0] != 0 ==> r@.len() == 0,
        decreases self@.len(),
    {
        let len = self.coefficients.len();
        if len == 1 {
            if self.coefficients[0] == 0 {
                let mut v: Vec<i64> = Vec::new();
                v.push(0);
                proof {
                    assert(to_ints(v@) =~= roots_of(self@));
                    assert(v@ =~= seq![0i64]);
                }
                return v;
            }
            let v: Vec<i64> = Vec::new();
            proof {
                assert(to_ints(v@) =~= roots_of(self@));
            }
            return v;
        }

        let derivative = self.find_derivative();
        proof {
            assert(deriv(self@).len() == self@.len() - 1);
        }
        let sub = derivative.get_roots();
        let sub_len = sub.len();

        let mut crit: Vec<i64> = Vec::new();
        crit.push(-INF);
        for j in 0..sub_len
            invariant
                sub_len == sub@.len(),
                crit@.len() == j + 1,
                crit@[0] == -INF,
                forall|k: int| 1 <= k <= j ==> #[trigger] crit@[k] == sub@[k - 1],
        {
            crit.push(sub[j]);
        }
        let ghost pre = crit@;
        crit.push(INF);
        let dlen = crit.len();
        proof {
            assert(crit@ == pre.push(INF));
            assert forall|k: int| 1 <= k < dlen - 1 implies #[trigger] crit@[k] == sub@[k - 1] by {
                assert(crit@[k] == pre[k]);
                assert(pre[k] == sub@[k - 1]);
            }
            assert(crit@[0] == -INF);
            assert(crit@[dlen - 1] == INF);
            assert(to_ints(crit@) =~= seq![-(INF as int)] + roots_of(deriv(self@)) + seq![
                INF as int,
            ]);
            assert forall|k: int| 0 <= k < dlen implies -INF <= #[trigger] crit@[k] <= INF by {
                if 1 <= k < dlen - 1 {
                    assert(crit@[k] == sub@[k - 1]);
                }
            }
            assert forall|k: int| 0 <= k < dlen - 1 implies #[trigger] crit@[k] <= crit@[k + 1] by {
                if k == 0 {
                    if dlen > 2 {
                        assert(crit@[1] == sub@[0]);
                    }
                } else if k < dlen - 2 {
                    assert(crit@[k] == sub@[k - 1]);
                    assert(crit@[k + 1] == sub@[k]);
                    assert(sub@[k - 1] + EPS <= sub@[k]);
                } else {
                    assert(crit@[k] == sub@[k - 1]);
                }
            }
        }
        let ghost critv = to_ints(crit@);
        let mut current_roots: Vec<i64> = Vec::new();
        proof {
            assert(to_ints(current_roots@) =~= Seq::<int>::empty());
        }

        for i in 1..dlen
            invariant
                dlen == crit@.len(),
                critv == to_ints(crit@),
                forall|k: int| 0 <= k < dlen ==> -INF <= #[trigger] crit@[k] <= INF,
                forall|k: int| 0 <= k < dlen - 1 ==> #[trigger] crit@[k] <= crit@[k + 1],
                collect_roots(self@, critv, i as int, to_ints(current_roots@)) == roots_of(self@),
                forall|k: int|
                    0 <= k < current_roots@.len() ==> -INF <= #[trigger] current_roots@[k] <= INF,
                forall|k: int|
                    0 <= k < current_roots@.len() - 1 ==> (#[trigger] current_roots@[k]) + EPS
                        <= current_roots@[k + 1],
                current_roots@.len() > 0 ==> current_roots@.last() <= crit@[i - 1],
        {
            let prev = crit[i - 1];
            let cur = crit[i];
            let some_root = self.bsearch_root(prev, cur);
            if let Option::Some(root) = some_root {
                let mut can_insert = true;
                if current_roots.len() > 0 {
                    let lst = current_roots[current_roots.len() - 1];
                    can_insert = cmp(root, lst) != 0;
                }
                if can_insert {
                    proof {
                        lemma_to_ints_push(current_roots@, root);
                    }
                    current_roots.push(root);
                }
            }
        }
        current_roots
    }
}

} // verus!
