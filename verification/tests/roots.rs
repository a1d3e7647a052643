use polyplot::fixed::{EPS, ONE};
use polyplot::polynomial::Polynomial;

// 1e-4 in fixed-point units: the tolerance for located roots.
const TOL: i64 = 10_000;

fn close(a: i64, b: i64, tol: i64) -> bool {
    (a - b).abs() <= tol
}

#[test]
fn degree_zero_nonzero_has_no_roots() {
    let p = Polynomial::from_coefficients(vec![3 * ONE]);
    assert_eq!(p.get_roots(), Vec::<i64>::new());
    let n = Polynomial::from_coefficients(vec![-7 * ONE]);
    assert_eq!(n.get_roots(), Vec::<i64>::new());
}

#[test]
fn degree_zero_zero_reports_single_zero_root() {
    let p = Polynomial::from_coefficients(vec![0]);
    assert_eq!(p.get_roots(), vec![0]);
}

#[test]
fn cubic_has_three_roots() {
    // x^3 - x: roots -1, 0, 1.
    let p = Polynomial::from_coefficients(vec![0, -ONE, 0, ONE]);
    let roots = p.get_roots();
    assert_eq!(roots.len(), 3);
    assert!(close(roots[0], -ONE, TOL), "root 0 was {}", roots[0]);
    assert!(close(roots[1], 0, TOL), "root 1 was {}", roots[1]);
    assert!(close(roots[2], ONE, TOL), "root 2 was {}", roots[2]);
    assert!(roots[0] < roots[1] && roots[1] < roots[2]);
}

#[test]
fn no_real_roots_gives_empty_list() {
    // x^2 + 1 never crosses zero.
    let p = Polynomial::from_coefficients(vec![ONE, 0, ONE]);
    assert_eq!(p.get_roots(), Vec::<i64>::new());
}

#[test]
fn double_root_is_collapsed_to_one_entry() {
    // x^2 has a double root at 0; the duplicate must be dropped.
    let p = Polynomial::from_coefficients(vec![0, 0, ONE]);
    let roots = p.get_roots();
    assert_eq!(roots.len(), 1);
    assert!(close(roots[0], 0, TOL), "root was {}", roots[0]);
}

#[test]
fn equal_inputs_give_identical_outputs() {
    let a = Polynomial::from_coefficients(vec![0, -ONE, 0, ONE]);
    let b = Polynomial::from_coefficients(vec![0, -ONE, 0, ONE]);
    assert_eq!(a.get_roots(), b.get_roots());
    assert_eq!(a.get_roots(), a.get_roots());
}

#[test]
fn adjacent_roots_are_separated_by_epsilon() {
    let p = Polynomial::from_coefficients(vec![0, -ONE, 0, ONE]);
    let roots = p.get_roots();
    for w in roots.windows(2) {
        assert!(w[0] + EPS <= w[1]);
    }
}

#[test]
fn evaluation_uses_incremental_powers() {
    // 1 + 2x at x = 3 gives 7.
    let p = Polynomial::from_coefficients(vec![ONE, 2 * ONE]);
    assert_eq!(p.get_image(3 * ONE), 7 * ONE);
    // x^2 - 2 at x = -3 gives 7.
    let q = Polynomial::from_coefficients(vec![-2 * ONE, 0, ONE]);
    assert_eq!(q.get_image(-3 * ONE), 7 * ONE);
    // the empty polynomial is identically zero.
    let z = Polynomial::from_coefficients(vec![]);
    assert_eq!(z.get_image(5 * ONE), 0);
}

#[test]
fn derivative_is_normalized_by_leading_coefficient() {
    // d/dx (x^3 - x) = 3x^2 - 1, scaled by 1/3: x^2 - 1/3.
    let p = Polynomial::from_coefficients(vec![0, -ONE, 0, ONE]);
    let d = p.find_derivative();
    assert_eq!(d.len(), 3);
    assert_eq!(d.coefficient(0), -33_333_333);
    assert_eq!(d.coefficient(1), 0);
    assert_eq!(d.coefficient(2), ONE);
}

#[test]
fn derivative_with_zero_leading_coefficient_skips_normalization() {
    // 5x + 0x^2: the derivative's leading coefficient is zero, so the
    // coefficients are kept unnormalized.
    let p = Polynomial::from_coefficients(vec![0, 5 * ONE, 0]);
    let d = p.find_derivative();
    assert_eq!(d.len(), 2);
    assert_eq!(d.coefficient(0), 5 * ONE);
    assert_eq!(d.coefficient(1), 0);
}

#[test]
fn derivative_of_constant_is_empty() {
    let p = Polynomial::from_coefficients(vec![42 * ONE]);
    assert_eq!(p.find_derivative().len(), 0);
}

#[test]
fn bisection_rejects_interval_without_sign_change() {
    // x^2 + 1 is positive at both ends.
    let p = Polynomial::from_coefficients(vec![ONE, 0, ONE]);
    assert_eq!(p.bsearch_root(ONE, 2 * ONE), None);
}

#[test]
fn bisection_returns_endpoint_whose_value_is_epsilon_zero() {
    // y = x: at x = 5e-7 the value is within 1e-6 of zero.
    let p = Polynomial::from_coefficients(vec![0, ONE]);
    assert_eq!(p.bsearch_root(50, 5 * ONE), Some(50));
    // and the high endpoint is used when only it is epsilon-zero.
    assert_eq!(p.bsearch_root(-5 * ONE, -50), Some(-50));
}

#[test]
fn bisection_finds_interior_crossing() {
    // y = x - 2 crosses inside [0, 5].
    let p = Polynomial::from_coefficients(vec![-2 * ONE, ONE]);
    let r = p.bsearch_root(0, 5 * ONE).unwrap();
    assert!(close(r, 2 * ONE, TOL), "crossing was {}", r);
}
