use polyplot::fixed::ONE;
use polyplot::polynomial::Polynomial;

#[test]
fn caption_lists_terms_by_ascending_power() {
    let p = Polynomial::from_coefficients(vec![ONE, 2 * ONE]);
    assert_eq!(p.get_caption(), "y = 1 + 2x^1 ");
    let q = Polynomial::from_coefficients(vec![0, 0, 3 * ONE]);
    assert_eq!(q.get_caption(), "y = 0 + 0x^1 + 3x^2 ");
}

#[test]
fn caption_renders_fractions_and_signs() {
    let p = Polynomial::from_coefficients(vec![-50_000_000]);
    assert_eq!(p.get_caption(), "y = -0.50000000 ");
    let q = Polynomial::from_coefficients(vec![150_000_000, -12 * ONE]);
    assert_eq!(q.get_caption(), "y = 1.50000000 + -12x^1 ");
}

#[test]
fn caption_of_empty_polynomial() {
    let p = Polynomial::from_coefficients(vec![]);
    assert_eq!(p.get_caption(), "y ");
}

#[test]
fn roots_markup_breaks_lines() {
    let p = Polynomial::from_coefficients(vec![0]);
    assert_eq!(p.format_roots(), "0 <br />");
}

#[test]
fn roots_markup_renders_tiny_negative_fixed_point_values() {
    // y = x: the bisection lands one unit below the exact root.
    let p = Polynomial::from_coefficients(vec![0, ONE]);
    assert_eq!(p.format_roots(), "-0.00000001 <br />");
}

#[test]
fn roots_markup_of_rootless_polynomial_is_empty() {
    let p = Polynomial::from_coefficients(vec![ONE, 0, ONE]);
    assert_eq!(p.format_roots(), "");
}
