use polyplot::chart::Chart;
use polyplot::fixed::ONE;

#[test]
fn y_range_is_symmetric_about_zero() {
    // y = x over [-10, 10] reaches -10 and 10.
    let c = Chart::polynomial(vec![0, ONE], None, 640, 480);
    assert_eq!(c.y_max, 10 * ONE);
    assert_eq!(c.y_min, -c.y_max);

    // a shifted parabola is asymmetric, the window still is symmetric.
    let d = Chart::polynomial(vec![ONE, 0, ONE], None, 640, 480);
    assert_eq!(d.y_min, -d.y_max);
    assert_eq!(d.y_max, 101 * ONE);
}

#[test]
fn x_window_is_fixed_by_policy() {
    let c = Chart::polynomial(vec![0, ONE], None, 640, 480);
    assert_eq!(c.x_min, -10 * ONE);
    assert_eq!(c.x_max, 10 * ONE);
}

#[test]
fn previous_polynomial_widens_the_range() {
    // y = x alone reaches 10; the overlaid constant 20 pushes it to 20.
    let c = Chart::polynomial(vec![0, ONE], Some(vec![20 * ONE]), 640, 480);
    assert_eq!(c.y_max, 20 * ONE);
    assert_eq!(c.y_min, -20 * ONE);
}

#[test]
fn plot_area_leaves_margins_and_label_strips() {
    let c = Chart::polynomial(vec![0, ONE], None, 640, 480);
    assert_eq!(c.left, 50);
    assert_eq!(c.top, 20);
    assert_eq!(c.right, 620);
    assert_eq!(c.bottom, 430);
}

#[test]
fn coord_maps_the_area_corners_to_the_window() {
    let c = Chart::polynomial(vec![0, ONE], None, 640, 480);
    let tl = c.coord(c.left, c.top).unwrap();
    assert_eq!(tl.x, c.x_min);
    assert_eq!(tl.y, c.y_max);
    let br = c.coord(c.right, c.bottom).unwrap();
    assert_eq!(br.x, c.x_max);
    assert_eq!(br.y, c.y_min);
}

#[test]
fn coord_computes_the_affine_inverse_exactly() {
    // area [50, 620] x [20, 430]; window [-1e9, 1e9] units on both axes.
    let c = Chart::polynomial(vec![0, ONE], None, 640, 480);
    let center = c.coord(335, 225).unwrap();
    assert_eq!(center.x, 0);
    assert_eq!(center.y, 0);
    // one pixel to the right: floor(286 * 2e9 / 570) - 1e9 units.
    let right = c.coord(336, 225).unwrap();
    assert_eq!(right.x, 3_508_771);
}

#[test]
fn coord_outside_the_area_gives_nothing() {
    let c = Chart::polynomial(vec![0, ONE], None, 640, 480);
    assert!(c.coord(c.left - 1, c.top).is_none());
    assert!(c.coord(c.right + 1, c.bottom).is_none());
    assert!(c.coord(c.left, c.bottom + 1).is_none());
    assert!(c.coord(0, 0).is_none());
}

#[test]
fn degenerate_window_gives_nothing() {
    // the zero polynomial samples to an all-zero range: no window to map.
    let c = Chart::polynomial(vec![0], None, 640, 480);
    assert_eq!(c.y_min, 0);
    assert_eq!(c.y_max, 0);
    assert!(c.coord(300, 200).is_none());
}

#[test]
fn tiny_surface_collapses_the_area() {
    let c = Chart::polynomial(vec![0, ONE], None, 10, 10);
    assert_eq!(c.right, 0);
    assert_eq!(c.bottom, 0);
    assert!(c.coord(5, 5).is_none());
}

#[test]
fn pixel_round_trip_stays_within_one_pixel() {
    let c = Chart::polynomial(vec![0, ONE], None, 640, 480);
    for &(px, py) in &[(51, 21), (300, 200), (619, 429), (100, 333)] {
        let pt = c.coord(px, py).unwrap();
        let (qx, qy) = c.pixel_of(pt.x, pt.y).unwrap();
        assert!((qx - px).abs() <= 1, "x: {} became {}", px, qx);
        assert!((qy - py).abs() <= 1, "y: {} became {}", py, qy);
    }
}

#[test]
fn forward_transform_maps_window_corners_to_area_corners() {
    let c = Chart::polynomial(vec![0, ONE], None, 640, 480);
    assert_eq!(c.pixel_of(c.x_min, c.y_max).unwrap(), (c.left, c.top));
    assert_eq!(c.pixel_of(c.x_max, c.y_min).unwrap(), (c.right, c.bottom));
    assert!(c.pixel_of(c.x_max + 1, 0).is_none());
}
