//! Easing curves at concrete progress values, in micro-units
//! (1_000_000 stands for a progress of 1.0).

use candela::easing_parse::apply_easing;

const ONE: u64 = 1_000_000;
const HALF: u64 = 500_000;

#[test]
fn easing_sine_boundaries() {
    assert_eq!(apply_easing(0, "sine"), 0);
    assert_eq!(apply_easing(ONE, "sine"), ONE);
}

#[test]
fn easing_smooth_boundaries() {
    assert_eq!(apply_easing(0, "smooth"), 0);
    assert_eq!(apply_easing(ONE, "smooth"), ONE);
}

#[test]
fn easing_smoother_boundaries() {
    assert_eq!(apply_easing(0, "smoother"), 0);
    assert_eq!(apply_easing(ONE, "smoother"), ONE);
}

#[test]
fn easing_sine_at_midpoint() {
    assert_eq!(apply_easing(HALF, "sine"), HALF);
}

#[test]
fn easing_smooth_at_midpoint() {
    assert_eq!(apply_easing(HALF, "smooth"), HALF);
}

#[test]
fn easing_smoother_at_midpoint() {
    assert_eq!(apply_easing(HALF, "smoother"), HALF);
}

#[test]
fn easing_curves_differ_at_quarter() {
    let sine = apply_easing(250_000, "sine") as i64;
    let smooth = apply_easing(250_000, "smooth") as i64;
    let smoother = apply_easing(250_000, "smoother") as i64;
    let linear = apply_easing(250_000, "linear") as i64;

    assert!((sine - smooth).abs() > 1_000);
    assert!((sine - smoother).abs() > 1_000);
    assert!((smooth - smoother).abs() > 1_000);
    assert!((sine - linear).abs() > 1_000);
}

#[test]
fn cubic_bezier_linear_equivalent() {
    let result = apply_easing(HALF, "cubic_bezier(0.0, 0.0, 1.0, 1.0)") as i64;
    assert!((result - HALF as i64).abs() < 10_000);
}

#[test]
fn cubic_bezier_css_ease() {
    let result = apply_easing(HALF, "cubic_bezier(0.25, 0.1, 0.25, 1.0)");
    assert!(result > 0 && result < ONE);
}

#[test]
fn cubic_bezier_invalid_fallback() {
    assert_eq!(apply_easing(HALF, "cubic_bezier(invalid)"), HALF);
    assert_eq!(apply_easing(HALF, "not_a_curve"), HALF);
}

#[test]
fn cubic_bezier_endpoints() {
    let result_0 = apply_easing(0, "cubic_bezier(0.25, 0.1, 0.25, 1.0)");
    let result_1 = apply_easing(ONE, "cubic_bezier(0.25, 0.1, 0.25, 1.0)");
    assert_eq!(result_0, 0);
    assert_eq!(result_1, ONE);
}

#[test]
fn apply_easing_linear() {
    assert_eq!(apply_easing(0, "linear"), 0);
    assert_eq!(apply_easing(HALF, "linear"), HALF);
    assert_eq!(apply_easing(ONE, "linear"), ONE);
}

#[test]
fn apply_easing_ease_in() {
    assert_eq!(apply_easing(0, "ease_in"), 0);
    assert_eq!(apply_easing(HALF, "ease_in"), 250_000);
    assert_eq!(apply_easing(ONE, "ease_in"), ONE);
}

#[test]
fn apply_easing_ease_out() {
    assert_eq!(apply_easing(0, "ease_out"), 0);
    assert_eq!(apply_easing(HALF, "ease_out"), 750_000);
    assert_eq!(apply_easing(ONE, "ease_out"), ONE);
}

#[test]
fn apply_easing_ease_in_out() {
    assert_eq!(apply_easing(0, "ease_in_out"), 0);
    assert_eq!(apply_easing(250_000, "ease_in_out"), 125_000);
    assert_eq!(apply_easing(HALF, "ease_in_out"), HALF);
    assert_eq!(apply_easing(750_000, "ease_in_out"), 875_000);
    assert_eq!(apply_easing(ONE, "ease_in_out"), ONE);
}

#[test]
fn ease_in_at_quarter() {
    assert_eq!(apply_easing(250_000, "ease_in"), 62_500);
}

#[test]
fn bezier_descriptor_with_spaces() {
    let tight = apply_easing(300_000, "cubic_bezier(0.42,0.0,0.58,1.0)");
    let spaced = apply_easing(300_000, " cubic_bezier( 0.42 , 0.0 , 0.58 , 1.0 ) ");
    assert_eq!(tight, spaced);
}

#[test]
fn bezier_descriptor_wrong_arity_is_linear() {
    assert_eq!(apply_easing(HALF, "cubic_bezier(0.1, 0.2, 0.3)"), HALF);
    assert_eq!(apply_easing(HALF, "cubic_bezier(0.1, 0.2, 0.3, 0.4, 0.5)"), HALF);
}

#[test]
fn bezier_descriptor_out_of_range_is_linear() {
    assert_eq!(apply_easing(HALF, "cubic_bezier(11.0, 0.0, 1.0, 1.0)"), HALF);
}
