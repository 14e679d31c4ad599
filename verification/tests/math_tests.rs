use path_tracer::math::clamp;

#[test]
fn clamp_keeps_a_value_inside_the_range() {
    assert_eq!(clamp(5, 0, 10), 5);
    assert_eq!(clamp(0, 0, 10), 0);
    assert_eq!(clamp(10, 0, 10), 10);
}

#[test]
fn clamp_raises_to_the_lower_bound() {
    assert_eq!(clamp(-3, 0, 10), 0);
}

#[test]
fn clamp_lowers_to_the_upper_bound() {
    assert_eq!(clamp(12, 0, 10), 10);
}

#[test]
fn clamp_works_on_fractions() {
    assert_eq!(clamp(0.25f32, 0.0, 1.0), 0.25);
    assert_eq!(clamp(-0.5f32, 0.0, 1.0), 0.0);
    assert_eq!(clamp(1.5f64, 0.0, 1.0), 1.0);
}

#[test]
fn clamp_leaves_what_does_not_compare() {
    assert!(clamp(f32::NAN, 0.0, 1.0).is_nan());
}

#[test]
fn clamp_with_an_empty_range_prefers_the_lower_bound() {
    assert_eq!(clamp(0, 10, 5), 10);
    assert_eq!(clamp(20, 10, 5), 5);
    assert_eq!(clamp(7, 10, 5), 10);
}
