use pixel_contrib::utils::clamp;

#[test]
fn test_clamp() {
    assert_eq!(clamp(3, 0, 10), 3);
    assert_eq!(clamp(-2, 0, 10), 0);
    assert_eq!(clamp(11, 0, 10), 10);
}

#[test]
fn clamp_keeps_bounds_inclusive() {
    assert_eq!(clamp(0u32, 0, 255), 0);
    assert_eq!(clamp(255u32, 0, 255), 255);
    assert_eq!(clamp(300u32, 0, 255), 255);
}

#[test]
fn clamp_twice_is_clamp_once() {
    for x in [-5i32, 0, 4, 10, 17] {
        let once = clamp(x, 0, 10);
        assert_eq!(clamp(once, 0, 10), once);
        assert!((0..=10).contains(&once));
    }
}

#[test]
fn clamp_of_floats() {
    assert_eq!(clamp(0.5f64, 0.0, 1.0), 0.5);
    assert_eq!(clamp(-0.5f64, 0.0, 1.0), 0.0);
    assert_eq!(clamp(1.5f64, 0.0, 1.0), 1.0);
}
