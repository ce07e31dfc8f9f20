use raytracer::color::{channel, isqrt, linear_to_gamma, Color, BRIGHTEST, COLOR_STEPS, MAX_LINEAR};

fn steps(intensity: f64) -> i128 {
    (intensity * COLOR_STEPS as f64).floor() as i128
}

#[test]
fn full_intensity_is_255() {
    assert_eq!(linear_to_gamma(steps(1.0)), COLOR_STEPS);
    assert_eq!(linear_to_gamma(steps(1.0)) as f64 / COLOR_STEPS as f64, 1.0);
    assert_eq!(BRIGHTEST, COLOR_STEPS - 1);
    assert_eq!(channel(steps(1.0)), 255);
}

#[test]
fn no_light_and_negative_light_are_0() {
    assert_eq!(channel(steps(0.0)), 0);
    assert_eq!(channel(steps(-0.5)), 0);
    assert_eq!(channel(i128::MIN), 0);
    assert_eq!(linear_to_gamma(0), 0);
    assert_eq!(linear_to_gamma(-7), 0);
}

#[test]
fn gamma_is_the_square_root() {
    assert_eq!(linear_to_gamma(steps(0.25)), steps(0.5));
    assert_eq!(linear_to_gamma(1), 256);
    assert_eq!(linear_to_gamma(2), 362);
    assert_eq!(linear_to_gamma(steps(0.5)), 46340);
}

#[test]
fn channel_values() {
    assert_eq!(channel(steps(0.25)), 128);
    assert_eq!(channel(steps(0.5)), 181);
    assert_eq!(channel(1), 1);
    assert_eq!(channel(COLOR_STEPS - 1), 255);
    assert_eq!(channel(steps(7.5)), 255);
    assert_eq!(channel(MAX_LINEAR), 255);
    assert_eq!(channel(i128::MAX), 255);
}

#[test]
fn channel_matches_real_arithmetic() {
    for k in 0..=1000 {
        let intensity = k as f64 / 1000.0;
        let expected = ((256.0 * intensity.sqrt()).floor() as i128).min(255);
        assert_eq!(channel(steps(intensity)) as i128, expected);
    }
}

#[test]
fn channel_never_decreases() {
    let mut last = 0;
    for c in (0..70000).step_by(7) {
        let value = channel(c);
        assert!(last <= value);
        last = value;
    }
}

#[test]
fn output_maps_each_component() {
    let color = Color::new(steps(1.0), steps(0.25), steps(-3.0));
    assert_eq!(color.output(), (255, 128, 0));
    let sky = Color::new(steps(0.5), steps(0.7), steps(1.0));
    assert_eq!(sky.output(), (181, 214, 255));
}

#[test]
fn integer_square_roots() {
    assert_eq!(isqrt(0), 0);
    assert_eq!(isqrt(1), 1);
    assert_eq!(isqrt(3), 1);
    assert_eq!(isqrt(4), 2);
    assert_eq!(isqrt(99), 9);
    assert_eq!(isqrt(100), 10);
    assert_eq!(isqrt(1 << 32), 1 << 16);
    assert_eq!(isqrt(u128::MAX), u64::MAX as u128);
}
