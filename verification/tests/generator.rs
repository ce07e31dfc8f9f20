use raytracer::random::{Rng, INCREMENT, MODULUS, MULTIPLIER};

#[test]
fn first_draws_from_seed_42() {
    let mut rng = Rng::new(42);
    assert_eq!(rng.generate(), 1083814273);
    assert_eq!(rng.generate(), 378494188);
    assert_eq!(rng.generate(), 2479403867);
    assert_eq!(rng.generate(), 955863294);
}

#[test]
fn draw_follows_the_recurrence() {
    let mut rng = Rng::new(7);
    let first = rng.generate() as u64;
    assert_eq!(first, (MULTIPLIER * 7 + INCREMENT) % MODULUS);
    let second = rng.generate() as u64;
    assert_eq!(second, (MULTIPLIER * first + INCREMENT) % MODULUS);
}

#[test]
fn same_seed_same_stream() {
    let mut a = Rng::new(2024);
    let mut b = Rng::new(2024);
    for _ in 0..1000 {
        assert_eq!(a.generate(), b.generate());
    }
}

#[test]
fn draws_are_fractions_below_one() {
    let mut rng = Rng::new(1);
    for _ in 0..1000 {
        let fraction = rng.generate() as f64 / MODULUS as f64;
        assert!(0.0 <= fraction && fraction < 1.0);
    }
}

#[test]
fn seed_beyond_the_modulus() {
    let mut rng = Rng::new(u64::MAX);
    assert_eq!(rng.generate(), 1012239698);
    let mut shifted = Rng::new((1u64 << 32) + 42);
    assert_eq!(shifted.generate(), 1083814273);
}

#[test]
fn seed_zero_draws_the_increment() {
    let mut rng = Rng::new(0);
    assert_eq!(rng.generate() as u64, INCREMENT);
}
