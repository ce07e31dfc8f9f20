use raytracer::interval::Interval;
use raytracer::ray::Ray;
use raytracer::vec3::{dot, Point3, Vec3};

#[test]
fn vector_components_and_default() {
    let v = Vec3::new(1, -2, 3);
    assert_eq!((v.x(), v.y(), v.z()), (1, -2, 3));
    assert_eq!(Vec3::default(), Vec3::new(0, 0, 0));
}

#[test]
fn vector_arithmetic() {
    let a = Vec3::new(1, 2, 3);
    let b = Vec3::new(10, -20, 30);
    assert_eq!(a + b, Vec3::new(11, -18, 33));
    assert_eq!(a - b, Vec3::new(-9, 22, -27));
    assert_eq!(-a, Vec3::new(-1, -2, -3));
    assert_eq!(3u32 * a, Vec3::new(3, 6, 9));
    assert_eq!(-4i128 * a, Vec3::new(-4, -8, -12));
    assert_eq!(a + b, b + a);
    assert_eq!((a + b) - b, a);
}

#[test]
fn dot_and_length_squared() {
    let a = Vec3::new(1, 2, 3);
    let b = Vec3::new(4, -5, 6);
    assert_eq!(dot(a, b), 12);
    assert_eq!(dot(a, b), dot(b, a));
    assert_eq!(a.length_squared(), 14);
    assert_eq!(a.length_squared(), dot(a, a));
    assert_eq!(Vec3::new(3, 4, 0).length_squared(), 25);
}

#[test]
fn ray_point_at_parameter() {
    let ray = Ray::new(Point3::new(1, 1, 1), Vec3::new(2, 0, -3));
    assert_eq!(ray.origin(), Point3::new(1, 1, 1));
    assert_eq!(ray.direction(), Vec3::new(2, 0, -3));
    assert_eq!(ray.at(0), Point3::new(1, 1, 1));
    assert_eq!(ray.at(4), Point3::new(9, 1, -11));
    assert_eq!(ray.at(-1), Point3::new(-1, 1, 4));
}

#[test]
fn interval_surrounds_is_strict() {
    let interval = Interval::new(-3, 8);
    assert!(interval.surrounds(0));
    assert!(interval.surrounds(-2));
    assert!(interval.surrounds(7));
    assert!(!interval.surrounds(-3));
    assert!(!interval.surrounds(8));
    assert!(!interval.surrounds(9));
    assert!(!Interval::new(5, 5).surrounds(5));
}

#[test]
fn interval_clamp_saturates() {
    let interval = Interval::new(-3, 8);
    assert_eq!(interval.clamp(-100), -3);
    assert_eq!(interval.clamp(-3), -3);
    assert_eq!(interval.clamp(2), 2);
    assert_eq!(interval.clamp(8), 8);
    assert_eq!(interval.clamp(i128::MAX), 8);
}

#[test]
fn interval_size() {
    assert_eq!(Interval::new(-3, 8).size(), 11);
    assert_eq!(Interval::new(5, 5).size(), 0);
}

#[test]
fn empty_and_universe() {
    for x in [i128::MIN, -1, 0, 1, i128::MAX] {
        assert!(!Interval::empty().surrounds(x));
    }
    for x in [i128::MIN + 1, -1, 0, 1, i128::MAX - 1] {
        assert!(Interval::universe().surrounds(x));
    }
    assert!(!Interval::universe().surrounds(i128::MAX));
    assert!(!Interval::universe().surrounds(i128::MIN));
}
