use raytracer::camera::{Camera, CameraBuilder, Sample, HALF_PIXEL, MAX_COLOR, PIXEL_STEPS};
use raytracer::random::Rng;
use raytracer::vec3::{Point3, Vec3};

fn in_units(camera: &Camera, v: Vec3) -> (f64, f64, f64) {
    let steps = camera.steps_per_unit() as f64;
    (v.x() as f64 / steps, v.y() as f64 / steps, v.z() as f64 / steps)
}

#[test]
fn builder_test() {
    let camera_from_builder = Camera::builder().aspect_ratio(2, 1).image_width(200).build();
    assert_eq!(camera_from_builder.aspect_ratio(), (2, 1));
    let (across, down) = camera_from_builder.aspect_ratio();
    assert_eq!(across as f64 / down as f64, 2.0);
    assert_eq!(camera_from_builder.image_width(), 200);
    assert_eq!(camera_from_builder.samples_per_pixel(), 1);
    assert_eq!(camera_from_builder.image_height(), 100);
    assert_eq!(in_units(&camera_from_builder, camera_from_builder.center()), (0.0, 0.0, 0.0));
    assert_eq!(in_units(&camera_from_builder, camera_from_builder.pixel00()), (-1.99, 0.99, -1.0));
    assert_eq!(
        in_units(&camera_from_builder, camera_from_builder.pixel_delta_u()),
        (0.02, 0.0, 0.0)
    );
    assert_eq!(
        in_units(&camera_from_builder, camera_from_builder.pixel_delta_v()),
        (0.0, -0.02, 0.0)
    );
    let same = CameraBuilder::new().image_width(200).aspect_ratio(2, 1).samples_per_pixel(1).build();
    assert_eq!(same, camera_from_builder);
}

#[test]
fn builder_defaults() {
    let builder = CameraBuilder::new();
    assert_eq!(builder.image_height(), 100);
    let camera = builder.build();
    assert_eq!(camera.image_width(), 100);
    assert_eq!(camera.image_height(), 100);
    assert_eq!(camera.samples_per_pixel(), 1);
    assert!(!camera.antialiasing_enabled());
    assert_eq!(camera, Camera::builder().build());
}

#[test]
fn height_of_a_wide_raster() {
    let camera = Camera::builder().aspect_ratio(16, 9).image_width(400).samples_per_pixel(100).build();
    assert_eq!(camera.image_height(), 225);
    assert_eq!(camera.samples_per_pixel(), 100);
    assert!(camera.antialiasing_enabled());
}

#[test]
fn height_is_rounded_to_the_nearest_row() {
    // 66.67 rows
    assert_eq!(Camera::builder().aspect_ratio(3, 2).image_width(100).image_height(), 67);
    assert_eq!(Camera::builder().aspect_ratio(3, 2).image_width(100).build().image_height(), 67);
    // 56.25 rows
    assert_eq!(Camera::builder().aspect_ratio(16, 9).image_width(100).image_height(), 56);
    // 5.625 rows
    assert_eq!(Camera::builder().aspect_ratio(16, 9).image_width(10).image_height(), 6);
    // Half a row goes up.
    assert_eq!(Camera::builder().aspect_ratio(2, 1).image_width(1).image_height(), 1);
    assert_eq!(Camera::builder().aspect_ratio(2, 1).image_width(3).image_height(), 2);
    // A third of a row is no row.
    assert_eq!(Camera::builder().aspect_ratio(3, 1).image_width(1).image_height(), 0);
    assert_eq!(
        Camera::builder().aspect_ratio(1, u32::MAX).image_width(u32::MAX).image_height(),
        u32::MAX as u64 * u32::MAX as u64
    );
    assert_eq!(
        Camera::builder().aspect_ratio(u32::MAX, u32::MAX).image_width(u32::MAX).image_height(),
        u32::MAX as u64
    );
}

#[test]
fn narrow_raster_of_one_row() {
    // Two thirds of a row make one row.
    let camera = Camera::builder().aspect_ratio(3, 2).image_width(1).build();
    assert_eq!(camera.image_height(), 1);
    assert_eq!(camera.steps_per_unit(), HALF_PIXEL);
    assert_eq!(camera.pixel00(), Point3::new(0, 0, -HALF_PIXEL));
    assert_eq!(camera.next_sample(camera.first_sample()), None);
}

#[test]
fn height_matches_rounding_of_reals() {
    for (across, down) in [(16u32, 9u32), (3, 2), (2, 1), (4, 3), (1, 1), (21, 9), (7, 5)] {
        for width in 1..=500u32 {
            let expected = (width as f64 / (across as f64 / down as f64)).round() as u64;
            let quotient = width as f64 * down as f64 / across as f64;
            // Leave out the widths at which rounding a rounded quotient is in doubt.
            if (quotient.fract() - 0.5).abs() < 1e-9 {
                continue;
            }
            assert_eq!(
                Camera::builder().aspect_ratio(across, down).image_width(width).image_height(),
                expected
            );
        }
    }
}

#[test]
fn lattice_of_the_viewport() {
    let camera = Camera::builder().aspect_ratio(16, 9).image_width(400).build();
    assert_eq!(camera.steps_per_unit(), HALF_PIXEL * 225);
    assert_eq!(camera.center(), Point3::new(0, 0, 0));
    assert_eq!(camera.pixel_delta_u(), Vec3::new(PIXEL_STEPS, 0, 0));
    assert_eq!(camera.pixel_delta_v(), Vec3::new(0, -PIXEL_STEPS, 0));
    assert_eq!(camera.pixel00(), Point3::new(-399 * HALF_PIXEL, 224 * HALF_PIXEL, -225 * HALF_PIXEL));
    // The viewport is two units high, and as wide as square pixels make it.
    let height = 225 * camera.pixel_delta_v().y();
    let width = 400 * camera.pixel_delta_u().x();
    assert_eq!(-height, 2 * camera.steps_per_unit());
    assert_eq!(width * 225, -height * 400);
    assert_eq!(MAX_COLOR, 256);
}

#[test]
fn standard_ray_goes_through_the_pixel_centre() {
    let camera = Camera::builder().aspect_ratio(16, 9).image_width(400).build();
    let ray = camera.standard_ray(0, 0);
    assert_eq!(ray.origin(), camera.center());
    assert_eq!(ray.direction(), camera.pixel00());
    let ray = camera.standard_ray(200, 112);
    assert_eq!(ray.direction(), Vec3::new(HALF_PIXEL, 0, -225 * HALF_PIXEL));
    let ray = camera.standard_ray(399, 224);
    assert_eq!(ray.direction(), Vec3::new(399 * HALF_PIXEL, -224 * HALF_PIXEL, -225 * HALF_PIXEL));
    let (x, y, z) = in_units(&camera, ray.direction());
    assert_eq!(z, -1.0);
    assert!((x - (399.0 / 225.0)).abs() < 1e-12);
    assert!((y + (224.0 / 225.0)).abs() < 1e-12);
}

#[test]
fn stochastic_ray_takes_two_draws() {
    let camera = Camera::builder().aspect_ratio(2, 1).image_width(200).samples_per_pixel(4).build();
    let mut rng = Rng::new(42);
    let ray = camera.stochastic_ray(3, 5, &mut rng);
    let centre = camera.standard_ray(3, 5).direction();
    let offset = ray.direction() - centre;
    assert_eq!(offset, Vec3::new(1083814273 - HALF_PIXEL, -(378494188 - HALF_PIXEL), 0));
    assert_eq!(ray.origin(), camera.center());
    assert_eq!(rng.generate(), 2479403867);
}

#[test]
fn jitter_stays_within_the_pixel() {
    let camera = Camera::builder().aspect_ratio(2, 1).image_width(20).samples_per_pixel(4).build();
    let mut rng = Rng::new(99);
    for _ in 0..1000 {
        let ray = camera.stochastic_ray(7, 2, &mut rng);
        let offset = ray.direction() - camera.standard_ray(7, 2).direction();
        assert!(-HALF_PIXEL <= offset.x() && offset.x() < HALF_PIXEL);
        assert!(-HALF_PIXEL < offset.y() && offset.y() <= HALF_PIXEL);
        assert_eq!(offset.z(), 0);
    }
}

#[test]
fn one_sample_per_pixel_is_the_centre_ray() {
    let camera = Camera::builder().aspect_ratio(2, 1).image_width(20).build();
    let mut rng = Rng::new(5);
    let sample = Sample { row: 4, col: 9, index: 0 };
    let ray = camera.primary_ray(sample, &mut rng);
    assert_eq!(ray, camera.standard_ray(9, 4));
    assert!(camera.completes_pixel(sample));
    assert_eq!(rng.generate(), Rng::new(5).generate());
}

#[test]
fn several_samples_per_pixel_are_jittered() {
    let camera = Camera::builder().aspect_ratio(2, 1).image_width(20).samples_per_pixel(3).build();
    let mut rng = Rng::new(5);
    let mut same = Rng::new(5);
    let sample = Sample { row: 4, col: 9, index: 1 };
    let ray = camera.primary_ray(sample, &mut rng);
    assert_eq!(ray, camera.stochastic_ray(9, 4, &mut same));
    assert_eq!(rng.generate(), same.generate());
    assert!(!camera.completes_pixel(sample));
    assert!(camera.completes_pixel(Sample { row: 4, col: 9, index: 2 }));
}

#[test]
fn samples_come_in_row_major_order() {
    let camera = Camera::builder().aspect_ratio(3, 2).image_width(3).samples_per_pixel(2).build();
    assert_eq!(camera.image_height(), 2);
    let mut seen = Vec::new();
    let mut step = Some(camera.first_sample());
    while let Some(sample) = step {
        seen.push((sample.row, sample.col, sample.index));
        step = camera.next_sample(sample);
    }
    let mut expected = Vec::new();
    for row in 0..2 {
        for col in 0..3 {
            for index in 0..2 {
                expected.push((row, col, index));
            }
        }
    }
    assert_eq!(seen, expected);
    assert_eq!(seen.len(), 3 * 2 * 2);
}

#[test]
fn schedule_of_a_single_pixel() {
    let camera = Camera::builder().aspect_ratio(1, 1).image_width(1).build();
    let first = camera.first_sample();
    assert_eq!(first, Sample { row: 0, col: 0, index: 0 });
    assert!(camera.completes_pixel(first));
    assert_eq!(camera.next_sample(first), None);
}
