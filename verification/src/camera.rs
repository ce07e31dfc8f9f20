//! The camera: a raster, the lattice its viewport lies on, the primary
//! rays through its pixels and the order in which a render samples them.
//!
//! The camera sits at the origin and looks down the negative z axis at a
//! viewport one unit away and two units high. The lattice is chosen so
//! that all of this is exact: a pixel is [`PIXEL_STEPS`] lattice steps
//! wide, which leaves room for a 32-bit jitter inside each pixel.

use vstd::prelude::*;
use crate::random::{lcg_next, Rng};
use crate::ray::{Line, Ray};
use crate::vec3::{Int3, Point3, Vec3};

verus! {

/// The factor by which a channel in `[0, 1)` is scaled before it is
/// truncated; the raster's header announces it. Channel values range
/// from 0 to 255.
pub const MAX_COLOR: u32 = 256;

/// Lattice steps across one pixel.
pub const PIXEL_STEPS: i128 = 0x1_0000_0000;

/// Lattice steps across half a pixel.
pub const HALF_PIXEL: i128 = 0x8000_0000;

/// The number of rows of a raster `image_width` wide whose sides are in
/// the ratio `aspect_width : aspect_height`: the quotient of the width by
/// the ratio, rounded to the nearest whole number, a half upwards. The
/// whole part of the quotient gains one where the remainder is half the
/// divisor or more.
pub open spec fn raster_height(image_width: nat, aspect_width: nat, aspect_height: nat) -> nat {
    let whole = (image_width * aspect_height) / aspect_width;
    let left = (image_width * aspect_height) % aspect_width;
    if 2 * left >= aspect_width {
        whole + 1
    } else {
        whole
    }
}

/// The mathematical value of a camera.
pub struct CameraModel {
    pub aspect_width: nat,
    pub aspect_height: nat,
    pub image_width: nat,
    pub image_height: nat,
    pub samples_per_pixel: nat,
    pub center: Int3,
    pub pixel00: Int3,
    pub pixel_delta_u: Int3,
    pub pixel_delta_v: Int3,
}

impl CameraModel {
    /// Lattice steps per unit of length. The viewport is two units and
    /// `image_height` pixels high.
    pub open spec fn steps_per_unit(self) -> int {
        HALF_PIXEL * self.image_height
    }

    /// The vector along the top edge of the viewport, left to right.
    pub open spec fn viewport_u(self) -> Int3 {
        Int3 { x: PIXEL_STEPS * self.image_width, y: 0, z: 0 }
    }

    /// The vector down the left edge of the viewport.
    pub open spec fn viewport_v(self) -> Int3 {
        Int3 { x: 0, y: -(PIXEL_STEPS * self.image_height), z: 0 }
    }

    /// The upper left corner of the viewport.
    pub open spec fn viewport_upper_left(self) -> Int3 {
        Int3 {
            x: self.center.x - HALF_PIXEL * self.image_width,
            y: self.center.y + HALF_PIXEL * self.image_height,
            z: self.center.z - self.steps_per_unit(),
        }
    }

    /// The centre of the pixel in column `u` and row `v`.
    pub open spec fn pixel_center(self, u: int, v: int) -> Int3 {
        self.pixel00.plus(self.pixel_delta_u.scaled(u)).plus(self.pixel_delta_v.scaled(v))
    }

    /// The point of pixel `(u, v)` picked by the two draws `dx` and `dy`:
    /// the draws, as fractions of a pixel, less one half, are laid off
    /// from the centre along the two pixel deltas.
    pub open spec fn sample_point(self, u: int, v: int, dx: int, dy: int) -> Int3 {
        self.pixel_center(u, v).plus(Int3 { x: dx - HALF_PIXEL, y: -(dy - HALF_PIXEL), z: 0 })
    }

    /// The ray from the camera through a point of the viewport.
    pub open spec fn ray_through(self, point: Int3) -> Line {
        Line { origin: self.center, direction: point.minus(self.center) }
    }

    /// More than one sample per pixel switches anti-aliasing on.
    pub open spec fn antialiasing(self) -> bool {
        self.samples_per_pixel > 1
    }

    /// Whether `sample` is one of the samples of a render.
    pub open spec fn has_sample(self, sample: Sample) -> bool {
        &&& sample.row < self.image_height
        &&& sample.col < self.image_width
        &&& sample.index < self.samples_per_pixel
    }

    /// The number of samples of a render.
    pub open spec fn sample_count(self) -> nat {
        self.image_height * self.image_width * self.samples_per_pixel
    }

    /// The number of samples taken before `sample`: rows run from top to
    /// bottom, the pixels of a row from left to right, and the samples
    /// of a pixel one after another.
    pub open spec fn rank(self, sample: Sample) -> nat {
        ((sample.row * self.image_width + sample.col) * self.samples_per_pixel
            + sample.index) as nat
    }

    /// The sample taken after `sample`, if any is left.
    pub open spec fn successor(self, sample: Sample) -> Option<Sample> {
        if sample.index + 1 < self.samples_per_pixel {
            Some(Sample { index: (sample.index + 1) as u32, ..sample })
        } else if sample.col + 1 < self.image_width {
            Some(Sample { row: sample.row, col: (sample.col + 1) as u32, index: 0 })
        } else if sample.row + 1 < self.image_height {
            Some(Sample { row: (sample.row + 1) as u32, col: 0, index: 0 })
        } else {
            None
        }
    }

    /// Whether `sample` is the last one of its pixel.
    pub open spec fn completes_pixel(self, sample: Sample) -> bool {
        sample.index + 1 == self.samples_per_pixel
    }

    /// The settings are admissible and everything else follows from them.
    pub open spec fn wf(self) -> bool {
        &&& 1 <= self.aspect_width <= u32::MAX
        &&& 1 <= self.aspect_height <= u32::MAX
        &&& 1 <= self.image_width <= u32::MAX
        &&& 1 <= self.samples_per_pixel <= u32::MAX
        &&& 1 <= self.image_height <= u32::MAX
        &&& self == camera_model(
            self.aspect_width,
            self.aspect_height,
            self.image_width,
            self.samples_per_pixel,
        )
    }
}

/// The camera that the four settings determine.
pub open spec fn camera_model(
    aspect_width: nat,
    aspect_height: nat,
    image_width: nat,
    samples_per_pixel: nat,
) -> CameraModel {
    let image_height = raster_height(image_width, aspect_width, aspect_height);
    CameraModel {
        aspect_width,
        aspect_height,
        image_width,
        image_height,
        samples_per_pixel,
        center: Int3 { x: 0, y: 0, z: 0 },
        pixel00: Int3 {
            x: HALF_PIXEL * (1 - image_width),
            y: HALF_PIXEL * (image_height - 1),
            z: -(HALF_PIXEL * image_height),
        },
        pixel_delta_u: Int3 { x: PIXEL_STEPS as int, y: 0, z: 0 },
        pixel_delta_v: Int3 { x: 0, y: -PIXEL_STEPS as int, z: 0 },
    }
}

/// One sample of a render: a pixel, by row and column, and the number of
/// the sample within the pixel.
#[derive(Clone, Copy, Debug, PartialEq, Eq, Structural)]
pub struct Sample {
    pub row: u32,
    pub col: u32,
    pub index: u32,
}

/// A camera, fully derived from its settings when it is built and
/// read-only afterwards.
#[derive(Debug, PartialEq, Eq, Structural)]
pub struct Camera {
    aspect_width: u32,
    aspect_height: u32,
    image_width: u32,
    samples_per_pixel: u32,
    image_height: u32,
    center: Point3,
    pixel00: Point3,
    pixel_delta_u: Vec3,
    pixel_delta_v: Vec3,
}

impl View for Camera {
    type V = CameraModel;

    closed spec fn view(&self) -> CameraModel {
        CameraModel {
            aspect_width: self.aspect_width as nat,
            aspect_height: self.aspect_height as nat,
            image_width: self.image_width as nat,
            image_height: self.image_height as nat,
            samples_per_pixel: self.samples_per_pixel as nat,
            center: self.center@,
            pixel00: self.pixel00@,
            pixel_delta_u: self.pixel_delta_u@,
            pixel_delta_v: self.pixel_delta_v@,
        }
    }
}

impl Camera {
    #[verifier::type_invariant]
    spec fn well_formed(&self) -> bool {
        self@.wf()
    }

    pub fn builder() -> (builder: CameraBuilder)
        ensures
            builder@ == default_settings(),
    {
        CameraBuilder::new()
    }

    /// The ratio of width over height that was asked for, as the
    /// fraction it was given as.
    pub fn aspect_ratio(&self) -> (ratio: (u32, u32))
        ensures
            ratio.0 == self@.aspect_width,
            ratio.1 == self@.aspect_height,
            self@.wf(),
    {
        proof {
            use_type_invariant(self);
        }
        (self.aspect_width, self.aspect_height)
    }

    /// Columns of the raster.
    pub fn image_width(&self) -> (width: u32)
        ensures
            width == self@.image_width,
            self@.wf(),
    {
        proof {
            use_type_invariant(self);
        }
        self.image_width
    }

    /// Rows of the raster.
    pub fn image_height(&self) -> (height: u32)
        ensures
            height == self@.image_height,
            self@.wf(),
    {
        proof {
            use_type_invariant(self);
        }
        self.image_height
    }

    pub fn samples_per_pixel(&self) -> (samples: u32)
        ensures
            samples == self@.samples_per_pixel,
            self@.wf(),
    {
        proof {
            use_type_invariant(self);
        }
        self.samples_per_pixel
    }

    /// The position of the camera.
    pub fn center(&self) -> (center: Point3)
        ensures
            center@ == self@.center,
            self@.wf(),
    {
        proof {
            use_type_invariant(self);
        }
        self.center
    }

    /// The centre of the pixel in column 0 and row 0.
    pub fn pixel00(&self) -> (point: Point3)
        ensures
            point@ == self@.pixel00,
            self@.wf(),
    {
        proof {
            use_type_invariant(self);
        }
        self.pixel00
    }

    /// The offset from a pixel to its right neighbour.
    pub fn pixel_delta_u(&self) -> (delta: Vec3)
        ensures
            delta@ == self@.pixel_delta_u,
            self@.wf(),
    {
        proof {
            use_type_invariant(self);
        }
        self.pixel_delta_u
    }

    /// The offset from a pixel to the one below it.
    pub fn pixel_delta_v(&self) -> (delta: Vec3)
        ensures
            delta@ == self@.pixel_delta_v,
            self@.wf(),
    {
        proof {
            use_type_invariant(self);
        }
        self.pixel_delta_v
    }

    /// Lattice steps per unit of length: divide a coordinate by this to
    /// leave the lattice.
    pub fn steps_per_unit(&self) -> (steps: i128)
        ensures
            steps == self@.steps_per_unit(),
            steps >= HALF_PIXEL,
            self@.wf(),
    {
        proof {
            use_type_invariant(self);
        }
        let rows: i128 = self.image_height as i128;
        HALF_PIXEL * rows
    }

    /// Whether a pixel is the average of several jittered samples rather
    /// than one sample through its centre.
    pub fn antialiasing_enabled(&self) -> (enabled: bool)
        ensures
            enabled == self@.antialiasing(),
            !enabled <==> self@.samples_per_pixel == 1,
    {
        proof {
            use_type_invariant(self);
        }
        self.samples_per_pixel > 1
    }

    /// The sample with which a render starts: the first one of the upper
    /// left pixel.
    pub fn first_sample(&self) -> (sample: Sample)
        ensures
            sample == (Sample { row: 0, col: 0, index: 0 }),
            self@.has_sample(sample),
            self@.rank(sample) == 0,
    {
        proof {
            use_type_invariant(self);
            assert(0 * self@.image_width == 0);
            assert(0 * self@.samples_per_pixel == 0);
        }
        Sample { row: 0, col: 0, index: 0 }
    }

    /// The sample to take after `sample`; `None` when the render is
    /// complete.
    pub fn next_sample(&self, sample: Sample) -> (next: Option<Sample>)
        ensures
            next == self@.successor(sample),
    {
        proof {
            use_type_invariant(self);
        }
        if sample.index < self.samples_per_pixel - 1 {
            Some(Sample { row: sample.row, col: sample.col, index: sample.index + 1 })
        } else if sample.col < self.image_width - 1 {
            Some(Sample { row: sample.row, col: sample.col + 1, index: 0 })
        } else if sample.row < self.image_height - 1 {
            Some(Sample { row: sample.row + 1, col: 0, index: 0 })
        } else {
            None
        }
    }

    /// Whether the pixel of `sample` is ready to be written once `sample`
    /// has been taken.
    pub fn completes_pixel(&self, sample: Sample) -> (complete: bool)
        ensures
            complete == self@.completes_pixel(sample),
    {
        proof {
            use_type_invariant(self);
        }
        sample.index == self.samples_per_pixel - 1
    }

    /// The ray for one sample of a pixel. With anti-aliasing it is
    /// jittered and costs two draws; without, it goes through the centre
    /// of the pixel and leaves the generator alone.
    pub fn primary_ray(&self, sample: Sample, rng: &mut Rng) -> (ray: Ray)
        ensures
            self@.antialiasing() ==> final(rng)@ == lcg_next(lcg_next(old(rng)@)) && ray@
                == self@.ray_through(
                self@.sample_point(
                    sample.col as int,
                    sample.row as int,
                    lcg_next(old(rng)@) as int,
                    lcg_next(lcg_next(old(rng)@)) as int,
                ),
            ),
            !self@.antialiasing() ==> final(rng)@ == old(rng)@ && ray@ == self@.ray_through(
                self@.pixel_center(sample.col as int, sample.row as int),
            ),
    {
        if self.antialiasing_enabled() {
            self.stochastic_ray(sample.col, sample.row, rng)
        } else {
            self.standard_ray(sample.col, sample.row)
        }
    }

    /// The ray from the camera through a point of pixel `(u, v)` chosen by
    /// two draws, the first for the horizontal and the second for the
    /// vertical offset from the centre.
    pub fn stochastic_ray(&self, u: u32, v: u32, rng: &mut Rng) -> (ray: Ray)
        ensures
            final(rng)@ == lcg_next(lcg_next(old(rng)@)),
            ray@ == self@.ray_through(
                self@.sample_point(
                    u as int,
                    v as int,
                    lcg_next(old(rng)@) as int,
                    lcg_next(lcg_next(old(rng)@)) as int,
                ),
            ),
    {
        proof {
            use_type_invariant(self);
        }
        let dx: i128 = rng.generate() as i128;
        let dy: i128 = rng.generate() as i128;
        let jitter = Vec3::new(dx - HALF_PIXEL, -(dy - HALF_PIXEL), 0);
        let pixel = self.pixel00 + (u * self.pixel_delta_u) + (v * self.pixel_delta_v) + jitter;
        let origin = self.center;
        let direction = pixel - origin;
        Ray::new(origin, direction)
    }

    /// The ray from the camera through the centre of pixel `(u, v)`.
    pub fn standard_ray(&self, u: u32, v: u32) -> (ray: Ray)
        ensures
            ray@ == self@.ray_through(self@.pixel_center(u as int, v as int)),
    {
        proof {
            use_type_invariant(self);
        }
        let pixel = self.pixel00 + (u * self.pixel_delta_u) + (v * self.pixel_delta_v);
        let origin = self.center;
        let direction = pixel - origin;
        Ray::new(origin, direction)
    }
}

/// The mathematical value of a builder: the four settings.
pub struct Settings {
    pub aspect_width: nat,
    pub aspect_height: nat,
    pub image_width: nat,
    pub samples_per_pixel: nat,
}

impl Settings {
    /// The number of rows that a camera built from these settings gets.
    pub open spec fn image_height(self) -> nat {
        raster_height(self.image_width, self.aspect_width, self.aspect_height)
    }

    /// Whether a camera can be built: the raster has at least one row,
    /// and no more than a row index can count.
    pub open spec fn buildable(self) -> bool {
        1 <= self.image_height() <= u32::MAX
    }
}

/// A square raster 100 pixels wide with one sample per pixel.
pub open spec fn default_settings() -> Settings {
    Settings { aspect_width: 1, aspect_height: 1, image_width: 100, samples_per_pixel: 1 }
}

/// Collects the settings of a camera one by one.
pub struct CameraBuilder {
    aspect_width: u32,
    aspect_height: u32,
    image_width: u32,
    samples_per_pixel: u32,
}

impl View for CameraBuilder {
    type V = Settings;

    closed spec fn view(&self) -> Settings {
        Settings {
            aspect_width: self.aspect_width as nat,
            aspect_height: self.aspect_height as nat,
            image_width: self.image_width as nat,
            samples_per_pixel: self.samples_per_pixel as nat,
        }
    }
}

impl CameraBuilder {
    #[verifier::type_invariant]
    spec fn well_formed(&self) -> bool {
        &&& self.aspect_width >= 1
        &&& self.aspect_height >= 1
        &&& self.image_width >= 1
        &&& self.samples_per_pixel >= 1
    }

    pub fn new() -> (builder: CameraBuilder)
        ensures
            builder@ == default_settings(),
    {
        CameraBuilder { aspect_width: 1, aspect_height: 1, image_width: 100, samples_per_pixel: 1 }
    }

    /// Ratio of image width over height, as a fraction of two positive
    /// integers.
    pub fn aspect_ratio(self, width: u32, height: u32) -> (builder: CameraBuilder)
        requires
            width > 0,
            height > 0,
        ensures
            builder@ == (Settings {
                aspect_width: width as nat,
                aspect_height: height as nat,
                ..self@
            }),
    {
        proof {
            use_type_invariant(&self);
        }
        CameraBuilder {
            aspect_width: width,
            aspect_height: height,
            image_width: self.image_width,
            samples_per_pixel: self.samples_per_pixel,
        }
    }

    /// Rendered image width in pixels.
    pub fn image_width(self, width: u32) -> (builder: CameraBuilder)
        requires
            width > 0,
        ensures
            builder@ == (Settings { image_width: width as nat, ..self@ }),
    {
        proof {
            use_type_invariant(&self);
        }
        CameraBuilder {
            aspect_width: self.aspect_width,
            aspect_height: self.aspect_height,
            image_width: width,
            samples_per_pixel: self.samples_per_pixel,
        }
    }

    /// Number of samples for anti-aliasing, at least one. Exactly one
    /// disables anti-aliasing.
    pub fn samples_per_pixel(self, samples_per_pixel: u32) -> (builder: CameraBuilder)
        requires
            samples_per_pixel >= 1,
        ensures
            builder@ == (Settings { samples_per_pixel: samples_per_pixel as nat, ..self@ }),
    {
        proof {
            use_type_invariant(&self);
        }
        CameraBuilder {
            aspect_width: self.aspect_width,
            aspect_height: self.aspect_height,
            image_width: self.image_width,
            samples_per_pixel,
        }
    }

    /// The number of rows that [`CameraBuilder::build`] would derive.
    pub fn image_height(&self) -> (height: u64)
        ensures
            height == self@.image_height(),
            self@.buildable() <==> 1 <= height <= u32::MAX,
    {
        proof {
            use_type_invariant(self);
        }
        let width: u64 = self.image_width as u64;
        let across: u64 = self.aspect_width as u64;
        let down: u64 = self.aspect_height as u64;
        assert(width * down <= 0xffff_ffff * 0xffff_ffff) by (nonlinear_arith)
            requires
                width <= 0xffff_ffff,
                down <= 0xffff_ffff,
        ;
        let whole: u64 = (width * down) / across;
        let left: u64 = (width * down) % across;
        assert(whole <= width * down) by (nonlinear_arith)
            requires
                whole == (width * down) as int / (across as int),
                across >= 1,
                width * down >= 0,
        ;
        // Round to the nearest row: up from half a row on.
        if left >= across - left {
            whole + 1
        } else {
            whole
        }
    }

    /// Creates the camera: derives the height of the raster and lays the
    /// viewport out on the lattice.
    pub fn build(self) -> (camera: Camera)
        requires
            self@.buildable(),
        ensures
            camera@ == camera_model(
                self@.aspect_width,
                self@.aspect_height,
                self@.image_width,
                self@.samples_per_pixel,
            ),
            camera@.wf(),
    {
        proof {
            use_type_invariant(&self);
        }
        let image_width = self.image_width;
        let samples_per_pixel = self.samples_per_pixel;

        // The height of the raster, to the nearest row
        let image_height = self.image_height() as u32;

        let center = Point3::new(0, 0, 0);

        // The viewport is one unit away and two units high, so that half
        // its height is one unit; its width follows from the raster, not
        // from the requested ratio, which makes the pixels square.
        let columns: i128 = image_width as i128;
        let rows: i128 = image_height as i128;
        let focal_length: i128 = HALF_PIXEL * rows;
        let half_viewport_u = Vec3::new(HALF_PIXEL * columns, 0, 0);
        let half_viewport_v = Vec3::new(0, -(HALF_PIXEL * rows), 0);

        // The delta vectors between pixels
        let pixel_delta_u = Vec3::new(PIXEL_STEPS, 0, 0);
        let pixel_delta_v = Vec3::new(0, -PIXEL_STEPS, 0);
        let half_pixel_diagonal = Vec3::new(HALF_PIXEL, -HALF_PIXEL, 0);

        // The location of the upper left pixel
        let viewport_upper_left = center - Vec3::new(0, 0, focal_length) - half_viewport_u
            - half_viewport_v;
        let pixel00 = viewport_upper_left + half_pixel_diagonal;

        Camera {
            aspect_width: self.aspect_width,
            aspect_height: self.aspect_height,
            image_width,
            samples_per_pixel,
            image_height,
            center,
            pixel00,
            pixel_delta_u,
            pixel_delta_v,
        }
    }
}

/// The height of a raster is the whole number nearest to the quotient of
/// the width by the ratio: it is off by no more than half a row, and a
/// quotient half way between two rows goes to the upper one. In one
/// formula, it is twice the width times the ratio's height, plus the
/// ratio's width, over twice the ratio's width, rounded down.
pub proof fn lemma_height_is_nearest_row(image_width: nat, aspect_width: nat, aspect_height: nat)
    requires
        aspect_width >= 1,
    ensures
        raster_height(image_width, aspect_width, aspect_height) == (2 * image_width
            * aspect_height + aspect_width) / (2 * aspect_width),
        ({
            let rows = raster_height(image_width, aspect_width, aspect_height);
            2 * image_width * aspect_height - aspect_width < 2 * aspect_width * rows <= 2
                * image_width * aspect_height + aspect_width
        }),
{
    let area = (image_width * aspect_height) as int;
    let across = aspect_width as int;
    let rows = raster_height(image_width, aspect_width, aspect_height) as int;
    let whole = area / across;
    let left = area % across;
    vstd::arithmetic::div_mod::lemma_fundamental_div_mod(area, across);
    vstd::arithmetic::div_mod::lemma_mod_bound(area, across);
    assert(2 * image_width * aspect_height == 2 * area) by (nonlinear_arith)
        requires
            area == image_width * aspect_height,
    ;
    assert(across * whole + left == area);
    assert(2 * across * rows == 2 * (across * rows)) by (nonlinear_arith);
    assert(across * (whole + 1) == across * whole + across) by (nonlinear_arith);
    // The rounded quotient is the one whose remainder fits under the
    // doubled divisor.
    let over = 2 * area + across - 2 * across * rows;
    assert(0 <= over < 2 * across);
    assert(2 * area + across == (2 * across) * rows + over) by (nonlinear_arith)
        requires
            over == 2 * area + across - 2 * across * rows,
    ;
    vstd::arithmetic::div_mod::lemma_fundamental_div_mod_converse(
        2 * area + across,
        2 * across,
        rows,
        over,
    );
}

/// How the viewport lies on the lattice: it is two units high and as wide
/// as square pixels make it, the pixel deltas divide its edges evenly, its
/// upper left corner is one focal length in front of the camera and half
/// an edge up and to the left, and the first pixel centre is half a pixel
/// diagonal inside that corner.
pub proof fn lemma_viewport_geometry(camera: CameraModel)
    requires
        camera.wf(),
    ensures
        -camera.viewport_v().y == 2 * camera.steps_per_unit(),
        camera.viewport_u().x * camera.image_height == -camera.viewport_v().y
            * camera.image_width,
        camera.pixel_delta_u.scaled(camera.image_width as int) == camera.viewport_u(),
        camera.pixel_delta_v.scaled(camera.image_height as int) == camera.viewport_v(),
        camera.viewport_upper_left().scaled(2) == camera.center.scaled(2).minus(
            Int3 { x: 0, y: 0, z: 2 * camera.steps_per_unit() },
        ).minus(camera.viewport_u()).minus(camera.viewport_v()),
        camera.pixel00.scaled(2) == camera.viewport_upper_left().scaled(2).plus(
            camera.pixel_delta_u.plus(camera.pixel_delta_v),
        ),
{
    let w = camera.image_width as int;
    let h = camera.image_height as int;
    assert((PIXEL_STEPS * w) * h == (PIXEL_STEPS * h) * w) by (nonlinear_arith);
    assert(w * PIXEL_STEPS == PIXEL_STEPS * w) by (nonlinear_arith);
    assert(h * (-PIXEL_STEPS) == -(PIXEL_STEPS * h)) by (nonlinear_arith);
}

/// The centre of pixel `(u, v)` in closed form: pixel centres are a whole
/// pixel apart, and the raster is centred on the axis of the camera.
pub proof fn lemma_pixel_center(camera: CameraModel, u: int, v: int)
    requires
        camera.wf(),
    ensures
        camera.pixel_center(u, v) == (Int3 {
            x: HALF_PIXEL * (2 * u + 1 - camera.image_width),
            y: HALF_PIXEL * (camera.image_height - 1 - 2 * v),
            z: -camera.steps_per_unit(),
        }),
{
    assert(u * PIXEL_STEPS == HALF_PIXEL * (2 * u)) by (nonlinear_arith);
    assert(v * (-PIXEL_STEPS) == HALF_PIXEL * (-2 * v)) by (nonlinear_arith);
}

/// A jittered sample stays within its pixel: it is off the centre by at
/// least minus half a pixel and by less than half a pixel across, and the
/// same, mirrored, down. The draw in the middle of the range picks the
/// centre itself.
pub proof fn lemma_jitter_within_pixel(camera: CameraModel, u: int, v: int, dx: int, dy: int)
    requires
        0 <= dx < PIXEL_STEPS,
        0 <= dy < PIXEL_STEPS,
    ensures
        ({
            let offset = camera.sample_point(u, v, dx, dy).minus(camera.pixel_center(u, v));
            &&& -HALF_PIXEL <= offset.x < HALF_PIXEL
            &&& -HALF_PIXEL < offset.y <= HALF_PIXEL
            &&& offset.z == 0
        }),
        camera.sample_point(u, v, HALF_PIXEL as int, HALF_PIXEL as int) == camera.pixel_center(
            u,
            v,
        ),
{
}

/// The samples of a render are taken in row-major order, each exactly
/// once: the first has rank zero, every successor has the next rank, the
/// samples end with the last rank, and no two samples share a rank.
pub proof fn lemma_schedule_is_row_major(camera: CameraModel, sample: Sample, other: Sample)
    requires
        camera.wf(),
        camera.has_sample(sample),
        camera.has_sample(other),
    ensures
        camera.rank(sample) < camera.sample_count(),
        camera.successor(sample) matches Some(next) ==> camera.has_sample(next) && camera.rank(
            next,
        ) == camera.rank(sample) + 1,
        camera.successor(sample) is None <==> camera.rank(sample) + 1 == camera.sample_count(),
        camera.rank(sample) == camera.rank(other) ==> sample == other,
{
    let w = camera.image_width as int;
    let h = camera.image_height as int;
    let n = camera.samples_per_pixel as int;
    lemma_rank_bounds(w, h, n, sample.row as int, sample.col as int, sample.index as int);
    lemma_rank_bounds(w, h, n, other.row as int, other.col as int, other.index as int);
    let p = sample.row * w + sample.col;
    let q = other.row * w + other.col;
    assert((p + 1) * n == p * n + n) by (nonlinear_arith);
    assert((sample.row + 1) * w + 0 == p + (w - sample.col)) by (nonlinear_arith)
        requires
            p == sample.row * w + sample.col,
    ;
    if let Some(next) = camera.successor(sample) {
        if sample.index + 1 < n {
        } else if sample.col + 1 < w {
            assert(next.row * w + next.col == p + 1);
        } else {
            assert(next.row * w + next.col == p + 1);
        }
    }
    if camera.rank(sample) == camera.rank(other) {
        lemma_mixed_radix_unique(n, p, sample.index as int, q, other.index as int);
        lemma_mixed_radix_unique(
            w,
            sample.row as int,
            sample.col as int,
            other.row as int,
            other.col as int,
        );
    }
}

/// With one sample per pixel there is no anti-aliasing: every pixel has
/// the one sample, which completes it, and a render takes as many samples
/// as the raster has pixels.
pub proof fn lemma_one_sample_per_pixel(camera: CameraModel, sample: Sample)
    requires
        camera.wf(),
        camera.samples_per_pixel == 1,
        camera.has_sample(sample),
    ensures
        !camera.antialiasing(),
        sample.index == 0,
        camera.completes_pixel(sample),
        camera.rank(sample) == sample.row * camera.image_width + sample.col,
        camera.sample_count() == camera.image_height * camera.image_width,
{
    let pixel = sample.row * camera.image_width + sample.col;
    let pixels = camera.image_height * camera.image_width;
    assert(pixel * 1 == pixel);
    assert(pixels * 1 == pixels);
}

/// A rank is below the number of samples, and the last sample of the
/// last pixel has the last rank.
proof fn lemma_rank_bounds(w: int, h: int, n: int, row: int, col: int, index: int)
    requires
        0 <= row < h,
        0 <= col < w,
        0 <= index < n,
    ensures
        0 <= row * w + col < h * w,
        0 <= (row * w + col) * n + index < h * w * n,
        (row == h - 1 && col == w - 1 && index == n - 1) <==> (row * w + col) * n + index + 1 == h
            * w * n,
{
    assert(0 <= row * w + col < h * w) by (nonlinear_arith)
        requires
            0 <= row < h,
            0 <= col < w,
    ;
    let p = row * w + col;
    let pixels = h * w;
    assert(0 <= p * n + index < pixels * n) by (nonlinear_arith)
        requires
            0 <= p < pixels,
            0 <= index < n,
    ;
    if p * n + index + 1 == pixels * n {
        assert(p == pixels - 1 && index == n - 1) by (nonlinear_arith)
            requires
                0 <= p < pixels,
                0 <= index < n,
                p * n + index + 1 == pixels * n,
        ;
        assert(row == h - 1 && col == w - 1) by (nonlinear_arith)
            requires
                0 <= row < h,
                0 <= col < w,
                row * w + col == h * w - 1,
        ;
    }
    if row == h - 1 && col == w - 1 && index == n - 1 {
        assert((h - 1) * w + (w - 1) == h * w - 1) by (nonlinear_arith);
        assert((pixels - 1) * n + (n - 1) + 1 == pixels * n) by (nonlinear_arith);
    }
}

/// A number has one representation with a digit below the radix.
proof fn lemma_mixed_radix_unique(radix: int, high: int, low: int, high2: int, low2: int)
    requires
        0 <= low < radix,
        0 <= low2 < radix,
        high * radix + low == high2 * radix + low2,
    ensures
        high == high2,
        low == low2,
{
    assert(high == high2) by (nonlinear_arith)
        requires
            0 <= low < radix,
            0 <= low2 < radix,
            high * radix + low == high2 * radix + low2,
    ;
}

} // verus!
