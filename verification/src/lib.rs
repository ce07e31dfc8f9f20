//! The exact core of a small diffuse ray tracer.
//!
//! Everything a render decides without rounding lives here, in integer
//! arithmetic and with proved contracts: the pseudo-random stream, the
//! camera lattice and its primary rays, the sample schedule, the bounce
//! budget, nearest-hit resolution and channel quantisation. Callers
//! supply the real-valued geometry and shading around it.

pub mod camera;
pub mod color;
pub mod hittable;
pub mod hittable_list;
pub mod interval;
pub mod random;
pub mod ray;
pub mod shading;
pub mod vec3;
