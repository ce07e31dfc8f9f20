//! Rays: a point of departure and a direction.

use vstd::prelude::*;
use crate::vec3::{Int3, Point3, Vec3};

verus! {

/// The mathematical value of a ray.
pub struct Line {
    pub origin: Int3,
    pub direction: Int3,
}

impl Line {
    /// The point reached after `t` times the direction.
    pub open spec fn at(self, t: int) -> Int3 {
        self.origin.plus(self.direction.scaled(t))
    }
}

/// A ray on the lattice. The direction need not have any particular
/// length.
#[derive(Clone, Copy, Debug, PartialEq, Eq, Structural)]
pub struct Ray {
    orig: Point3,
    dir: Vec3,
}

impl View for Ray {
    type V = Line;

    closed spec fn view(&self) -> Line {
        Line { origin: self.orig@, direction: self.dir@ }
    }
}

impl Ray {
    pub fn new(origin: Point3, direction: Vec3) -> (ray: Ray)
        ensures
            ray@ == (Line { origin: origin@, direction: direction@ }),
    {
        Ray { orig: origin, dir: direction }
    }

    pub fn origin(&self) -> (origin: Point3)
        ensures
            origin@ == self@.origin,
    {
        self.orig
    }

    pub fn direction(&self) -> (direction: Vec3)
        ensures
            direction@ == self@.direction,
    {
        self.dir
    }

    /// The point at parameter `t`. Any `t` is accepted, also a negative
    /// one; only the machine range limits it.
    pub fn at(&self, t: i128) -> (point: Point3)
        requires
            self@.direction.scaled(t as int).fits(),
            self@.at(t as int).fits(),
        ensures
            point@ == self@.at(t as int),
    {
        self.orig + t * self.dir
    }
}

/// A ray starts at its origin and advances by its direction per unit of
/// the parameter.
pub proof fn lemma_ray_is_affine(line: Line, s: int, t: int)
    ensures
        line.at(0) == line.origin,
        line.at(s + t) == line.at(s).plus(line.direction.scaled(t)),
{
    let d = line.direction;
    assert((s + t) * d.x == s * d.x + t * d.x) by (nonlinear_arith);
    assert((s + t) * d.y == s * d.y + t * d.y) by (nonlinear_arith);
    assert((s + t) * d.z == s * d.z + t * d.z) by (nonlinear_arith);
}

} // verus!
