//! Vectors of three integers.
//!
//! One representation serves as direction, as point and as colour. The
//! components are lattice coordinates: whoever hands a vector out says how
//! many lattice steps make one unit.

use vstd::prelude::*;

verus! {

/// The mathematical value of a vector: three unbounded integers.
pub struct Int3 {
    pub x: int,
    pub y: int,
    pub z: int,
}

/// Whether an integer is representable as a component.
pub open spec fn fits(n: int) -> bool {
    i128::MIN <= n <= i128::MAX
}

impl Int3 {
    pub open spec fn plus(self, rhs: Int3) -> Int3 {
        Int3 { x: self.x + rhs.x, y: self.y + rhs.y, z: self.z + rhs.z }
    }

    pub open spec fn minus(self, rhs: Int3) -> Int3 {
        Int3 { x: self.x - rhs.x, y: self.y - rhs.y, z: self.z - rhs.z }
    }

    pub open spec fn negated(self) -> Int3 {
        Int3 { x: -self.x, y: -self.y, z: -self.z }
    }

    pub open spec fn scaled(self, k: int) -> Int3 {
        Int3 { x: k * self.x, y: k * self.y, z: k * self.z }
    }

    pub open spec fn dot(self, rhs: Int3) -> int {
        self.x * rhs.x + self.y * rhs.y + self.z * rhs.z
    }

    pub open spec fn length_squared(self) -> int {
        self.dot(self)
    }

    /// Every component is representable.
    pub open spec fn fits(self) -> bool {
        fits(self.x) && fits(self.y) && fits(self.z)
    }

    /// The dot product can be accumulated left to right without leaving
    /// the machine range.
    pub open spec fn dot_fits(self, rhs: Int3) -> bool {
        &&& fits(self.x * rhs.x)
        &&& fits(self.y * rhs.y)
        &&& fits(self.z * rhs.z)
        &&& fits(self.x * rhs.x + self.y * rhs.y)
        &&& fits(self.dot(rhs))
    }
}

/// A vector with machine-integer components.
#[derive(Clone, Copy, Debug, PartialEq, Eq, Structural)]
pub struct Vec3 {
    x: i128,
    y: i128,
    z: i128,
}

pub type Point3 = Vec3;

impl View for Vec3 {
    type V = Int3;

    closed spec fn view(&self) -> Int3 {
        Int3 { x: self.x as int, y: self.y as int, z: self.z as int }
    }
}

impl Vec3 {
    pub fn new(e0: i128, e1: i128, e2: i128) -> (v: Vec3)
        ensures
            v@ == (Int3 { x: e0 as int, y: e1 as int, z: e2 as int }),
    {
        Vec3 { x: e0, y: e1, z: e2 }
    }

    pub fn x(&self) -> (c: i128)
        ensures
            c == self@.x,
    {
        self.x
    }

    pub fn y(&self) -> (c: i128)
        ensures
            c == self@.y,
    {
        self.y
    }

    pub fn z(&self) -> (c: i128)
        ensures
            c == self@.z,
    {
        self.z
    }

    /// The squared Euclidean length, in squared lattice steps.
    pub fn length_squared(&self) -> (n: i128)
        requires
            self@.dot_fits(self@),
        ensures
            n == self@.length_squared(),
    {
        self.x * self.x + self.y * self.y + self.z * self.z
    }
}

/// The dot product of two vectors.
pub fn dot(u: Vec3, v: Vec3) -> (n: i128)
    requires
        u@.dot_fits(v@),
    ensures
        n == u@.dot(v@),
{
    u.x * v.x + u.y * v.y + u.z * v.z
}

impl Default for Vec3 {
    /// The zero vector.
    fn default() -> (v: Vec3)
        ensures
            v@ == (Int3 { x: 0, y: 0, z: 0 }),
    {
        Vec3 { x: 0, y: 0, z: 0 }
    }
}

impl core::ops::Add for Vec3 {
    type Output = Vec3;

    /// Componentwise sum.
    fn add(self, rhs: Vec3) -> (sum: Vec3)
        ensures
            sum@ == self@.plus(rhs@),
    {
        Vec3 { x: self.x + rhs.x, y: self.y + rhs.y, z: self.z + rhs.z }
    }
}

impl vstd::std_specs::ops::AddSpecImpl for Vec3 {
    open spec fn obeys_add_spec() -> bool {
        true
    }

    open spec fn add_req(self, rhs: Vec3) -> bool {
        self@.plus(rhs@).fits()
    }

    closed spec fn add_spec(self, rhs: Vec3) -> Vec3 {
        Vec3 {
            x: (self.x + rhs.x) as i128,
            y: (self.y + rhs.y) as i128,
            z: (self.z + rhs.z) as i128,
        }
    }
}

impl core::ops::Sub for Vec3 {
    type Output = Vec3;

    /// Componentwise difference.
    fn sub(self, rhs: Vec3) -> (difference: Vec3)
        ensures
            difference@ == self@.minus(rhs@),
    {
        Vec3 { x: self.x - rhs.x, y: self.y - rhs.y, z: self.z - rhs.z }
    }
}

impl vstd::std_specs::ops::SubSpecImpl for Vec3 {
    open spec fn obeys_sub_spec() -> bool {
        true
    }

    open spec fn sub_req(self, rhs: Vec3) -> bool {
        self@.minus(rhs@).fits()
    }

    closed spec fn sub_spec(self, rhs: Vec3) -> Vec3 {
        Vec3 {
            x: (self.x - rhs.x) as i128,
            y: (self.y - rhs.y) as i128,
            z: (self.z - rhs.z) as i128,
        }
    }
}

impl core::ops::Mul<Vec3> for i128 {
    type Output = Vec3;

    /// The vector scaled by the integer on the left.
    fn mul(self, rhs: Vec3) -> (product: Vec3)
        ensures
            product@ == rhs@.scaled(self as int),
    {
        Vec3 { x: self * rhs.x, y: self * rhs.y, z: self * rhs.z }
    }
}

impl vstd::std_specs::ops::MulSpecImpl<Vec3> for i128 {
    open spec fn obeys_mul_spec() -> bool {
        true
    }

    open spec fn mul_req(self, rhs: Vec3) -> bool {
        rhs@.scaled(self as int).fits()
    }

    closed spec fn mul_spec(self, rhs: Vec3) -> Vec3 {
        Vec3 {
            x: (self * rhs.x) as i128,
            y: (self * rhs.y) as i128,
            z: (self * rhs.z) as i128,
        }
    }
}

impl core::ops::Mul<Vec3> for u32 {
    type Output = Vec3;

    /// The vector scaled by a count on the left.
    fn mul(self, rhs: Vec3) -> (product: Vec3)
        ensures
            product@ == rhs@.scaled(self as int),
    {
        let k: i128 = self as i128;
        Vec3 { x: k * rhs.x, y: k * rhs.y, z: k * rhs.z }
    }
}

impl vstd::std_specs::ops::MulSpecImpl<Vec3> for u32 {
    open spec fn obeys_mul_spec() -> bool {
        true
    }

    open spec fn mul_req(self, rhs: Vec3) -> bool {
        rhs@.scaled(self as int).fits()
    }

    closed spec fn mul_spec(self, rhs: Vec3) -> Vec3 {
        Vec3 {
            x: (self * rhs.x) as i128,
            y: (self * rhs.y) as i128,
            z: (self * rhs.z) as i128,
        }
    }
}

impl core::ops::Neg for Vec3 {
    type Output = Vec3;

    /// The opposite vector.
    fn neg(self) -> (opposite: Vec3)
        ensures
            opposite@ == self@.negated(),
    {
        Vec3 { x: -self.x, y: -self.y, z: -self.z }
    }
}

impl vstd::std_specs::ops::NegSpecImpl for Vec3 {
    open spec fn obeys_neg_spec() -> bool {
        true
    }

    open spec fn neg_req(self) -> bool {
        self@.negated().fits()
    }

    closed spec fn neg_spec(self) -> Vec3 {
        Vec3 { x: (-self.x) as i128, y: (-self.y) as i128, z: (-self.z) as i128 }
    }
}

/// Addition is commutative and associative, and subtraction undoes it.
pub proof fn lemma_addition_laws(a: Int3, b: Int3, c: Int3)
    ensures
        a.plus(b) == b.plus(a),
        a.plus(b).plus(c) == a.plus(b.plus(c)),
        a.plus(b).minus(b) == a,
        a.minus(b) == a.plus(b.negated()),
{
}

/// Scaling distributes over addition and composes by multiplication.
pub proof fn lemma_scaling_laws(a: Int3, b: Int3, j: int, k: int)
    ensures
        a.plus(b).scaled(k) == a.scaled(k).plus(b.scaled(k)),
        a.scaled(j + k) == a.scaled(j).plus(a.scaled(k)),
        a.scaled(k).scaled(j) == a.scaled(j * k),
        a.scaled(1) == a,
        a.scaled(-1) == a.negated(),
{
    assert(k * (a.x + b.x) == k * a.x + k * b.x) by (nonlinear_arith);
    assert(k * (a.y + b.y) == k * a.y + k * b.y) by (nonlinear_arith);
    assert(k * (a.z + b.z) == k * a.z + k * b.z) by (nonlinear_arith);
    assert((j + k) * a.x == j * a.x + k * a.x) by (nonlinear_arith);
    assert((j + k) * a.y == j * a.y + k * a.y) by (nonlinear_arith);
    assert((j + k) * a.z == j * a.z + k * a.z) by (nonlinear_arith);
    assert(j * (k * a.x) == (j * k) * a.x) by (nonlinear_arith);
    assert(j * (k * a.y) == (j * k) * a.y) by (nonlinear_arith);
    assert(j * (k * a.z) == (j * k) * a.z) by (nonlinear_arith);
}

/// The dot product is symmetric and linear, and a squared length is never
/// negative.
pub proof fn lemma_dot_laws(a: Int3, b: Int3, c: Int3, k: int)
    ensures
        a.dot(b) == b.dot(a),
        a.plus(b).dot(c) == a.dot(c) + b.dot(c),
        a.scaled(k).dot(b) == k * a.dot(b),
        a.negated().dot(b) == -a.dot(b),
        a.length_squared() >= 0,
{
    assert(a.dot(b) == b.dot(a)) by (nonlinear_arith);
    assert(a.plus(b).dot(c) == a.dot(c) + b.dot(c)) by (nonlinear_arith);
    assert((k * a.x) * b.x == k * (a.x * b.x)) by (nonlinear_arith);
    assert((k * a.y) * b.y == k * (a.y * b.y)) by (nonlinear_arith);
    assert((k * a.z) * b.z == k * (a.z * b.z)) by (nonlinear_arith);
    let (p, q, r) = (a.x * b.x, a.y * b.y, a.z * b.z);
    assert(k * (p + q + r) == k * p + k * q + k * r) by (nonlinear_arith);
    assert(a.negated().dot(b) == -a.dot(b)) by (nonlinear_arith);
    assert(a.length_squared() >= 0) by (nonlinear_arith);
}

} // verus!
