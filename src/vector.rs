//! Two- and three-component lattice vectors.
use crate::math::{floor_sqrt, hypot2, hypot3, SPAN_MAX};
use vstd::prelude::*;

verus! {

/// Largest coordinate magnitude of a query point or a shape parameter.
pub const COORD_MAX: i64 = 536_870_912;

/// Whether `x` lies in the coordinate range every shape accepts.
pub open spec fn in_range(x: int) -> bool {
    -COORD_MAX <= x <= COORD_MAX
}

/// A two-component vector.
#[derive(Clone, Copy, Debug, PartialEq, Eq, Structural)]
pub struct Vec2 {
    pub x: i64,
    pub y: i64,
}

/// A three-component vector.
#[derive(Clone, Copy, Debug, PartialEq, Eq, Structural)]
pub struct Vec3 {
    pub x: i64,
    pub y: i64,
    pub z: i64,
}

impl Vec2 {
    /// Both components lie in the coordinate range.
    pub open spec fn in_range(self) -> bool {
        in_range(self.x as int) && in_range(self.y as int)
    }

    /// The squared Euclidean norm.
    pub open spec fn norm_sq(self) -> int {
        self.x * self.x + self.y * self.y
    }

    /// The dot product.
    pub open spec fn spec_dot(self, o: Vec2) -> int {
        self.x * o.x + self.y * o.y
    }

    /// The component-wise difference, exact wherever it fits in `i64`.
    pub open spec fn minus(self, o: Vec2) -> Vec2 {
        Vec2 { x: (self.x - o.x) as i64, y: (self.y - o.y) as i64 }
    }

    /// The component-wise sum, exact wherever it fits in `i64`.
    pub open spec fn plus(self, o: Vec2) -> Vec2 {
        Vec2 { x: (self.x + o.x) as i64, y: (self.y + o.y) as i64 }
    }

    pub fn new(x: i64, y: i64) -> (r: Vec2)
        ensures
            r == (Vec2 { x, y }),
    {
        Vec2 { x, y }
    }

    /// The floor of the Euclidean norm.
    pub fn magnitude(&self) -> (r: i64)
        requires
            -SPAN_MAX <= self.x <= SPAN_MAX,
            -SPAN_MAX <= self.y <= SPAN_MAX,
        ensures
            r == floor_sqrt(self.norm_sq()),
    {
        hypot2(self.x, self.y)
    }

    /// The component-wise difference.
    pub fn sub(&self, o: &Vec2) -> (r: Vec2)
        requires
            i64::MIN <= self.x - o.x <= i64::MAX,
            i64::MIN <= self.y - o.y <= i64::MAX,
        ensures
            r == self.minus(*o),
            r.x == self.x - o.x,
            r.y == self.y - o.y,
    {
        Vec2 { x: self.x - o.x, y: self.y - o.y }
    }

    /// The dot product.
    pub fn dot(&self, o: &Vec2) -> (r: i128)
        requires
            -SPAN_MAX <= self.x <= SPAN_MAX,
            -SPAN_MAX <= self.y <= SPAN_MAX,
            -SPAN_MAX <= o.x <= SPAN_MAX,
            -SPAN_MAX <= o.y <= SPAN_MAX,
        ensures
            r == self.spec_dot(*o),
    {
        proof {
            lemma_product_bound(self.x as int, o.x as int);
            lemma_product_bound(self.y as int, o.y as int);
        }
        (self.x as i128) * (o.x as i128) + (self.y as i128) * (o.y as i128)
    }
}

impl Vec3 {
    /// All three components lie in the coordinate range.
    pub open spec fn in_range(self) -> bool {
        in_range(self.x as int) && in_range(self.y as int) && in_range(self.z as int)
    }

    /// The squared Euclidean norm.
    pub open spec fn norm_sq(self) -> int {
        self.x * self.x + self.y * self.y + self.z * self.z
    }

    /// The dot product.
    pub open spec fn spec_dot(self, o: Vec3) -> int {
        self.x * o.x + self.y * o.y + self.z * o.z
    }

    /// The component-wise difference, exact wherever it fits in `i64`.
    pub open spec fn minus(self, o: Vec3) -> Vec3 {
        Vec3 { x: (self.x - o.x) as i64, y: (self.y - o.y) as i64, z: (self.z - o.z) as i64 }
    }

    /// The component-wise sum, exact wherever it fits in `i64`.
    pub open spec fn plus(self, o: Vec3) -> Vec3 {
        Vec3 { x: (self.x + o.x) as i64, y: (self.y + o.y) as i64, z: (self.z + o.z) as i64 }
    }

    pub fn new(x: i64, y: i64, z: i64) -> (r: Vec3)
        ensures
            r == (Vec3 { x, y, z }),
    {
        Vec3 { x, y, z }
    }

    /// The floor of the Euclidean norm.
    pub fn magnitude(&self) -> (r: i64)
        requires
            -SPAN_MAX <= self.x <= SPAN_MAX,
            -SPAN_MAX <= self.y <= SPAN_MAX,
            -SPAN_MAX <= self.z <= SPAN_MAX,
        ensures
            r == floor_sqrt(self.norm_sq()),
    {
        hypot3(self.x, self.y, self.z)
    }

    /// The component-wise difference.
    pub fn sub(&self, o: &Vec3) -> (r: Vec3)
        requires
            i64::MIN <= self.x - o.x <= i64::MAX,
            i64::MIN <= self.y - o.y <= i64::MAX,
            i64::MIN <= self.z - o.z <= i64::MAX,
        ensures
            r == self.minus(*o),
            r.x == self.x - o.x,
            r.y == self.y - o.y,
            r.z == self.z - o.z,
    {
        Vec3 { x: self.x - o.x, y: self.y - o.y, z: self.z - o.z }
    }

    /// The dot product.
    pub fn dot(&self, o: &Vec3) -> (r: i128)
        requires
            -SPAN_MAX <= self.x <= SPAN_MAX,
            -SPAN_MAX <= self.y <= SPAN_MAX,
            -SPAN_MAX <= self.z <= SPAN_MAX,
            -SPAN_MAX <= o.x <= SPAN_MAX,
            -SPAN_MAX <= o.y <= SPAN_MAX,
            -SPAN_MAX <= o.z <= SPAN_MAX,
        ensures
            r == self.spec_dot(*o),
    {
        proof {
            lemma_product_bound(self.x as int, o.x as int);
            lemma_product_bound(self.y as int, o.y as int);
            lemma_product_bound(self.z as int, o.z as int);
        }
        (self.x as i128) * (o.x as i128) + (self.y as i128) * (o.y as i128) + (self.z as i128) * (
        o.z as i128)
    }
}

/// A product of two values within `SPAN_MAX` stays within `SPAN_MAX * SPAN_MAX`.
proof fn lemma_product_bound(a: int, b: int)
    requires
        -SPAN_MAX <= a <= SPAN_MAX,
        -SPAN_MAX <= b <= SPAN_MAX,
    ensures
        -0x1_0000_0000_0000_0000 <= a * b <= 0x1_0000_0000_0000_0000,
{
    assert(-0x1_0000_0000_0000_0000 <= a * b <= 0x1_0000_0000_0000_0000) by (nonlinear_arith)
        requires
            -0x1_0000_0000 <= a <= 0x1_0000_0000,
            -0x1_0000_0000 <= b <= 0x1_0000_0000,
    ;
}

} // verus!
