//! Combinators that build a shape from one or two shapes.
//!
//! The booleans take the minimum or maximum of their operands' distances.
//! Far from the seam where the operands meet this is the exact distance;
//! near it the result can fall below the true distance, as with every
//! boolean on distance fields.
use crate::math::floor_div;
use crate::primitives::Axis;
use crate::sdf::SDF;
use crate::vector::{Vec2, Vec3};
use vstd::math::{max, min};
use vstd::prelude::*;

verus! {

/// The points in either of two shapes.
#[derive(Clone, Copy, Debug)]
pub struct Union<A, B> {
    pub a: A,
    pub b: B,
}

/// The points of `a` that are not in `b`.
#[derive(Clone, Copy, Debug)]
pub struct Subtract<A, B> {
    pub a: A,
    pub b: B,
}

/// The points in both of two shapes.
#[derive(Clone, Copy, Debug)]
pub struct Intersect<A, B> {
    pub a: A,
    pub b: B,
}

/// A shape moved by `offset`.
#[derive(Clone, Copy, Debug)]
pub struct Translate<S, V> {
    pub shape: S,
    pub offset: V,
}

/// A two-dimensional shape turned counter-clockwise about the origin by
/// `quarter_turns` right angles. Lattice points map to lattice points, so
/// the distance stays exact.
#[derive(Clone, Copy, Debug)]
pub struct Rotate<S> {
    pub shape: S,
    pub quarter_turns: u32,
}

/// The point that a turn by `quarter_turns` right angles carries onto `p`.
pub open spec fn unturn(p: Vec2, quarter_turns: u32) -> Vec2 {
    if quarter_turns % 4 == 0 {
        p
    } else if quarter_turns % 4 == 1 {
        Vec2 { x: p.y, y: -p.x as i64 }
    } else if quarter_turns % 4 == 2 {
        Vec2 { x: -p.x as i64, y: -p.y as i64 }
    } else {
        Vec2 { x: -p.y as i64, y: p.x }
    }
}

/// A shape enlarged by `factor` about the origin.
///
/// The query point is shrunk by `factor`, each coordinate rounded down, and
/// the distance found there is multiplied by `factor`. This is exact where
/// the point's coordinates are multiples of `factor`; between those points
/// it is only an approximation.
#[derive(Clone, Copy, Debug)]
pub struct Scale<S> {
    pub shape: S,
    pub factor: i64,
}

/// `p` with each coordinate divided by `k`, rounded down.
pub open spec fn shrink2(p: Vec2, k: i64) -> Vec2 {
    Vec2 { x: (p.x / k) as i64, y: (p.y / k) as i64 }
}

/// `p` with each coordinate divided by `k`, rounded down.
pub open spec fn shrink3(p: Vec3, k: i64) -> Vec3 {
    Vec3 { x: (p.x / k) as i64, y: (p.y / k) as i64, z: (p.z / k) as i64 }
}

/// The point that a turn by `quarter_turns` right angles carries onto `p`.
fn turn_back(p: Vec2, quarter_turns: u32) -> (r: Vec2)
    requires
        p.x > i64::MIN,
        p.y > i64::MIN,
    ensures
        r == unturn(p, quarter_turns),
{
    let turns = quarter_turns % 4;
    if turns == 0 {
        p
    } else if turns == 1 {
        Vec2 { x: p.y, y: -p.x }
    } else if turns == 2 {
        Vec2 { x: -p.x, y: -p.y }
    } else {
        Vec2 { x: -p.y, y: p.x }
    }
}

/// A three-dimensional shape turned by `quarter_turns` right angles about
/// `axis`, counter-clockwise when seen from the positive end of the axis.
/// Lattice points map to lattice points, so the distance stays exact.
#[derive(Clone, Copy, Debug)]
pub struct RotateAbout<S> {
    pub shape: S,
    pub axis: Axis,
    pub quarter_turns: u32,
}

/// The point that a turn of `quarter_turns` right angles about `axis`
/// carries onto `p`.
pub open spec fn unturn_about(p: Vec3, axis: Axis, quarter_turns: u32) -> Vec3 {
    match axis {
        Axis::X => {
            let q = unturn(Vec2 { x: p.y, y: p.z }, quarter_turns);
            Vec3 { x: p.x, y: q.x, z: q.y }
        },
        Axis::Y => {
            let q = unturn(Vec2 { x: p.z, y: p.x }, quarter_turns);
            Vec3 { x: q.y, y: p.y, z: q.x }
        },
        Axis::Z => {
            let q = unturn(Vec2 { x: p.x, y: p.y }, quarter_turns);
            Vec3 { x: q.x, y: q.y, z: p.z }
        },
    }
}

/// `shape` turned by `quarter_turns` right angles about `axis`.
pub fn rotate_about<S>(shape: S, axis: Axis, quarter_turns: u32) -> (r: RotateAbout<S>)
    ensures
        r.shape == shape,
        r.axis == axis,
        r.quarter_turns == quarter_turns,
{
    RotateAbout { shape, axis, quarter_turns }
}

/// The union of `a` and `b`.
pub fn union<A, B>(a: A, b: B) -> (r: Union<A, B>)
    ensures
        r.a == a,
        r.b == b,
{
    Union { a, b }
}

/// `a` with `b` cut out of it.
pub fn subtract<A, B>(a: A, b: B) -> (r: Subtract<A, B>)
    ensures
        r.a == a,
        r.b == b,
{
    Subtract { a, b }
}

/// The intersection of `a` and `b`.
pub fn intersect<A, B>(a: A, b: B) -> (r: Intersect<A, B>)
    ensures
        r.a == a,
        r.b == b,
{
    Intersect { a, b }
}

/// `shape` moved by `offset`.
pub fn translate<S, V>(shape: S, offset: V) -> (r: Translate<S, V>)
    ensures
        r.shape == shape,
        r.offset == offset,
{
    Translate { shape, offset }
}

/// `shape` turned counter-clockwise by `quarter_turns` right angles.
pub fn rotate<S>(shape: S, quarter_turns: u32) -> (r: Rotate<S>)
    ensures
        r.shape == shape,
        r.quarter_turns == quarter_turns,
{
    Rotate { shape, quarter_turns }
}

/// `shape` enlarged by `factor` about the origin.
pub fn scale<S>(shape: S, factor: i64) -> (r: Scale<S>)
    ensures
        r.shape == shape,
        r.factor == factor,
{
    Scale { shape, factor }
}

impl<V: Copy, A: SDF<V>, B: SDF<V>> SDF<V> for Union<A, B> {
    open spec fn spec_dist(&self, p: V) -> int {
        min(self.a.spec_dist(p), self.b.spec_dist(p))
    }

    open spec fn defined_at(&self, p: V) -> bool {
        self.a.defined_at(p) && self.b.defined_at(p)
    }

    fn dist(&self, p: V) -> (r: i64) {
        let da = self.a.dist(p);
        let db = self.b.dist(p);
        if da < db {
            da
        } else {
            db
        }
    }
}

impl<V: Copy, A: SDF<V>, B: SDF<V>> SDF<V> for Subtract<A, B> {
    open spec fn spec_dist(&self, p: V) -> int {
        max(self.a.spec_dist(p), -self.b.spec_dist(p))
    }

    open spec fn defined_at(&self, p: V) -> bool {
        self.a.defined_at(p) && self.b.defined_at(p)
    }

    fn dist(&self, p: V) -> (r: i64) {
        let da = self.a.dist(p);
        let db = -self.b.dist(p);
        if da > db {
            da
        } else {
            db
        }
    }
}

impl<V: Copy, A: SDF<V>, B: SDF<V>> SDF<V> for Intersect<A, B> {
    open spec fn spec_dist(&self, p: V) -> int {
        max(self.a.spec_dist(p), self.b.spec_dist(p))
    }

    open spec fn defined_at(&self, p: V) -> bool {
        self.a.defined_at(p) && self.b.defined_at(p)
    }

    fn dist(&self, p: V) -> (r: i64) {
        let da = self.a.dist(p);
        let db = self.b.dist(p);
        if da > db {
            da
        } else {
            db
        }
    }
}

impl<S: SDF<Vec2>> SDF<Vec2> for Translate<S, Vec2> {
    open spec fn spec_dist(&self, p: Vec2) -> int {
        self.shape.spec_dist(p.minus(self.offset))
    }

    open spec fn defined_at(&self, p: Vec2) -> bool {
        &&& i64::MIN <= p.x - self.offset.x <= i64::MAX
        &&& i64::MIN <= p.y - self.offset.y <= i64::MAX
        &&& self.shape.defined_at(p.minus(self.offset))
    }

    fn dist(&self, p: Vec2) -> (r: i64) {
        self.shape.dist(p.sub(&self.offset))
    }
}

impl<S: SDF<Vec3>> SDF<Vec3> for Translate<S, Vec3> {
    open spec fn spec_dist(&self, p: Vec3) -> int {
        self.shape.spec_dist(p.minus(self.offset))
    }

    open spec fn defined_at(&self, p: Vec3) -> bool {
        &&& i64::MIN <= p.x - self.offset.x <= i64::MAX
        &&& i64::MIN <= p.y - self.offset.y <= i64::MAX
        &&& i64::MIN <= p.z - self.offset.z <= i64::MAX
        &&& self.shape.defined_at(p.minus(self.offset))
    }

    fn dist(&self, p: Vec3) -> (r: i64) {
        self.shape.dist(p.sub(&self.offset))
    }
}

impl<S: SDF<Vec2>> SDF<Vec2> for Rotate<S> {
    open spec fn spec_dist(&self, p: Vec2) -> int {
        self.shape.spec_dist(unturn(p, self.quarter_turns))
    }

    open spec fn defined_at(&self, p: Vec2) -> bool {
        &&& p.x > i64::MIN
        &&& p.y > i64::MIN
        &&& self.shape.defined_at(unturn(p, self.quarter_turns))
    }

    fn dist(&self, p: Vec2) -> (r: i64) {
        self.shape.dist(turn_back(p, self.quarter_turns))
    }
}

impl<S: SDF<Vec2>> SDF<Vec2> for Scale<S> {
    open spec fn spec_dist(&self, p: Vec2) -> int {
        self.shape.spec_dist(shrink2(p, self.factor)) * self.factor
    }

    open spec fn defined_at(&self, p: Vec2) -> bool {
        &&& self.factor > 0
        &&& self.shape.defined_at(shrink2(p, self.factor))
        &&& i64::MIN < self.shape.spec_dist(shrink2(p, self.factor)) * self.factor <= i64::MAX
    }

    fn dist(&self, p: Vec2) -> (r: i64) {
        let q = Vec2 { x: floor_div(p.x, self.factor), y: floor_div(p.y, self.factor) };
        self.shape.dist(q) * self.factor
    }
}

impl<S: SDF<Vec3>> SDF<Vec3> for Scale<S> {
    open spec fn spec_dist(&self, p: Vec3) -> int {
        self.shape.spec_dist(shrink3(p, self.factor)) * self.factor
    }

    open spec fn defined_at(&self, p: Vec3) -> bool {
        &&& self.factor > 0
        &&& self.shape.defined_at(shrink3(p, self.factor))
        &&& i64::MIN < self.shape.spec_dist(shrink3(p, self.factor)) * self.factor <= i64::MAX
    }

    fn dist(&self, p: Vec3) -> (r: i64) {
        let q = Vec3 {
            x: floor_div(p.x, self.factor),
            y: floor_div(p.y, self.factor),
            z: floor_div(p.z, self.factor),
        };
        self.shape.dist(q) * self.factor
    }
}

impl<S: SDF<Vec3>> SDF<Vec3> for RotateAbout<S> {
    open spec fn spec_dist(&self, p: Vec3) -> int {
        self.shape.spec_dist(unturn_about(p, self.axis, self.quarter_turns))
    }

    open spec fn defined_at(&self, p: Vec3) -> bool {
        &&& p.x > i64::MIN
        &&& p.y > i64::MIN
        &&& p.z > i64::MIN
        &&& self.shape.defined_at(unturn_about(p, self.axis, self.quarter_turns))
    }

    fn dist(&self, p: Vec3) -> (r: i64) {
        let q = match self.axis {
            Axis::X => {
                let t = turn_back(Vec2 { x: p.y, y: p.z }, self.quarter_turns);
                Vec3 { x: p.x, y: t.x, z: t.y }
            },
            Axis::Y => {
                let t = turn_back(Vec2 { x: p.z, y: p.x }, self.quarter_turns);
                Vec3 { x: t.y, y: p.y, z: t.x }
            },
            Axis::Z => {
                let t = turn_back(Vec2 { x: p.x, y: p.y }, self.quarter_turns);
                Vec3 { x: t.x, y: t.y, z: p.z }
            },
        };
        self.shape.dist(q)
    }
}

} // verus!
