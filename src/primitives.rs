//! Primitive shapes, each centred on the origin.
//!
//! A primitive is placed elsewhere by wrapping it in a transform from
//! `ops`, never by changing its fields.
use crate::math::{abs_i64, abs_of, lemma_rounded_shell_bound, pos, rounded_shell, shell_dist};
use crate::ring::{ring_ceil, ring_ceil_exec, ring_floor, ring_floor_exec, ring_le, ring_lt, ring_test};
use crate::sdf::SDF;
use crate::vector::{in_range, Vec2, Vec3, COORD_MAX};
use vstd::math::{max, min};
use vstd::prelude::*;

verus! {

/// A sphere of radius `radius`.
#[derive(Clone, Copy, Debug)]
pub struct Sphere {
    pub radius: i64,
}

impl Sphere {
    pub fn new(radius: i64) -> (r: Sphere)
        ensures
            r.radius == radius,
    {
        Sphere { radius }
    }
}

impl SDF<Vec3> for Sphere {
    open spec fn spec_dist(&self, p: Vec3) -> int {
        rounded_shell(p.norm_sq(), 1, self.radius as int)
    }

    open spec fn defined_at(&self, p: Vec3) -> bool {
        p.in_range() && in_range(self.radius as int)
    }

    fn dist(&self, p: Vec3) -> (r: i64) {
        proof {
            lemma_square_sum_bound(p.x as int, p.y as int, p.z as int);
        }
        shell_dist(p.dot(&p), 1, self.radius)
    }
}

/// An axis-aligned box whose half-extents are the components of `dims`.
#[derive(Clone, Copy, Debug)]
pub struct Box<V> {
    pub dims: V,
}

impl<V> Box<V> {
    pub fn new(dims: V) -> (r: Box<V>)
        ensures
            r.dims == dims,
    {
        Box { dims }
    }
}

impl SDF<Vec2> for Box<Vec2> {
    /// The norm of the outside overshoot plus the (non-positive) inside depth.
    open spec fn spec_dist(&self, p: Vec2) -> int {
        let qx = abs_of(p.x as int) - self.dims.x;
        let qy = abs_of(p.y as int) - self.dims.y;
        rounded_shell(pos(qx) * pos(qx) + pos(qy) * pos(qy), 1, 0) + min(max(qx, qy), 0)
    }

    open spec fn defined_at(&self, p: Vec2) -> bool {
        p.in_range() && self.dims.in_range()
    }

    fn dist(&self, p: Vec2) -> (r: i64) {
        let qx = abs_i64(p.x) - self.dims.x;
        let qy = abs_i64(p.y) - self.dims.y;
        let ox = if qx > 0 { qx } else { 0 };
        let oy = if qy > 0 { qy } else { 0 };
        let deepest = if qx > qy { qx } else { qy };
        let inside = if deepest < 0 { deepest } else { 0 };
        proof {
            lemma_square_sum_bound(ox as int, oy as int, 0);
        }
        shell_dist(Vec2::new(ox, oy).dot(&Vec2::new(ox, oy)), 1, 0) + inside
    }
}

impl SDF<Vec3> for Box<Vec3> {
    /// The norm of the outside overshoot plus the (non-positive) inside depth.
    open spec fn spec_dist(&self, p: Vec3) -> int {
        let qx = abs_of(p.x as int) - self.dims.x;
        let qy = abs_of(p.y as int) - self.dims.y;
        let qz = abs_of(p.z as int) - self.dims.z;
        rounded_shell(pos(qx) * pos(qx) + pos(qy) * pos(qy) + pos(qz) * pos(qz), 1, 0) + min(
            max(qx, max(qy, qz)),
            0,
        )
    }

    open spec fn defined_at(&self, p: Vec3) -> bool {
        p.in_range() && self.dims.in_range()
    }

    fn dist(&self, p: Vec3) -> (r: i64) {
        let qx = abs_i64(p.x) - self.dims.x;
        let qy = abs_i64(p.y) - self.dims.y;
        let qz = abs_i64(p.z) - self.dims.z;
        let ox = if qx > 0 { qx } else { 0 };
        let oy = if qy > 0 { qy } else { 0 };
        let oz = if qz > 0 { qz } else { 0 };
        let yz = if qy > qz { qy } else { qz };
        let deepest = if qx > yz { qx } else { yz };
        let inside = if deepest < 0 { deepest } else { 0 };
        proof {
            lemma_square_sum_bound(ox as int, oy as int, oz as int);
        }
        let o = Vec3::new(ox, oy, oz);
        shell_dist(o.dot(&o), 1, 0) + inside
    }
}

/// A circle of radius `radius`.
#[derive(Clone, Copy, Debug)]
pub struct Circle {
    pub radius: i64,
}

impl Circle {
    pub fn new(radius: i64) -> (r: Circle)
        ensures
            r.radius == radius,
    {
        Circle { radius }
    }
}

impl SDF<Vec2> for Circle {
    open spec fn spec_dist(&self, p: Vec2) -> int {
        rounded_shell(p.norm_sq(), 1, self.radius as int)
    }

    open spec fn defined_at(&self, p: Vec2) -> bool {
        p.in_range() && in_range(self.radius as int)
    }

    fn dist(&self, p: Vec2) -> (r: i64) {
        proof {
            lemma_square_sum_bound(p.x as int, p.y as int, 0);
        }
        shell_dist(p.dot(&p), 1, self.radius)
    }
}

/// A torus lying on the XZ plane: a ring of radius `radius` swept by a disc
/// of radius `thickness`.
#[derive(Clone, Copy, Debug)]
pub struct Torus {
    pub radius: i64,
    pub thickness: i64,
}

impl Torus {
    pub fn new(radius: i64, thickness: i64) -> (r: Torus)
        ensures
            r.radius == radius,
            r.thickness == thickness,
    {
        Torus { radius, thickness }
    }
}

impl Torus {
    /// The point is strictly inside the tube: `u^2 + y^2 < thickness^2`,
    /// where `u = sqrt(x^2 + z^2) - radius`.
    pub open spec fn strictly_inside(&self, p: Vec3) -> bool {
        ring_lt(p.x * p.x + p.z * p.z, self.radius as int, p.y as int, self.thickness as int)
    }

    /// The point is inside the tube or on it: `u^2 + y^2 <= thickness^2`.
    pub open spec fn within(&self, p: Vec3) -> bool {
        ring_le(p.x * p.x + p.z * p.z, self.radius as int, p.y as int, self.thickness as int)
    }
}

impl SDF<Vec3> for Torus {
    /// `sqrt(u^2 + y^2) - thickness`, with `u = sqrt(x^2 + z^2) - radius`,
    /// rounded away from zero.
    open spec fn spec_dist(&self, p: Vec3) -> int {
        let (s, c, y) = (p.x * p.x + p.z * p.z, self.radius as int, p.y as int);
        if self.strictly_inside(p) {
            ring_floor(s, c, y) - self.thickness
        } else {
            ring_ceil(s, c, y) - self.thickness
        }
    }

    open spec fn defined_at(&self, p: Vec3) -> bool {
        p.in_range() && in_range(self.radius as int) && in_range(self.thickness as int)
    }

    fn dist(&self, p: Vec3) -> (r: i64) {
        proof {
            lemma_square_sum_bound(p.x as int, p.z as int, 0);
            lemma_coord_norm(p.x as int, p.z as int);
        }
        let flat = Vec2::new(p.x, p.z);
        let s = flat.dot(&flat);
        let below = ring_test(s, self.radius, p.y, self.thickness).1;
        if below {
            ring_floor_exec(s, self.radius, p.y) - self.thickness
        } else {
            ring_ceil_exec(s, self.radius, p.y) - self.thickness
        }
    }
}

/// A principal axis.
#[derive(Clone, Copy, Debug, PartialEq, Eq, Structural)]
pub enum Axis {
    X,
    Y,
    Z,
}

impl Axis {
    /// The two components of `p` across this axis, then the one along it.
    pub open spec fn split(self, p: Vec3) -> (int, int, int) {
        match self {
            Axis::X => (p.y as int, p.z as int, p.x as int),
            Axis::Y => (p.x as int, p.z as int, p.y as int),
            Axis::Z => (p.x as int, p.y as int, p.z as int),
        }
    }

    /// The two components of `p` across this axis, then the one along it.
    pub fn split_point(&self, p: Vec3) -> (r: (i64, i64, i64))
        ensures
            (r.0 as int, r.1 as int, r.2 as int) == self.split(p),
    {
        match self {
            Axis::X => (p.y, p.z, p.x),
            Axis::Y => (p.x, p.z, p.y),
            Axis::Z => (p.x, p.y, p.z),
        }
    }
}

/// A cylinder of radius `radius`, unbounded along `axis`.
#[derive(Clone, Copy, Debug)]
pub struct Cylinder {
    pub radius: i64,
    pub axis: Axis,
}

impl Cylinder {
    pub fn new(radius: i64, axis: Axis) -> (r: Cylinder)
        ensures
            r.radius == radius,
            r.axis == axis,
    {
        Cylinder { radius, axis }
    }
}

impl SDF<Vec3> for Cylinder {
    open spec fn spec_dist(&self, p: Vec3) -> int {
        let (a, b, c) = self.axis.split(p);
        rounded_shell(a * a + b * b, 1, self.radius as int)
    }

    open spec fn defined_at(&self, p: Vec3) -> bool {
        p.in_range() && in_range(self.radius as int)
    }

    fn dist(&self, p: Vec3) -> (r: i64) {
        let (a, b, c) = self.axis.split_point(p);
        proof {
            lemma_square_sum_bound(a as int, b as int, 0);
        }
        let cross = Vec2::new(a, b);
        shell_dist(cross.dot(&cross), 1, self.radius)
    }
}

/// A cylinder of radius `radius` along `axis`, cut at `height` on either side of the origin.
#[derive(Clone, Copy, Debug)]
pub struct CappedCylinder {
    pub radius: i64,
    pub height: i64,
    pub axis: Axis,
}

impl CappedCylinder {
    pub fn new(radius: i64, height: i64, axis: Axis) -> (r: CappedCylinder)
        ensures
            r.radius == radius,
            r.height == height,
            r.axis == axis,
    {
        CappedCylinder { radius, height, axis }
    }
}

impl SDF<Vec3> for CappedCylinder {
    open spec fn spec_dist(&self, p: Vec3) -> int {
        let (a, b, c) = self.axis.split(p);
        let dx = rounded_shell(a * a + b * b, 1, self.radius as int);
        let dy = abs_of(c) - self.height;
        let outside = if dx > 0 && dy > 0 {
            ring_ceil(a * a + b * b, self.radius as int, dy)
        } else {
            rounded_shell(pos(dx) * pos(dx) + pos(dy) * pos(dy), 1, 0)
        };
        min(max(dx, dy), 0) + outside
    }

    open spec fn defined_at(&self, p: Vec3) -> bool {
        p.in_range() && in_range(self.radius as int) && in_range(self.height as int)
    }

    fn dist(&self, p: Vec3) -> (r: i64) {
        let (a, b, c) = self.axis.split_point(p);
        proof {
            lemma_square_sum_bound(a as int, b as int, 0);
            lemma_coord_norm(a as int, b as int);
            lemma_rounded_shell_bound(a * a + b * b, 1, self.radius as int, 0x4000_0000);
        }
        let cross = Vec2::new(a, b);
        let dx = shell_dist(cross.dot(&cross), 1, self.radius);
        let dy = abs_i64(c) - self.height;
        let deepest = if dx > dy { dx } else { dy };
        let inside = if deepest < 0 { deepest } else { 0 };
        let ox = if dx > 0 { dx } else { 0 };
        let oy = if dy > 0 { dy } else { 0 };
        proof {
            assert(0 <= ox * ox + oy * oy <= 0x4000_0000_0000_0000) by (nonlinear_arith)
                requires
                    0 <= ox <= 0x6000_0000,
                    0 <= oy <= 0x4000_0000,
            ;
        }
        let o = Vec2::new(ox, oy);
        if dx > 0 && dy > 0 {
            inside + ring_ceil_exec(cross.dot(&cross), self.radius, dy)
        } else {
            inside + shell_dist(o.dot(&o), 1, 0)
        }
    }
}

/// A capsule: the points within `thickness` of the segment from `a` to `b`.
#[derive(Clone, Copy, Debug)]
pub struct Line<V> {
    pub a: V,
    pub b: V,
    pub thickness: i64,
}

impl<V> Line<V> {
    pub fn new(a: V, b: V, thickness: i64) -> (r: Line<V>)
        ensures
            r.a == a,
            r.b == b,
            r.thickness == thickness,
    {
        Line { a, b, thickness }
    }
}

/// The squared distance from a point `p` to a segment `a`..`b` is
/// `segment_num / segment_div`, given `pa2 = |p - a|^2`,
/// `k = (p - a) . (b - a)`, `den = |b - a|^2` and `pb2 = |p - b|^2`. The
/// projection of `p` is clamped to the segment; a segment of length zero is
/// the single point `a`. `laws::lemma_segment_nearest` shows that this is
/// the least squared distance from `p` to the points of the segment (in the
/// plane, take the third components to be zero).
pub open spec fn segment_num(pa2: int, k: int, den: int, pb2: int) -> int {
    if den == 0 || k <= 0 {
        pa2
    } else if k >= den {
        pb2
    } else {
        pa2 * den - k * k
    }
}

/// The denominator that goes with `segment_num`.
pub open spec fn segment_div(k: int, den: int) -> int {
    if den == 0 || k <= 0 || k >= den {
        1
    } else {
        den
    }
}

/// The distance to a segment less `t`, rounded away from zero.
fn segment_shell(pa2: i128, k: i128, den: i128, pb2: i128, t: i64) -> (r: i64)
    requires
        0 <= pa2 <= 0x4000_0000_0000_0000,
        0 <= den <= 0x4000_0000_0000_0000,
        0 <= pb2 <= 0x4000_0000_0000_0000,
        k * k <= pa2 * den,
        in_range(t as int),
    ensures
        0 <= r + t <= 0x1_0000_0000,
        r == rounded_shell(
            segment_num(pa2 as int, k as int, den as int, pb2 as int),
            segment_div(k as int, den as int),
            t as int,
        ),
{
    if den == 0 || k <= 0 {
        shell_dist(pa2, 1, t)
    } else if k >= den {
        shell_dist(pb2, 1, t)
    } else {
        proof {
            assert(0 <= k * k <= pa2 * den <= 0x4000_0000_0000_0000 * 0x4000_0000_0000_0000)
                by (nonlinear_arith)
                requires
                    0 <= pa2 <= 0x4000_0000_0000_0000,
                    0 <= den <= 0x4000_0000_0000_0000,
                    k * k <= pa2 * den,
            ;
            assert(pa2 * den <= 0x1_0000_0000_0000_0000 * den) by (nonlinear_arith)
                requires
                    0 <= pa2 <= 0x4000_0000_0000_0000,
                    0 <= den,
            ;
        }
        shell_dist(pa2 * den - k * k, den, t)
    }
}

impl SDF<Vec2> for Line<Vec2> {
    open spec fn spec_dist(&self, p: Vec2) -> int {
        let pa = p.minus(self.a);
        let ba = self.b.minus(self.a);
        let pb = p.minus(self.b);
        rounded_shell(
            segment_num(pa.norm_sq(), pa.spec_dot(ba), ba.norm_sq(), pb.norm_sq()),
            segment_div(pa.spec_dot(ba), ba.norm_sq()),
            self.thickness as int,
        )
    }

    open spec fn defined_at(&self, p: Vec2) -> bool {
        p.in_range() && self.a.in_range() && self.b.in_range() && in_range(self.thickness as int)
    }

    fn dist(&self, p: Vec2) -> (r: i64) {
        let pa = p.sub(&self.a);
        let ba = self.b.sub(&self.a);
        let pb = p.sub(&self.b);
        let pa2 = pa.dot(&pa);
        let k = pa.dot(&ba);
        let den = ba.dot(&ba);
        let pb2 = pb.dot(&pb);
        proof {
            let (x1, y1, x2, y2) = (pa.x as int, pa.y as int, ba.x as int, ba.y as int);
            lemma_cauchy_schwarz(x1, y1, 0, x2, y2, 0);
            lemma_square_sum_bound(pa.x as int, pa.y as int, 0);
            lemma_square_sum_bound(ba.x as int, ba.y as int, 0);
            lemma_square_sum_bound(pb.x as int, pb.y as int, 0);
        }
        segment_shell(pa2, k, den, pb2, self.thickness)
    }
}

impl SDF<Vec3> for Line<Vec3> {
    open spec fn spec_dist(&self, p: Vec3) -> int {
        let pa = p.minus(self.a);
        let ba = self.b.minus(self.a);
        let pb = p.minus(self.b);
        rounded_shell(
            segment_num(pa.norm_sq(), pa.spec_dot(ba), ba.norm_sq(), pb.norm_sq()),
            segment_div(pa.spec_dot(ba), ba.norm_sq()),
            self.thickness as int,
        )
    }

    open spec fn defined_at(&self, p: Vec3) -> bool {
        p.in_range() && self.a.in_range() && self.b.in_range() && in_range(self.thickness as int)
    }

    fn dist(&self, p: Vec3) -> (r: i64) {
        let pa = p.sub(&self.a);
        let ba = self.b.sub(&self.a);
        let pb = p.sub(&self.b);
        let pa2 = pa.dot(&pa);
        let k = pa.dot(&ba);
        let den = ba.dot(&ba);
        let pb2 = pb.dot(&pb);
        proof {
            let (x1, y1, z1) = (pa.x as int, pa.y as int, pa.z as int);
            let (x2, y2, z2) = (ba.x as int, ba.y as int, ba.z as int);
            lemma_cauchy_schwarz(x1, y1, z1, x2, y2, z2);
            lemma_square_sum_bound(pa.x as int, pa.y as int, pa.z as int);
            lemma_square_sum_bound(ba.x as int, ba.y as int, ba.z as int);
            lemma_square_sum_bound(pb.x as int, pb.y as int, pb.z as int);
        }
        segment_shell(pa2, k, den, pb2, self.thickness)
    }
}

proof fn lemma_mul_swap(a: int, b: int, c: int, d: int)
    ensures
        (a * b) * (c * d) == (a * c) * (b * d),
        (a * b) * (c * d) == (a * d) * (c * b),
        (a * b) * (c * d) == (a * d) * (b * c),
{
    assert((a * b) * (c * d) == (a * c) * (b * d)) by (nonlinear_arith);
    assert((a * b) * (c * d) == (a * d) * (c * b)) by (nonlinear_arith);
    assert((a * b) * (c * d) == (a * d) * (b * c)) by (nonlinear_arith);
}

proof fn lemma_expand(a: int, b: int, c: int, d: int, e: int, f: int)
    ensures
        (a + b + c) * (d + e + f) == a * d + a * e + a * f + b * d + b * e + b * f + c * d + c * e
            + c * f,
        (a - b) * (a - b) == a * a - 2 * (a * b) + b * b,
{
    assert((a + b + c) * (d + e + f) == a * d + a * e + a * f + b * d + b * e + b * f + c * d + c
        * e + c * f) by (nonlinear_arith);
    assert((a - b) * (a - b) == a * a - 2 * (a * b) + b * b) by (nonlinear_arith);
}

/// The square of a dot product is at most the product of the squared norms.
pub proof fn lemma_cauchy_schwarz(x1: int, y1: int, z1: int, x2: int, y2: int, z2: int)
    ensures
        (x1 * x2 + y1 * y2 + z1 * z2) * (x1 * x2 + y1 * y2 + z1 * z2) <= (x1 * x1 + y1 * y1 + z1
            * z1) * (x2 * x2 + y2 * y2 + z2 * z2),
{
    let (p, q, r) = (x1 * x2, y1 * y2, z1 * z2);
    let (u, v, s, t, m, n) = (x1 * y2, y1 * x2, y1 * z2, z1 * y2, z1 * x2, x1 * z2);
    lemma_expand(x1 * x1, y1 * y1, z1 * z1, x2 * x2, y2 * y2, z2 * z2);
    lemma_expand(p, q, r, p, q, r);
    lemma_expand(u, v, 0, 0, 0, 0);
    lemma_expand(s, t, 0, 0, 0, 0);
    lemma_expand(m, n, 0, 0, 0, 0);
    lemma_mul_swap(x1, x1, x2, x2);
    lemma_mul_swap(x1, x1, y2, y2);
    lemma_mul_swap(x1, x1, z2, z2);
    lemma_mul_swap(y1, y1, x2, x2);
    lemma_mul_swap(y1, y1, y2, y2);
    lemma_mul_swap(y1, y1, z2, z2);
    lemma_mul_swap(z1, z1, x2, x2);
    lemma_mul_swap(z1, z1, y2, y2);
    lemma_mul_swap(z1, z1, z2, z2);
    lemma_mul_swap(x1, x2, y1, y2);
    lemma_mul_swap(x1, x2, z1, z2);
    lemma_mul_swap(y1, y2, z1, z2);
    assert((u - v) * (u - v) >= 0) by (nonlinear_arith);
    assert((s - t) * (s - t) >= 0) by (nonlinear_arith);
    assert((m - n) * (m - n) >= 0) by (nonlinear_arith);
}

/// A sum of two squares of coordinates stays within `2^59`.
proof fn lemma_coord_norm(x: int, y: int)
    requires
        -COORD_MAX <= x <= COORD_MAX,
        -COORD_MAX <= y <= COORD_MAX,
    ensures
        0 <= x * x + y * y <= 0x800_0000_0000_0000,
        x * x + y * y <= 0x4000_0000 * 0x4000_0000 * 1,
{
    assert(0 <= x * x + y * y <= 0x800_0000_0000_0000) by (nonlinear_arith)
        requires
            -0x2000_0000 <= x <= 0x2000_0000,
            -0x2000_0000 <= y <= 0x2000_0000,
    ;
}

/// A sum of three squares of differences of coordinates stays below `2^62`.
proof fn lemma_square_sum_bound(x: int, y: int, z: int)
    requires
        -2 * COORD_MAX <= x <= 2 * COORD_MAX,
        -2 * COORD_MAX <= y <= 2 * COORD_MAX,
        -2 * COORD_MAX <= z <= 2 * COORD_MAX,
    ensures
        0 <= x * x + y * y + z * z <= 0x4000_0000_0000_0000,
        0 <= x * x + y * y <= 0x4000_0000_0000_0000,
{
    assert(0 <= x * x + y * y + z * z <= 0x4000_0000_0000_0000) by (nonlinear_arith)
        requires
            -0x4000_0000 <= x <= 0x4000_0000,
            -0x4000_0000 <= y <= 0x4000_0000,
            -0x4000_0000 <= z <= 0x4000_0000,
    ;
    assert(0 <= x * x + y * y <= 0x4000_0000_0000_0000) by (nonlinear_arith)
        requires
            -0x4000_0000 <= x <= 0x4000_0000,
            -0x4000_0000 <= y <= 0x4000_0000,
    ;
}

} // verus!
