//! Queries that keep moving agents within a boundary shape.
use crate::sdf::SDF;
use crate::vector::Vec2;
use vstd::prelude::*;

verus! {

/// Whether `p` lies inside `shape` or on its boundary.
pub fn contains<V, S: SDF<V>>(shape: &S, p: V) -> (r: bool)
    requires
        shape.defined_at(p),
    ensures
        r == (shape.spec_dist(p) <= 0),
{
    shape.dist(p) <= 0
}

/// The signed distance from `p` to the boundary of `shape`.
pub fn distance_to_boundary<V, S: SDF<V>>(shape: &S, p: V) -> (r: i64)
    requires
        shape.defined_at(p),
    ensures
        r == shape.spec_dist(p),
{
    shape.dist(p)
}

/// The four sample points of a central difference of width `step` around `p`:
/// right, left, up, down.
pub open spec fn samples(p: Vec2, step: i64) -> (Vec2, Vec2, Vec2, Vec2) {
    (
        Vec2 { x: (p.x + step) as i64, y: p.y },
        Vec2 { x: (p.x - step) as i64, y: p.y },
        Vec2 { x: p.x, y: (p.y + step) as i64 },
        Vec2 { x: p.x, y: (p.y - step) as i64 },
    )
}

/// The direction in which the distance to `shape` grows fastest at `p`,
/// estimated by central differences over `step` units on each side.
///
/// The result is not normalised: each component is the difference of the
/// distances at `p + step` and `p - step` along that axis. A larger `step`
/// smooths over small features; a smaller one follows them more closely.
pub fn push_out_direction<S: SDF<Vec2>>(shape: &S, p: Vec2, step: i64) -> (r: Vec2)
    requires
        step > 0,
        i64::MIN <= p.x - step,
        p.x + step <= i64::MAX,
        i64::MIN <= p.y - step,
        p.y + step <= i64::MAX,
        shape.defined_at(samples(p, step).0),
        shape.defined_at(samples(p, step).1),
        shape.defined_at(samples(p, step).2),
        shape.defined_at(samples(p, step).3),
        i64::MIN <= shape.spec_dist(samples(p, step).0) - shape.spec_dist(samples(p, step).1)
            <= i64::MAX,
        i64::MIN <= shape.spec_dist(samples(p, step).2) - shape.spec_dist(samples(p, step).3)
            <= i64::MAX,
    ensures
        r.x == shape.spec_dist(samples(p, step).0) - shape.spec_dist(samples(p, step).1),
        r.y == shape.spec_dist(samples(p, step).2) - shape.spec_dist(samples(p, step).3),
{
    let right = shape.dist(Vec2::new(p.x + step, p.y));
    let left = shape.dist(Vec2::new(p.x - step, p.y));
    let up = shape.dist(Vec2::new(p.x, p.y + step));
    let down = shape.dist(Vec2::new(p.x, p.y - step));
    Vec2::new(right - left, up - down)
}

} // verus!
