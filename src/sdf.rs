//! The capability every shape offers: a signed distance at a point.
use vstd::prelude::*;

verus! {

/// A signed distance field over points of type `V`.
///
/// The distance is negative strictly inside the shape, zero on its boundary
/// and positive outside. Evaluating it is a pure function of the shape and
/// the point.
pub trait SDF<V> {
    /// The distance at `p`, as a mathematical integer.
    spec fn spec_dist(&self, p: V) -> int;

    /// Whether `p` and the shape's parameters are small enough for `dist`.
    spec fn defined_at(&self, p: V) -> bool;

    /// The signed distance from `p` to the shape's boundary.
    fn dist(&self, p: V) -> (r: i64)
        requires
            self.defined_at(p),
        ensures
            r == self.spec_dist(p),
            r > i64::MIN,
    ;
}

} // verus!
