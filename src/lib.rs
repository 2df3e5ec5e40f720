//! Signed distance fields on an integer lattice.
//!
//! Every coordinate and every distance is an `i64` in the lattice's unit.
//! Each primitive's distance is its closed-form distance rounded once, away
//! from zero: down inside a shape, up outside. Every comparison that decides
//! the rounding is an exact comparison of integers, so a distance is
//! negative exactly strictly inside, zero exactly on the boundary, positive
//! exactly outside, and off by less than one unit. See `laws` for the
//! precise statements.
//!
//! Shapes are built once from primitives (`primitives`) and combinators
//! (`ops`), and then queried through the `SDF` trait or the helpers in
//! `bounds`.
pub mod math;
pub mod ring;
pub mod sdf;
pub mod vector;
pub mod primitives;
pub mod ops;
pub mod laws;
pub mod bounds;

pub use ops::{intersect, rotate, rotate_about, scale, subtract, translate, union};
pub use ops::{Intersect, Rotate, RotateAbout, Scale, Subtract, Translate, Union};
pub use primitives::{Axis, Box, CappedCylinder, Circle, Cylinder, Line, Sphere, Torus};
pub use sdf::SDF;
pub use vector::{Vec2, Vec3};
