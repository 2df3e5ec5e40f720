//! Laws that relate the shapes and combinators, proved over their
//! `spec_dist` models.
use crate::math::{abs_of, lemma_rounded_shell, pos, rounded_shell};
use crate::ops::{unturn, unturn_about, Intersect, Rotate, RotateAbout, Scale, Subtract, Translate, Union};
use crate::primitives::{
    Axis, lemma_cauchy_schwarz, segment_div, segment_num, Box, CappedCylinder, Circle, Cylinder, Line, Sphere, Torus,
};
use crate::ring::{
    is_ring_ceil, is_ring_floor, lemma_ring_mono, lemma_ring_round, lemma_within_negative,
    ring_ceil, ring_floor,
};
use crate::sdf::SDF;
use crate::vector::{Vec2, Vec3, COORD_MAX};
use vstd::math::{max, min};
use vstd::prelude::*;

verus! {

/// Union takes the smaller distance, intersection the larger, and
/// subtraction the larger of the first distance and the negated second.
pub proof fn lemma_boolean_algebra<V: Copy, A: SDF<V>, B: SDF<V>>(a: A, b: B, p: V)
    ensures
        (Union { a, b }).spec_dist(p) == min(a.spec_dist(p), b.spec_dist(p)),
        (Intersect { a, b }).spec_dist(p) == max(a.spec_dist(p), b.spec_dist(p)),
        (Subtract { a, b }).spec_dist(p) == max(a.spec_dist(p), -b.spec_dist(p)),
        (Union { a, b }).defined_at(p) == (a.defined_at(p) && b.defined_at(p)),
{
}

/// Translating by `v` samples the shape at `p - v`, and translating back by
/// `-v` gives the original shape at every point.
pub proof fn lemma_translate_inverse_2d<S: SDF<Vec2>>(s: S, v: Vec2, p: Vec2)
    requires
        v.in_range(),
        p.in_range(),
    ensures
        (Translate { shape: s, offset: v }).spec_dist(p) == s.spec_dist(p.minus(v)),
        (Translate {
            shape: Translate { shape: s, offset: v },
            offset: Vec2 { x: -v.x as i64, y: -v.y as i64 },
        }).spec_dist(p) == s.spec_dist(p),
        (Translate {
            shape: Translate { shape: s, offset: v },
            offset: Vec2 { x: -v.x as i64, y: -v.y as i64 },
        }).defined_at(p) == s.defined_at(p),
{
    let w = Vec2 { x: -v.x as i64, y: -v.y as i64 };
    assert(p.minus(w).minus(v) == p);
}

/// Translating by `v` samples the shape at `p - v`, and translating back by
/// `-v` gives the original shape at every point.
pub proof fn lemma_translate_inverse_3d<S: SDF<Vec3>>(s: S, v: Vec3, p: Vec3)
    requires
        v.in_range(),
        p.in_range(),
    ensures
        (Translate { shape: s, offset: v }).spec_dist(p) == s.spec_dist(p.minus(v)),
        (Translate {
            shape: Translate { shape: s, offset: v },
            offset: Vec3 { x: -v.x as i64, y: -v.y as i64, z: -v.z as i64 },
        }).spec_dist(p) == s.spec_dist(p),
        (Translate {
            shape: Translate { shape: s, offset: v },
            offset: Vec3 { x: -v.x as i64, y: -v.y as i64, z: -v.z as i64 },
        }).defined_at(p) == s.defined_at(p),
{
    let w = Vec3 { x: -v.x as i64, y: -v.y as i64, z: -v.z as i64 };
    assert(p.minus(w).minus(v) == p);
}

/// A quarter turn keeps a point's distance from the origin, so turning a
/// circle about its centre leaves its distance unchanged everywhere.
pub proof fn lemma_rotate_keeps_norm(c: Circle, p: Vec2, quarter_turns: u32)
    requires
        p.x > i64::MIN,
        p.y > i64::MIN,
    ensures
        unturn(p, quarter_turns).norm_sq() == p.norm_sq(),
        (Rotate { shape: c, quarter_turns }).spec_dist(p) == c.spec_dist(p),
{
    assert((-p.x) * (-p.x) == p.x * p.x) by (nonlinear_arith);
    assert((-p.y) * (-p.y) == p.y * p.y) by (nonlinear_arith);
}

/// A quarter turn about an axis keeps a point's distance from the origin,
/// so turning a sphere about its centre leaves its distance unchanged.
pub proof fn lemma_rotate_about_keeps_norm(s: Sphere, p: Vec3, axis: Axis, quarter_turns: u32)
    requires
        p.x > i64::MIN,
        p.y > i64::MIN,
        p.z > i64::MIN,
    ensures
        unturn_about(p, axis, quarter_turns).norm_sq() == p.norm_sq(),
        (RotateAbout { shape: s, axis, quarter_turns }).spec_dist(p) == s.spec_dist(p),
{
    assert((-p.x) * (-p.x) == p.x * p.x) by (nonlinear_arith);
    assert((-p.y) * (-p.y) == p.y * p.y) by (nonlinear_arith);
    assert((-p.z) * (-p.z) == p.z * p.z) by (nonlinear_arith);
}

/// At a point whose coordinates are multiples of the factor `k`, a scaled
/// shape's distance is `k` times the shape's distance at the shrunk point.
pub proof fn lemma_scale_on_coarse_lattice<S: SDF<Vec2>>(s: S, k: i64, a: i64, b: i64)
    requires
        k > 0,
        i64::MIN <= k * a <= i64::MAX,
        i64::MIN <= k * b <= i64::MAX,
    ensures
        (Scale { shape: s, factor: k }).spec_dist(
            Vec2 { x: (k * a) as i64, y: (k * b) as i64 },
        ) == s.spec_dist(Vec2 { x: a, y: b }) * k,
{
    vstd::arithmetic::div_mod::lemma_fundamental_div_mod_converse(a * k, k as int, a as int, 0);
    vstd::arithmetic::div_mod::lemma_fundamental_div_mod_converse(b * k, k as int, b as int, 0);
    assert(k * a == a * k && k * b == b * k) by (nonlinear_arith);
}

/// Circles and spheres give the same distance at any two points of equal
/// norm, so every rotation about the centre preserves them.
pub proof fn lemma_round_symmetry(c: Circle, s: Sphere, p: Vec2, q: Vec2, u: Vec3, w: Vec3)
    requires
        p.norm_sq() == q.norm_sq(),
        u.norm_sq() == w.norm_sq(),
    ensures
        c.spec_dist(p) == c.spec_dist(q),
        s.spec_dist(u) == s.spec_dist(w),
{
}

/// A torus gives the same distance at two points with the same height and
/// the same distance from the Y axis, so every rotation about that axis
/// preserves it.
pub proof fn lemma_torus_symmetry(t: Torus, p: Vec3, q: Vec3)
    requires
        p.x * p.x + p.z * p.z == q.x * q.x + q.z * q.z,
        p.y == q.y,
    ensures
        t.spec_dist(p) == t.spec_dist(q),
{
}

/// An infinite cylinder gives the same distance at two points whose
/// components across its axis have the same norm, so every rotation about
/// the axis, and every shift along it, preserves it.
pub proof fn lemma_cylinder_symmetry(c: Cylinder, p: Vec3, q: Vec3)
    requires
        ({
            let (a, b, h) = c.axis.split(p);
            let (e, f, g) = c.axis.split(q);
            a * a + b * b == e * e + f * f
        }),
    ensures
        c.spec_dist(p) == c.spec_dist(q),
{
}

/// A circle of non-negative radius is negative exactly strictly inside,
/// zero exactly on its boundary, and positive exactly outside.
pub proof fn lemma_circle_sign(c: Circle, p: Vec2)
    requires
        c.radius >= 0,
    ensures
        (c.spec_dist(p) < 0) == (p.norm_sq() < c.radius * c.radius),
        (c.spec_dist(p) == 0) == (p.norm_sq() == c.radius * c.radius),
        (c.spec_dist(p) > 0) == (p.norm_sq() > c.radius * c.radius),
{
    lemma_square_nonneg(p.x as int, p.y as int, 0);
    lemma_rounded_shell(p.norm_sq(), 1, c.radius as int);
}

/// A sphere of non-negative radius is negative exactly strictly inside,
/// zero exactly on its boundary, and positive exactly outside.
pub proof fn lemma_sphere_sign(s: Sphere, p: Vec3)
    requires
        s.radius >= 0,
    ensures
        (s.spec_dist(p) < 0) == (p.norm_sq() < s.radius * s.radius),
        (s.spec_dist(p) == 0) == (p.norm_sq() == s.radius * s.radius),
        (s.spec_dist(p) > 0) == (p.norm_sq() > s.radius * s.radius),
{
    lemma_square_nonneg(p.x as int, p.y as int, p.z as int);
    lemma_rounded_shell(p.norm_sq(), 1, s.radius as int);
}

/// An infinite cylinder of non-negative radius is negative exactly
/// strictly inside, zero exactly on its surface, and positive exactly
/// outside.
pub proof fn lemma_cylinder_sign(c: Cylinder, p: Vec3)
    requires
        c.radius >= 0,
    ensures
        ({
            let (a, b, h) = c.axis.split(p);
            &&& (c.spec_dist(p) < 0) == (a * a + b * b < c.radius * c.radius)
            &&& (c.spec_dist(p) == 0) == (a * a + b * b == c.radius * c.radius)
            &&& (c.spec_dist(p) > 0) == (a * a + b * b > c.radius * c.radius)
        }),
{
    let (a, b, h) = c.axis.split(p);
    lemma_square_nonneg(a, b, 0);
    lemma_rounded_shell(a * a + b * b, 1, c.radius as int);
}

/// A box is negative exactly strictly inside, zero exactly on its surface,
/// and positive exactly outside.
pub proof fn lemma_box_2d_sign(bx: Box<Vec2>, p: Vec2)
    ensures
        (bx.spec_dist(p) < 0) == (abs_of(p.x as int) < bx.dims.x && abs_of(p.y as int) < bx.dims.y),
        (bx.spec_dist(p) > 0) == (abs_of(p.x as int) > bx.dims.x || abs_of(p.y as int) > bx.dims.y),
{
    let qx = abs_of(p.x as int) - bx.dims.x;
    let qy = abs_of(p.y as int) - bx.dims.y;
    lemma_outside_norm(pos(qx), pos(qy), 0);
}

/// A box is negative exactly strictly inside, zero exactly on its surface,
/// and positive exactly outside.
pub proof fn lemma_box_3d_sign(bx: Box<Vec3>, p: Vec3)
    ensures
        (bx.spec_dist(p) < 0) == (abs_of(p.x as int) < bx.dims.x && abs_of(p.y as int) < bx.dims.y
            && abs_of(p.z as int) < bx.dims.z),
        (bx.spec_dist(p) > 0) == (abs_of(p.x as int) > bx.dims.x || abs_of(p.y as int) > bx.dims.y
            || abs_of(p.z as int) > bx.dims.z),
{
    let qx = abs_of(p.x as int) - bx.dims.x;
    let qy = abs_of(p.y as int) - bx.dims.y;
    let qz = abs_of(p.z as int) - bx.dims.z;
    lemma_outside_norm(pos(qx), pos(qy), pos(qz));
}

/// A capped cylinder of non-negative radius is negative exactly strictly
/// inside (within the radius and between the caps), and positive exactly
/// outside (past the side or past a cap).
pub proof fn lemma_capped_cylinder_sign(c: CappedCylinder, p: Vec3)
    requires
        c.defined_at(p),
        c.radius >= 0,
    ensures
        ({
            let (a, b, h) = c.axis.split(p);
            let r = c.radius as int;
            &&& (c.spec_dist(p) < 0) == (a * a + b * b < r * r && abs_of(h) < c.height)
            &&& (c.spec_dist(p) > 0) == (a * a + b * b > r * r || abs_of(h) > c.height)
        }),
{
    let (a, b, h) = c.axis.split(p);
    lemma_square_nonneg(a, b, 0);
    lemma_rounded_shell(a * a + b * b, 1, c.radius as int);
    let dx = rounded_shell(a * a + b * b, 1, c.radius as int);
    let dy = abs_of(h) - c.height;
    lemma_outside_norm(pos(dx), pos(dy), 0);
    if dx > 0 && dy > 0 {
        lemma_coord_sq(a, b);
        lemma_ring_round(a * a + b * b, c.radius as int, dy, 0);
        assert(0 * 0 - dy * dy < 0) by (nonlinear_arith)
            requires
                dy > 0,
        ;
        lemma_within_negative(a * a + b * b, c.radius as int, 0 * 0 - dy * dy);
    }
}

/// A torus is negative exactly strictly inside its tube, zero exactly on
/// it, and positive exactly outside; `strictly_inside` and `within` decide
/// `u^2 + y^2 < thickness^2` and `u^2 + y^2 <= thickness^2` exactly, where
/// `u = sqrt(x^2 + z^2) - radius`.
pub proof fn lemma_torus_sign(t: Torus, p: Vec3)
    requires
        t.defined_at(p),
    ensures
        (t.spec_dist(p) < 0) == t.strictly_inside(p),
        (t.spec_dist(p) == 0) == (!t.strictly_inside(p) && t.within(p)),
        (t.spec_dist(p) > 0) == (!t.strictly_inside(p) && !t.within(p)),
{
    let (s, c, y, th) = (p.x * p.x + p.z * p.z, t.radius as int, p.y as int, t.thickness as int);
    lemma_coord_sq(p.x as int, p.z as int);
    lemma_ring_round(s, c, y, 0);
    let (hc, hf) = (ring_ceil(s, c, y), ring_floor(s, c, y));
    if t.strictly_inside(p) {
        if hf >= th {
            lemma_ring_mono(s, c, y, th, hf);
        }
    } else {
        if hc < th {
            lemma_ring_mono(s, c, y, hc, th);
        }
        if t.within(p) && hc > th {
            lemma_ring_mono(s, c, y, th, hc - 1);
        }
    }
}

/// A torus's distance `d` is the closed-form distance rounded away from
/// zero: with `h = sqrt(u^2 + y^2)` and `e = thickness + d`, `e <= h < e + 1`
/// strictly inside the tube and `e - 1 < h <= e` elsewhere.
pub proof fn lemma_torus_exact(t: Torus, p: Vec3)
    requires
        t.defined_at(p),
    ensures
        ({
            let (s, c, y) = (p.x * p.x + p.z * p.z, t.radius as int, p.y as int);
            let e = t.thickness + t.spec_dist(p);
            &&& t.strictly_inside(p) ==> is_ring_floor(s, c, y, e)
            &&& !t.strictly_inside(p) ==> is_ring_ceil(s, c, y, e)
        }),
{
    lemma_coord_sq(p.x as int, p.z as int);
    lemma_ring_round(p.x * p.x + p.z * p.z, t.radius as int, p.y as int, 0);
}

/// Past the rim of a capped cylinder, where both the radial overshoot
/// `dx = sqrt(a^2 + b^2) - radius` and the axial one `dy` are positive, the
/// distance is `sqrt(dx^2 + dy^2)` rounded up; elsewhere outside it is the
/// single positive overshoot rounded up, and inside the deeper of the two
/// depths rounded down.
pub proof fn lemma_capped_cylinder_exact(c: CappedCylinder, p: Vec3)
    requires
        c.defined_at(p),
        c.radius >= 0,
    ensures
        ({
            let (a, b, h) = c.axis.split(p);
            let n = a * a + b * b;
            let r = c.radius as int;
            let dy = abs_of(h) - c.height;
            let d = c.spec_dist(p);
            &&& n > r * r && dy > 0 ==> is_ring_ceil(n, r, dy, d)
            &&& n > r * r && dy <= 0 ==> d == rounded_shell(n, 1, r)
            &&& n <= r * r && dy > 0 ==> d == dy
            &&& n <= r * r && dy <= 0 ==> d == max(rounded_shell(n, 1, r), dy)
        }),
{
    let (a, b, h) = c.axis.split(p);
    let n = a * a + b * b;
    let dy = abs_of(h) - c.height;
    lemma_coord_sq(a, b);
    lemma_rounded_shell(n, 1, c.radius as int);
    let dx = rounded_shell(n, 1, c.radius as int);
    lemma_outside_norm(pos(dx), pos(dy), 0);
    lemma_rounded_shell(pos(dx) * pos(dx), 1, 0);
    lemma_rounded_shell(pos(dy) * pos(dy), 1, 0);
    if dx > 0 && dy <= 0 {
        lemma_root_of_square(dx);
    }
    if dx <= 0 && dy > 0 {
        lemma_root_of_square(dy);
    }
    if dx > 0 && dy > 0 {
        lemma_ring_round(n, c.radius as int, dy, 0);
    }
}

/// Rounding the root of a perfect square gives the root back.
proof fn lemma_root_of_square(x: int)
    requires
        x > 0,
    ensures
        rounded_shell(x * x, 1, 0) == x,
{
    lemma_square_nonneg(x, 0, 0);
    lemma_rounded_shell(x * x, 1, 0);
    let e = rounded_shell(x * x, 1, 0);
    assert(e == x) by (nonlinear_arith)
        requires
            e >= 0,
            x > 0,
            x * x <= e * e * 1,
            e == 0 || (e - 1) * (e - 1) * 1 < x * x,
    ;
}

/// Two coordinates give a squared norm within the bounds of `ring`.
proof fn lemma_coord_sq(x: int, y: int)
    requires
        -COORD_MAX <= x <= COORD_MAX,
        -COORD_MAX <= y <= COORD_MAX,
    ensures
        0 <= x * x + y * y <= 0x800_0000_0000_0000,
{
    assert(0 <= x * x + y * y <= 0x800_0000_0000_0000) by (nonlinear_arith)
        requires
            -0x2000_0000 <= x <= 0x2000_0000,
            -0x2000_0000 <= y <= 0x2000_0000,
    ;
}

/// The squared distance to a segment is a non-negative fraction.
proof fn lemma_segment_nonneg(pa: Vec3, ba: Vec3, pb: Vec3)
    ensures
        segment_num(pa.norm_sq(), pa.spec_dot(ba), ba.norm_sq(), pb.norm_sq()) >= 0,
        segment_div(pa.spec_dot(ba), ba.norm_sq()) > 0,
{
    lemma_square_nonneg(pa.x as int, pa.y as int, pa.z as int);
    lemma_square_nonneg(ba.x as int, ba.y as int, ba.z as int);
    lemma_square_nonneg(pb.x as int, pb.y as int, pb.z as int);
    lemma_cauchy_schwarz(
        pa.x as int,
        pa.y as int,
        pa.z as int,
        ba.x as int,
        ba.y as int,
        ba.z as int,
    );
}

/// A capsule of non-negative thickness `t` is negative exactly where the
/// squared distance `n / m` to its segment is below `t * t`, zero exactly
/// where it equals it, and positive exactly beyond; and `t + d` is
/// `sqrt(n / m)` rounded away from `t`, off by less than one.
pub proof fn lemma_line_3d_sign(l: Line<Vec3>, p: Vec3)
    requires
        l.thickness >= 0,
    ensures
        ({
            let (pa, ba, pb) = (p.minus(l.a), l.b.minus(l.a), p.minus(l.b));
            let n = segment_num(pa.norm_sq(), pa.spec_dot(ba), ba.norm_sq(), pb.norm_sq());
            let m = segment_div(pa.spec_dot(ba), ba.norm_sq());
            let t = l.thickness as int;
            let e = t + l.spec_dist(p);
            &&& (l.spec_dist(p) < 0) == (n < t * t * m)
            &&& (l.spec_dist(p) == 0) == (n == t * t * m)
            &&& (l.spec_dist(p) > 0) == (n > t * t * m)
            &&& e >= 0
            &&& n < t * t * m ==> e * e * m <= n < (e + 1) * (e + 1) * m
            &&& n >= t * t * m ==> n <= e * e * m && (e == 0 || (e - 1) * (e - 1) * m < n)
        }),
{
    let (pa, ba, pb) = (p.minus(l.a), l.b.minus(l.a), p.minus(l.b));
    lemma_segment_nonneg(pa, ba, pb);
    lemma_rounded_shell(
        segment_num(pa.norm_sq(), pa.spec_dot(ba), ba.norm_sq(), pb.norm_sq()),
        segment_div(pa.spec_dot(ba), ba.norm_sq()),
        l.thickness as int,
    );
}

/// A capsule of non-negative thickness `t` is negative exactly where the
/// squared distance `n / m` to its segment is below `t * t`, zero exactly
/// where it equals it, and positive exactly beyond; and `t + d` is
/// `sqrt(n / m)` rounded away from `t`, off by less than one.
pub proof fn lemma_line_2d_sign(l: Line<Vec2>, p: Vec2)
    requires
        l.thickness >= 0,
    ensures
        ({
            let (pa, ba, pb) = (p.minus(l.a), l.b.minus(l.a), p.minus(l.b));
            let n = segment_num(pa.norm_sq(), pa.spec_dot(ba), ba.norm_sq(), pb.norm_sq());
            let m = segment_div(pa.spec_dot(ba), ba.norm_sq());
            let t = l.thickness as int;
            let e = t + l.spec_dist(p);
            &&& (l.spec_dist(p) < 0) == (n < t * t * m)
            &&& (l.spec_dist(p) == 0) == (n == t * t * m)
            &&& (l.spec_dist(p) > 0) == (n > t * t * m)
            &&& e >= 0
            &&& n < t * t * m ==> e * e * m <= n < (e + 1) * (e + 1) * m
            &&& n >= t * t * m ==> n <= e * e * m && (e == 0 || (e - 1) * (e - 1) * m < n)
        }),
{
    let (pa, ba, pb) = (p.minus(l.a), l.b.minus(l.a), p.minus(l.b));
    let flat = |v: Vec2| Vec3 { x: v.x, y: v.y, z: 0 };
    lemma_segment_nonneg(flat(pa), flat(ba), flat(pb));
    assert(flat(pa).norm_sq() == pa.norm_sq());
    assert(flat(ba).norm_sq() == ba.norm_sq());
    assert(flat(pb).norm_sq() == pb.norm_sq());
    assert(flat(pa).spec_dot(flat(ba)) == pa.spec_dot(ba));
    lemma_rounded_shell(
        segment_num(pa.norm_sq(), pa.spec_dot(ba), ba.norm_sq(), pb.norm_sq()),
        segment_div(pa.spec_dot(ba), ba.norm_sq()),
        l.thickness as int,
    );
}

/// A circle's distance `d` is the true distance `|p| - r` rounded away from
/// zero: with `e = r + d`, `|p|` lies in `[e, e + 1)` strictly inside and
/// in `(e - 1, e]` elsewhere.
pub proof fn lemma_circle_exact(c: Circle, p: Vec2)
    ensures
        ({
            let (n, r) = (p.norm_sq(), c.radius as int);
            let e = r + c.spec_dist(p);
            &&& e >= 0
            &&& r > 0 && n < r * r ==> e * e <= n < (e + 1) * (e + 1)
            &&& !(r > 0 && n < r * r) ==> n <= e * e && (e == 0 || (e - 1) * (e - 1) < n)
        }),
{
    lemma_square_nonneg(p.x as int, p.y as int, 0);
    lemma_rounded_shell(p.norm_sq(), 1, c.radius as int);
}

/// A sphere's distance `d` is the true distance `|p| - r` rounded away from
/// zero: with `e = r + d`, `|p|` lies in `[e, e + 1)` strictly inside and
/// in `(e - 1, e]` elsewhere.
pub proof fn lemma_sphere_exact(s: Sphere, p: Vec3)
    ensures
        ({
            let (n, r) = (p.norm_sq(), s.radius as int);
            let e = r + s.spec_dist(p);
            &&& e >= 0
            &&& r > 0 && n < r * r ==> e * e <= n < (e + 1) * (e + 1)
            &&& !(r > 0 && n < r * r) ==> n <= e * e && (e == 0 || (e - 1) * (e - 1) < n)
        }),
{
    lemma_square_nonneg(p.x as int, p.y as int, p.z as int);
    lemma_rounded_shell(p.norm_sq(), 1, s.radius as int);
}

/// An infinite cylinder's distance `d` is the true distance rounded away
/// from zero: with `a`, `b` the components across the axis and
/// `e = r + d`, `sqrt(a^2 + b^2)` lies in `[e, e + 1)` strictly inside and
/// in `(e - 1, e]` elsewhere.
pub proof fn lemma_cylinder_exact(c: Cylinder, p: Vec3)
    ensures
        ({
            let (a, b, h) = c.axis.split(p);
            let (n, r) = (a * a + b * b, c.radius as int);
            let e = r + c.spec_dist(p);
            &&& e >= 0
            &&& r > 0 && n < r * r ==> e * e <= n < (e + 1) * (e + 1)
            &&& !(r > 0 && n < r * r) ==> n <= e * e && (e == 0 || (e - 1) * (e - 1) < n)
        }),
{
    let (a, b, h) = c.axis.split(p);
    lemma_square_nonneg(a, b, 0);
    lemma_rounded_shell(a * a + b * b, 1, c.radius as int);
}

/// Inside a box the distance is exactly minus the depth below the nearest
/// face; outside it is the true distance `sqrt(n)` to the box rounded up,
/// where `n` sums the squared overshoots past the faces.
pub proof fn lemma_box_2d_exact(bx: Box<Vec2>, p: Vec2)
    ensures
        ({
            let qx = abs_of(p.x as int) - bx.dims.x;
            let qy = abs_of(p.y as int) - bx.dims.y;
            let n = pos(qx) * pos(qx) + pos(qy) * pos(qy);
            let d = bx.spec_dist(p);
            &&& qx <= 0 && qy <= 0 ==> d == max(qx, qy)
            &&& (qx > 0 || qy > 0) ==> d > 0 && n <= d * d && (d - 1) * (d - 1) < n
        }),
{
    let qx = abs_of(p.x as int) - bx.dims.x;
    let qy = abs_of(p.y as int) - bx.dims.y;
    lemma_outside_norm(pos(qx), pos(qy), 0);
    lemma_rounded_shell(pos(qx) * pos(qx) + pos(qy) * pos(qy), 1, 0);
}

/// Inside a box the distance is exactly minus the depth below the nearest
/// face; outside it is the true distance `sqrt(n)` to the box rounded up,
/// where `n` sums the squared overshoots past the faces.
pub proof fn lemma_box_3d_exact(bx: Box<Vec3>, p: Vec3)
    ensures
        ({
            let qx = abs_of(p.x as int) - bx.dims.x;
            let qy = abs_of(p.y as int) - bx.dims.y;
            let qz = abs_of(p.z as int) - bx.dims.z;
            let n = pos(qx) * pos(qx) + pos(qy) * pos(qy) + pos(qz) * pos(qz);
            let d = bx.spec_dist(p);
            &&& qx <= 0 && qy <= 0 && qz <= 0 ==> d == max(qx, max(qy, qz))
            &&& (qx > 0 || qy > 0 || qz > 0) ==> d > 0 && n <= d * d && (d - 1) * (d - 1) < n
        }),
{
    let qx = abs_of(p.x as int) - bx.dims.x;
    let qy = abs_of(p.y as int) - bx.dims.y;
    let qz = abs_of(p.z as int) - bx.dims.z;
    lemma_outside_norm(pos(qx), pos(qy), pos(qz));
    lemma_rounded_shell(pos(qx) * pos(qx) + pos(qy) * pos(qy) + pos(qz) * pos(qz), 1, 0);
}

proof fn lemma_expand_component(x1: int, x2: int, i: int, j: int)
    ensures
        (j * x1 - i * x2) * (j * x1 - i * x2) == (j * j) * (x1 * x1) - 2 * ((i * j) * (x1 * x2))
            + (i * i) * (x2 * x2),
        (x1 - x2) * (x1 - x2) == x1 * x1 - 2 * (x1 * x2) + x2 * x2,
{
    lemma_square_diff(j * x1, i * x2);
    lemma_square_diff(x1, x2);
    lemma_swap(j, x1, j, x1);
    lemma_swap(j, x1, i, x2);
    lemma_swap(i, x2, i, x2);
}

proof fn lemma_square_diff(a: int, b: int)
    ensures
        (a - b) * (a - b) == a * a - 2 * (a * b) + b * b,
{
    assert((a - b) * (a - b) == a * a - 2 * (a * b) + b * b) by (nonlinear_arith);
}

proof fn lemma_swap(a: int, b: int, c: int, d: int)
    ensures
        (a * b) * (c * d) == (a * c) * (b * d),
        (a * b) * (c * d) == (c * a) * (b * d),
{
    assert((a * b) * (c * d) == (a * c) * (b * d)) by (nonlinear_arith);
    assert((a * b) * (c * d) == (c * a) * (b * d)) by (nonlinear_arith);
}

proof fn lemma_spread(a: int, b: int, c: int, d: int)
    ensures
        (a - 2 * b + c) * d == a * d - 2 * (b * d) + c * d,
        (a - b) * d == a * d - b * d,
{
    assert((a - 2 * b + c) * d == a * d - 2 * (b * d) + c * d) by (nonlinear_arith);
    assert((a - b) * d == a * d - b * d) by (nonlinear_arith);
}

proof fn lemma_assoc(a: int, b: int, c: int)
    ensures
        (a * b) * c == a * (b * c),
        (a * b) * c == a * (c * b),
        a * b == b * a,
{
    assert((a * b) * c == a * (b * c)) by (nonlinear_arith);
    assert((a * b) * c == a * (c * b)) by (nonlinear_arith);
}

proof fn lemma_middle(jj: int, ij: int, ii: int, p: int, k: int, d: int, i: int, j: int)
    requires
        jj == j * j,
        ij == i * j,
        ii == i * i,
    ensures
        (jj * p - 2 * (ij * k) + ii * d) * d - (p * d - k * k) * jj == (i * d - j * k) * (i * d - j
            * k),
{
    lemma_spread(jj * p, ij * k, ii * d, d);
    lemma_spread(p * d, k * k, 0, jj);
    lemma_assoc(jj, p, d);
    lemma_assoc(ij, k, d);
    lemma_assoc(ii, d, d);
    lemma_assoc(p * d, jj, 1);
    lemma_assoc(k * k, jj, 1);
    lemma_square_diff(i * d, j * k);
    lemma_swap(i, d, i, d);
    lemma_swap(j, k, j, k);
    lemma_swap(i, d, j, k);
    lemma_assoc(i, j, 1);
    lemma_assoc(d, k, 1);
}

proof fn lemma_distribute(m: int, a: int, b: int, c: int)
    ensures
        m * (a + b + c) == m * a + m * b + m * c,
{
    assert(m * (a + b + c) == m * a + m * b + m * c) by (nonlinear_arith);
}

/// The squared distance to a segment is the least squared distance to its
/// points: for `pa = p - a` and `ba = b - a`, every point `a + (i / j) ba`
/// with `0 <= i <= j` is at squared distance at least `n / m`, where `n`
/// and `m` are `segment_num` and `segment_div`; and the point at the
/// clamped projection, `i / j = clamp(k / den, 0, 1)`, attains it.
pub proof fn lemma_segment_nearest(pa: Vec3, ba: Vec3, i: int, j: int)
    requires
        0 <= i <= j,
        j > 0,
    ensures
        ({
            let (pa2, k, den) = (pa.norm_sq(), pa.spec_dot(ba), ba.norm_sq());
            let pb2 = (pa.x - ba.x) * (pa.x - ba.x) + (pa.y - ba.y) * (pa.y - ba.y) + (pa.z - ba.z)
                * (pa.z - ba.z);
            let n = segment_num(pa2, k, den, pb2);
            let m = segment_div(k, den);
            let (qx, qy, qz) = (j * pa.x - i * ba.x, j * pa.y - i * ba.y, j * pa.z - i * ba.z);
            let e = qx * qx + qy * qy + qz * qz;
            &&& e * m >= n * (j * j)
            &&& (den == 0 || k <= 0) && i == 0 ==> e * m == n * (j * j)
            &&& den > 0 && k >= den && i == j ==> e * m == n * (j * j)
            &&& 0 < k < den && i == k && j == den ==> e * m == n * (j * j)
        }),
{
    let (x1, y1, z1, x2, y2, z2) = (
        pa.x as int,
        pa.y as int,
        pa.z as int,
        ba.x as int,
        ba.y as int,
        ba.z as int,
    );
    let (pa2, k, den) = (pa.norm_sq(), pa.spec_dot(ba), ba.norm_sq());
    lemma_expand_component(x1, x2, i, j);
    lemma_expand_component(y1, y2, i, j);
    lemma_expand_component(z1, z2, i, j);
    lemma_distribute(j * j, x1 * x1, y1 * y1, z1 * z1);
    lemma_distribute(i * j, x1 * x2, y1 * y2, z1 * z2);
    lemma_distribute(2 * (i * j), x1 * x2, y1 * y2, z1 * z2);
    lemma_distribute(i * i, x2 * x2, y2 * y2, z2 * z2);
    let e = (j * j) * pa2 - 2 * ((i * j) * k) + (i * i) * den;
    lemma_assoc(pa2, j * j, 1);
    lemma_assoc(pa2 - 2 * k + den, j * j, 1);
    lemma_assoc(pa2 * den - k * k, j * j, 1);
    if i == 0 {
        assert(i * j == 0 && i * i == 0 && (i * j) * k == 0 && (i * i) * den == 0)
            by (nonlinear_arith)
            requires
                i == 0,
        ;
    }
    lemma_square_nonneg(x2, y2, z2);
    if den == 0 || k <= 0 {
        if den == 0 {
            lemma_cauchy_schwarz(x1, y1, z1, x2, y2, z2);
            assert(k == 0) by (nonlinear_arith)
                requires
                    k * k <= pa2 * den,
                    den == 0,
            ;
        }
        assert(e >= (j * j) * pa2) by (nonlinear_arith)
            requires
                e == (j * j) * pa2 - 2 * ((i * j) * k) + (i * i) * den,
                i >= 0,
                j > 0,
                den >= 0,
                k <= 0,
        ;
    } else if k >= den {
        assert(e >= (j * j) * (pa2 - 2 * k + den)) by (nonlinear_arith)
            requires
                e == (j * j) * pa2 - 2 * ((i * j) * k) + (i * i) * den,
                0 <= i <= j,
                k >= den > 0,
        {
            assert(e - (j * j) * (pa2 - 2 * k + den) == (j - i) * (2 * j * k - den * (j + i)));
            assert(2 * j * k - den * (j + i) >= 0);
            assert((j - i) * (2 * j * k - den * (j + i)) >= 0);
        }
        if i == j {
            assert(e == (j * j) * (pa2 - 2 * k + den)) by (nonlinear_arith)
                requires
                    e == (j * j) * pa2 - 2 * ((i * j) * k) + (i * i) * den,
                    i == j,
            ;
        }
    } else {
        lemma_middle(j * j, i * j, i * i, pa2, k, den, i, j);
        assert((i * den - j * k) * (i * den - j * k) >= 0) by (nonlinear_arith);
        if i == k && j == den {
            assert(i * den - j * k == 0) by (nonlinear_arith)
                requires
                    i == k,
                    j == den,
            ;
        }
    }
}

proof fn lemma_square_nonneg(a: int, b: int, c: int)
    ensures
        a * a + b * b + c * c >= 0,
        a * a + b * b >= 0,
{
    assert(a * a + b * b + c * c >= 0) by (nonlinear_arith);
    assert(a * a + b * b >= 0) by (nonlinear_arith);
}

/// The rounded norm of non-negative overshoots is positive exactly when one
/// of them is, and zero otherwise.
proof fn lemma_outside_norm(a: int, b: int, c: int)
    requires
        a >= 0,
        b >= 0,
        c >= 0,
    ensures
        (rounded_shell(a * a + b * b + c * c, 1, 0) > 0) == (a > 0 || b > 0 || c > 0),
        (rounded_shell(a * a + b * b + c * c, 1, 0) == 0) == !(a > 0 || b > 0 || c > 0),
        (rounded_shell(a * a + b * b, 1, 0) > 0) == (a > 0 || b > 0),
        (rounded_shell(a * a + b * b, 1, 0) == 0) == !(a > 0 || b > 0),
{
    lemma_square_nonneg(a, b, c);
    lemma_rounded_shell(a * a + b * b + c * c, 1, 0);
    lemma_rounded_shell(a * a + b * b, 1, 0);
    assert((a * a + b * b + c * c > 0) == (a > 0 || b > 0 || c > 0)) by (nonlinear_arith)
        requires
            a >= 0,
            b >= 0,
            c >= 0,
    ;
    assert((a * a + b * b > 0) == (a > 0 || b > 0)) by (nonlinear_arith)
        requires
            a >= 0,
            b >= 0,
    ;
}

} // verus!
