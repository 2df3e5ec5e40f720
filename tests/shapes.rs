use sdfu::bounds::{contains, distance_to_boundary, push_out_direction};
use sdfu::math::{floor_div, isqrt};
use sdfu::ops::{intersect, rotate, rotate_about, scale, subtract, translate, union};
use sdfu::primitives::{Axis, Box, CappedCylinder, Circle, Cylinder, Line, Sphere, Torus};
use sdfu::sdf::SDF;
use sdfu::vector::{Vec2, Vec3, COORD_MAX};

fn v2(x: i64, y: i64) -> Vec2 {
    Vec2::new(x, y)
}

fn v3(x: i64, y: i64, z: i64) -> Vec3 {
    Vec3::new(x, y, z)
}

#[test]
fn circle_on_inside_and_outside() {
    let c = Circle::new(5);
    assert_eq!(c.dist(v2(5, 0)), 0);
    assert_eq!(c.dist(v2(0, 0)), -5);
    assert_eq!(c.dist(v2(10, 0)), 5);
}

#[test]
fn box_2d_inside_and_outside() {
    let b = Box::new(v2(2, 3));
    assert_eq!(b.dist(v2(0, 0)), -2);
    assert_eq!(b.dist(v2(5, 0)), 3);
}

#[test]
fn box_with_hole_at_centre() {
    // Inside the hole the nearest solid is the hole's edge, 8 units away.
    let s = subtract(Box::new(v2(10, 10)), Box::new(v2(8, 8)));
    assert_eq!(s.dist(v2(0, 0)), 8);
    assert_eq!(s.dist(v2(9, 0)), -1);
    assert_eq!(s.dist(v2(12, 0)), 2);
}

#[test]
fn capsule_inside_and_outside() {
    let l = Line::new(v2(0, 0), v2(10, 0), 1);
    assert_eq!(l.dist(v2(5, 0)), -1);
    assert_eq!(l.dist(v2(5, 3)), 2);
}

#[test]
fn capsule_clamps_to_its_ends() {
    let l = Line::new(v2(0, 0), v2(10, 0), 1);
    assert_eq!(l.dist(v2(-4, 3)), 4);
    assert_eq!(l.dist(v2(13, -4)), 4);
}

#[test]
fn capsule_rounds_an_outside_distance_up() {
    // The true distance from (10, 0) to the diagonal is sqrt(50), about 7.07.
    let l = Line::new(v2(0, 0), v2(10, 10), 0);
    assert_eq!(l.dist(v2(10, 0)), 8);
    // Inside, about 10 - 7.07 = 2.93 deep, rounded away from zero.
    let thick = Line::new(v2(0, 0), v2(10, 10), 10);
    assert_eq!(thick.dist(v2(10, 0)), -3);
}

#[test]
fn capsule_of_zero_length_is_a_disc() {
    let l = Line::new(v2(3, 3), v2(3, 3), 2);
    assert_eq!(l.dist(v2(3, 3)), -2);
    assert_eq!(l.dist(v2(6, 7)), 3);
}

#[test]
fn capsule_in_three_dimensions() {
    let l = Line::new(v3(0, 0, 0), v3(0, 0, 10), 1);
    assert_eq!(l.dist(v3(0, 3, 5)), 2);
    assert_eq!(l.dist(v3(0, 0, -4)), 3);
    assert_eq!(l.dist(v3(0, 0, 13)), 2);
    assert_eq!(l.dist(v3(0, 0, 5)), -1);
    assert_eq!(l.dist(v3(1, 1, 5)), 1);
}

#[test]
fn sphere_signs() {
    let s = Sphere::new(5);
    assert!(s.dist(v3(1, 2, 2)) < 0);
    assert_eq!(s.dist(v3(0, 3, 4)), 0);
    assert!(s.dist(v3(0, 0, 6)) > 0);
    assert_eq!(s.dist(v3(0, 0, 0)), -5);
}

#[test]
fn box_3d_signs() {
    let b = Box::new(v3(1, 2, 3));
    assert_eq!(b.dist(v3(0, 0, 0)), -1);
    assert_eq!(b.dist(v3(1, 0, 0)), 0);
    assert_eq!(b.dist(v3(0, 0, 5)), 2);
    // Past a corner: overshoots (3, 4, 0) give a distance of 5.
    assert_eq!(b.dist(v3(4, 6, 1)), 5);
}

#[test]
fn box_of_zero_size_is_flat() {
    let b = Box::new(v2(0, 4));
    assert_eq!(b.dist(v2(0, 0)), 0);
    assert_eq!(b.dist(v2(3, 0)), 3);
    assert_eq!(b.dist(v2(3, 8)), 5);
}

#[test]
fn box_corner_distance_is_euclidean() {
    let b = Box::new(v2(2, 3));
    assert_eq!(b.dist(v2(5, 7)), 5);
    assert_eq!(b.dist(v2(-5, -7)), 5);
}

#[test]
fn torus_ring_and_tube() {
    let t = Torus::new(10, 2);
    assert_eq!(t.dist(v3(10, 0, 0)), -2);
    assert_eq!(t.dist(v3(13, 0, 0)), 1);
    assert_eq!(t.dist(v3(0, 5, 10)), 3);
    assert_eq!(t.dist(v3(0, 0, 0)), 8);
}

#[test]
fn torus_is_symmetric_about_its_axis() {
    let t = Torus::new(10, 2);
    let a = t.dist(v3(3, 1, 4));
    assert_eq!(t.dist(v3(4, 1, 3)), a);
    assert_eq!(t.dist(v3(0, 1, -5)), a);
    assert_eq!(t.dist(v3(-5, 1, 0)), a);
}

#[test]
fn cylinder_each_axis() {
    assert_eq!(Cylinder::new(2, Axis::X).dist(v3(100, 3, 4)), 3);
    assert_eq!(Cylinder::new(2, Axis::Y).dist(v3(3, 100, 4)), 3);
    assert_eq!(Cylinder::new(2, Axis::Z).dist(v3(3, 4, 100)), 3);
    assert_eq!(Cylinder::new(2, Axis::Z).dist(v3(0, 0, -9)), -2);
}

#[test]
fn cylinder_is_symmetric_about_its_axis() {
    let c = Cylinder::new(2, Axis::Y);
    assert_eq!(c.dist(v3(3, 7, 4)), c.dist(v3(-4, -2, 3)));
    assert_eq!(c.dist(v3(5, 0, 0)), c.dist(v3(0, 0, -5)));
}

#[test]
fn capped_cylinder_each_axis() {
    let y = CappedCylinder::new(3, 4, Axis::Y);
    assert_eq!(y.dist(v3(0, 0, 0)), -3);
    assert_eq!(y.dist(v3(0, 10, 0)), 6);
    assert_eq!(y.dist(v3(6, 8, 0)), 5);
    assert_eq!(y.dist(v3(3, 0, 0)), 0);
    let x = CappedCylinder::new(3, 4, Axis::X);
    assert_eq!(x.dist(v3(10, 0, 0)), 6);
    assert_eq!(x.dist(v3(0, 5, 0)), 2);
    let z = CappedCylinder::new(3, 4, Axis::Z);
    assert_eq!(z.dist(v3(0, 0, -7)), 3);
    assert_eq!(z.dist(v3(0, 0, 2)), -2);
}

#[test]
fn circle_and_sphere_are_symmetric() {
    let c = Circle::new(2);
    assert_eq!(c.dist(v2(3, 4)), c.dist(v2(-4, 3)));
    assert_eq!(c.dist(v2(3, 4)), c.dist(v2(0, -5)));
    let s = Sphere::new(1);
    assert_eq!(s.dist(v3(2, 3, 6)), s.dist(v3(0, 0, 7)));
}

#[test]
fn circle_far_away_is_exact() {
    let c = Circle::new(5);
    assert_eq!(c.dist(v2(30, 40)), 45);
    assert_eq!(c.dist(v2(-600, 800)), 995);
    // sqrt(2) * 100 is about 141.4, rounded away from zero.
    assert_eq!(c.dist(v2(100, 100)), 137);
    assert_eq!(Circle::new(200).dist(v2(100, 100)), -59);
}

#[test]
fn booleans_take_min_and_max() {
    let a = Circle::new(5);
    let b = translate(Circle::new(5), v2(6, 0));
    let p = v2(-2, 0);
    let da = a.dist(p);
    let db = b.dist(p);
    assert_eq!((da, db), (-3, 3));
    assert_eq!(union(a, b).dist(p), -3);
    assert_eq!(intersect(a, b).dist(p), 3);
    assert_eq!(subtract(a, b).dist(p), -3);
    assert_eq!(subtract(b, a).dist(p), 3);
}

#[test]
fn translate_and_back() {
    let c = Circle::new(3);
    let v = v2(7, -2);
    let t = translate(c, v);
    assert_eq!(t.dist(v2(7, -2)), -3);
    assert_eq!(t.dist(v2(10, -2)), 0);
    assert_eq!(t.dist(v2(1, 2)), c.dist(v2(-6, 4)));
    let back = translate(translate(c, v), v2(-7, 2));
    for p in [v2(0, 0), v2(3, 0), v2(-9, 5), v2(100, -40)] {
        assert_eq!(back.dist(p), c.dist(p));
    }
}

#[test]
fn translate_in_three_dimensions() {
    let s = translate(Sphere::new(2), v3(1, 2, 3));
    assert_eq!(s.dist(v3(1, 2, 3)), -2);
    assert_eq!(s.dist(v3(1, 2, 8)), 3);
}

#[test]
fn nested_combinators() {
    let frame = subtract(Box::new(v2(10, 10)), Box::new(v2(8, 8)));
    let post = translate(Circle::new(1), v2(0, 0));
    let shape = union(frame, post);
    assert_eq!(shape.dist(v2(0, 0)), -1);
    assert_eq!(shape.dist(v2(4, 0)), 3);
    assert_eq!(shape.dist(v2(9, 9)), -1);
}

#[test]
fn largest_coordinates() {
    let m = COORD_MAX;
    assert_eq!(Circle::new(0).dist(v2(m, 0)), m);
    assert_eq!(Box::new(v2(m, m)).dist(v2(-m, -m)), 0);
    // Overshoots (2m, m) give sqrt(5) * m, rounded up.
    assert_eq!(Box::new(v2(-m, -m)).dist(v2(m, 0)), 1_200_479_855);
    let l = Line::new(v3(-m, -m, -m), v3(m, m, m), m);
    assert_eq!(l.dist(v3(m, m, m)), -m);
    assert_eq!(Sphere::new(-m).dist(v3(m, m, m)), 929_887_697 + m);
}

#[test]
fn floor_square_roots() {
    assert_eq!(isqrt(0), 0);
    assert_eq!(isqrt(1), 1);
    assert_eq!(isqrt(15), 3);
    assert_eq!(isqrt(16), 4);
    assert_eq!(isqrt(17), 4);
    assert_eq!(isqrt(u128::MAX), u64::MAX);
    assert_eq!(isqrt(1u128 << 100), 1u64 << 50);
}

#[test]
fn vector_operations() {
    let a = v3(1, -2, 3);
    let b = v3(4, 5, -6);
    assert_eq!(a.dot(&b), 4 - 10 - 18);
    assert_eq!(a.sub(&b), v3(-3, -7, 9));
    assert_eq!(v3(2, 3, 6).magnitude(), 7);
    assert_eq!(v2(3, 4).magnitude(), 5);
    assert_eq!(v2(3, 4).sub(&v2(1, 1)), v2(2, 3));
    assert_eq!(v2(3, 4).dot(&v2(-1, 2)), 5);
}

#[test]
fn containment_and_distance() {
    let c = translate(Circle::new(5), v2(10, 0));
    assert!(contains(&c, v2(10, 0)));
    assert!(contains(&c, v2(15, 0)));
    assert!(!contains(&c, v2(16, 0)));
    assert_eq!(distance_to_boundary(&c, v2(0, 0)), 5);
}

#[test]
fn push_out_points_away_from_boundary() {
    let c = Circle::new(10);
    assert_eq!(push_out_direction(&c, v2(20, 0), 1), v2(2, 0));
    assert_eq!(push_out_direction(&c, v2(0, -20), 1), v2(0, -2));
    let b = Box::new(v2(5, 5));
    assert_eq!(push_out_direction(&b, v2(0, 3), 1), v2(0, 2));
    assert_eq!(push_out_direction(&b, v2(8, 0), 2), v2(4, 0));
}

#[test]
fn quarter_turns_of_a_box() {
    let b = Box::new(v2(2, 3));
    let r = rotate(b, 1);
    assert_eq!(r.dist(v2(0, 5)), 3);
    assert_eq!(r.dist(v2(5, 0)), 2);
    assert_eq!(rotate(b, 2).dist(v2(-5, 0)), 3);
    assert_eq!(rotate(b, 3).dist(v2(0, -5)), 3);
    assert_eq!(rotate(b, 4).dist(v2(5, 0)), 3);
    let c = Circle::new(4);
    for t in 0..4u32 {
        assert_eq!(rotate(c, t).dist(v2(3, 9)), c.dist(v2(3, 9)));
    }
}

#[test]
fn line_turned_a_quarter() {
    let l = rotate(Line::new(v2(0, 0), v2(10, 0), 1), 1);
    assert_eq!(l.dist(v2(0, 5)), -1);
    assert_eq!(l.dist(v2(3, 5)), 2);
}

#[test]
fn scaled_shapes() {
    let c = scale(Circle::new(5), 2);
    assert_eq!(c.dist(v2(20, 0)), 10);
    assert_eq!(c.dist(v2(0, 0)), -10);
    // -3 / 2 rounds down to -2; the unscaled distance there is -3, doubled to -6.
    assert_eq!(c.dist(v2(-3, 0)), -6);
    let b = scale(Box::new(v3(1, 1, 1)), 3);
    assert_eq!(b.dist(v3(0, 0, 9)), 6);
    assert_eq!(b.dist(v3(0, 0, 0)), -3);
}

#[test]
fn floor_division_rounds_down() {
    assert_eq!(floor_div(7, 2), 3);
    assert_eq!(floor_div(-7, 2), -4);
    assert_eq!(floor_div(-6, 3), -2);
    assert_eq!(floor_div(0, 5), 0);
    assert_eq!(floor_div(i64::MIN, 1), i64::MIN);
}

#[test]
fn points_just_outside_are_positive() {
    assert_eq!(Sphere::new(1).dist(v3(1, 1, 0)), 1);
    assert_eq!(Circle::new(1).dist(v2(1, 1)), 1);
    assert_eq!(Cylinder::new(1, Axis::Z).dist(v3(1, 1, 0)), 1);
    assert_eq!(CappedCylinder::new(1, 1, Axis::Z).dist(v3(1, 1, 0)), 1);
    assert_eq!(Line::new(v2(0, 0), v2(10, 0), 1).dist(v2(11, 1)), 1);
    let pair = union(Circle::new(1), translate(Circle::new(1), v2(10, 0)));
    assert_eq!(pair.dist(v2(1, 1)), 1);
    assert!(!contains(&pair, v2(1, 1)));
}

#[test]
fn points_just_inside_are_negative() {
    assert_eq!(Circle::new(2).dist(v2(1, 1)), -1);
    assert_eq!(Sphere::new(2).dist(v3(1, 1, 1)), -1);
    // About 0.17 from the ring, well within a tube of thickness 1.
    assert_eq!(Torus::new(3, 1).dist(v3(2, 0, 2)), -1);
}

#[test]
fn torus_and_capped_cylinder_near_a_corner() {
    // The exact distances are both about 3.0025.
    assert_eq!(Torus::new(3, 0).dist(v3(5, 1, 3)), 4);
    assert_eq!(CappedCylinder::new(3, 0, Axis::Z).dist(v3(5, 3, 1)), 4);
    // On the tube of a torus: ring distance 3, height 4, thickness 5.
    assert_eq!(Torus::new(10, 5).dist(v3(13, 4, 0)), 0);
}

#[test]
fn quarter_turns_about_each_axis() {
    let b = Box::new(v3(1, 2, 3));
    assert_eq!(b.dist(v3(0, 5, 0)), 3);
    assert_eq!(rotate_about(b, Axis::Z, 1).dist(v3(0, 5, 0)), 4);
    assert_eq!(rotate_about(b, Axis::X, 1).dist(v3(0, 0, 5)), 3);
    assert_eq!(rotate_about(b, Axis::Y, 1).dist(v3(5, 0, 0)), 2);
    assert_eq!(rotate_about(b, Axis::Y, 4).dist(v3(5, 0, 0)), 4);
    let s = Sphere::new(3);
    for t in 0..4u32 {
        assert_eq!(rotate_about(s, Axis::X, t).dist(v3(1, 2, 7)), s.dist(v3(1, 2, 7)));
    }
}

#[test]
fn torus_and_capped_rim_round_once() {
    // sqrt((sqrt(226) - 10)^2 + 9) - 2 is about 3.86.
    assert_eq!(Torus::new(10, 2).dist(v3(15, 3, 1)), 4);
    // sqrt((sqrt(226) - 10)^2 + 9) is about 5.86.
    assert_eq!(CappedCylinder::new(10, 2, Axis::Y).dist(v3(15, 5, 1)), 6);
    // Inside the tube: sqrt((sqrt(125) - 10)^2 + 1) - 3 is about -1.45.
    assert_eq!(Torus::new(10, 3).dist(v3(11, 1, 2)), -2);
}
