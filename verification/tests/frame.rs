use constraint_solver::frame::{Frame, Quaternion};
use constraint_solver::geometry::{Plane, Polytope};
use constraint_solver::limits::ONE;
use constraint_solver::numeric::{clamped, integer_sqrt, rounded_quotient};
use constraint_solver::rigid::Rigid;
use constraint_solver::vector::Vec3;

#[test]
fn vector_products() {
    let a = Vec3::new(1, 2, 3);
    let b = Vec3::new(-4, 5, 6);
    assert_eq!(a.dot(&b), 24);
    assert_eq!(a.cross(&b), Vec3::new(-3, -18, 13));
    assert_eq!(b.cross(&a), Vec3::new(3, 18, -13));
    assert_eq!(a.plus(&b), Vec3::new(-3, 7, 9));
    assert_eq!(a.minus(&b), Vec3::new(5, -3, -3));
    assert_eq!(a.negated(), Vec3::new(-1, -2, -3));
    assert!(Vec3::zero().is_zero());
    assert!(!Vec3::unit_x().is_zero());
    assert_eq!(Vec3::unit_x(), Vec3::new(1, 0, 0));
}

#[test]
fn quotients_round_to_the_nearest() {
    assert_eq!(rounded_quotient(7, 2), 4);
    assert_eq!(rounded_quotient(-7, 2), -3);
    assert_eq!(rounded_quotient(5, 10), 1);
    assert_eq!(rounded_quotient(-5, 10), 0);
    assert_eq!(rounded_quotient(-6, 10), -1);
    assert_eq!(rounded_quotient(14, 10), 1);
    assert_eq!(rounded_quotient(-14, 10), -1);
    assert_eq!(rounded_quotient(-15, 10), -1);
    assert_eq!(rounded_quotient(0, 3), 0);
    assert_eq!(rounded_quotient(12, 4), 3);
}

#[test]
fn square_roots_round_down() {
    assert_eq!(integer_sqrt(0), 0);
    assert_eq!(integer_sqrt(1), 1);
    assert_eq!(integer_sqrt(24), 4);
    assert_eq!(integer_sqrt(25), 5);
    assert_eq!(integer_sqrt(26), 5);
    let big: i128 = 1 << 118;
    assert_eq!(integer_sqrt(big), 1 << 59);
    assert_eq!(integer_sqrt(big - 1), (1 << 59) - 1);
}

#[test]
fn clamping_holds_at_the_ends() {
    assert_eq!(clamped(5, 3), 3);
    assert_eq!(clamped(-5, 3), -3);
    assert_eq!(clamped(2, 3), 2);
    assert_eq!(clamped(-3, 3), -3);
}

#[test]
fn identity_leaves_points_where_they_are() {
    let f = Frame::identity();
    assert_eq!(f.act(&Vec3::new(3, -4, 5)), Vec3::new(3, -4, 5));
    let scaled = Quaternion::new(-7, 0, 0, 0);
    assert_eq!(scaled.rotate(&Vec3::new(3, -4, 5)), Vec3::new(3, -4, 5));
}

#[test]
fn quarter_turn_about_z() {
    let q = Quaternion::new(1, 0, 0, 1);
    assert_eq!(q.rotate(&Vec3::new(100, 0, 0)), Vec3::new(0, 100, 0));
    assert_eq!(q.rotate(&Vec3::new(0, 100, 7)), Vec3::new(-100, 0, 7));
    assert_eq!(q.conjugate().rotate(&Vec3::new(0, 100, 0)), Vec3::new(100, 0, 0));
}

#[test]
fn act_turns_and_then_moves() {
    let f = Frame { position: Vec3::new(10, 20, 30), quaternion: Quaternion::new(1, 0, 0, 1) };
    assert_eq!(f.act(&Vec3::new(100, 0, 0)), Vec3::new(10, 120, 30));
    assert_eq!(f.act_inverse(&Vec3::new(10, 120, 30)), Vec3::new(100, 0, 0));
}

#[test]
fn turn_by_eighths_rounds_to_the_lattice() {
    let q = Quaternion::new(916_495_974, 379_625_062, 379_625_062, 157_245_850);
    assert_eq!(q.rotate(&Vec3::new(ONE, 0, 0)), Vec3::new(46341, 32768, -32768));
    assert_eq!(q.rotate(&Vec3::new(0, 0, ONE)), Vec3::new(46341, -32768, 32768));
    assert_eq!(
        q.rotate(&Vec3::new(ONE / 2, ONE / 2, ONE / 2)),
        Vec3::new(46341, 23170, 23170)
    );
}

#[test]
fn normalized_quaternions_have_the_unit_norm() {
    assert_eq!(Quaternion::new(3, 0, 4, 0).normalized(), Quaternion::new(644_245_094, 0, 858_993_459, 0));
    assert_eq!(Quaternion::new(0, 0, 0, 0).normalized(), Quaternion::identity());
    assert_eq!(Quaternion::new(5, 0, 0, 0).normalized(), Quaternion::new(1 << 30, 0, 0, 0));
}

#[test]
fn quaternion_products() {
    let i = Quaternion::new(0, 1, 0, 0);
    let j = Quaternion::new(0, 0, 1, 0);
    assert_eq!(i.product(&j), Quaternion::new(0, 0, 0, 1));
    assert_eq!(j.product(&i), Quaternion::new(0, 0, 0, -1));
    assert_eq!(i.product(&i), Quaternion::new(-1, 0, 0, 0));
}

#[test]
fn small_turns() {
    let q = Quaternion::identity();
    assert_eq!(q.turned_by(&Vec3::new(0, 0, 0)), q);
    // a quarter of a radian about z
    assert_eq!(q.turned_by(&Vec3::new(0, 0, ONE / 4)), Quaternion::new(1_065_450_257, 0, 0, 133_181_282));
}

#[test]
fn cube_corners_and_edges() {
    let cube = Polytope::cube(3);
    assert_eq!(cube.vertices.len(), 8);
    assert_eq!(cube.vertices[0], Vec3::new(-3, -3, -3));
    assert_eq!(cube.vertices[1], Vec3::new(-3, -3, 3));
    assert_eq!(cube.vertices[6], Vec3::new(3, 3, -3));
    assert_eq!(cube.vertices[7], Vec3::new(3, 3, 3));
    assert_eq!(cube.normals.len(), 6);
    assert_eq!(cube.edges.len(), 12);
    for &(u, v) in &cube.edges {
        let d = cube.vertices[v].minus(&cube.vertices[u]);
        assert_eq!(d.x.abs() + d.y.abs() + d.z.abs(), 6);
    }
    let unit = Polytope::unit_cube();
    assert_eq!(unit.vertices[7], Vec3::new(ONE / 2, ONE / 2, ONE / 2));
}

#[test]
fn plane_through_three_points() {
    let p = Plane::from_points([Vec3::new(ONE, 0, 0), Vec3::new(0, ONE, 0), Vec3::new(0, 0, ONE)]);
    assert_eq!(p.normal, Vec3::new(ONE * ONE, ONE * ONE, ONE * ONE));
    assert_eq!(p.displacement, ONE * ONE * ONE);
    // one over the root of three, in lattice units
    assert_eq!(p.distance(), 37837);
    let q = Plane::from_points([Vec3::new(0, 0, 5), Vec3::new(1, 0, 5), Vec3::new(0, 1, 5)]);
    assert_eq!(q.normal, Vec3::new(0, 0, 1));
    assert_eq!(q.displacement, 5);
    assert_eq!(q.normal_length(), 1);
    assert_eq!(q.distance(), 5);
}

#[test]
fn delta_of_an_unmoved_body_is_nothing() {
    let mut r = Rigid::new(1);
    r.frame.position = Vec3::new(5, 6, 7);
    r.past_frame = r.frame;
    assert_eq!(r.delta(&Vec3::new(100, 200, 300)), Vec3::new(0, 0, 0));
}

#[test]
fn delta_of_a_shifted_and_turned_body() {
    let mut r = Rigid::new(1);
    r.past_frame = Frame { position: Vec3::new(0, 0, 0), quaternion: Quaternion::identity() };
    r.frame = Frame { position: Vec3::new(10, 0, 0), quaternion: Quaternion::new(1, 0, 0, 1) };
    // the point of the body at (100, 0, 0) stood there and stands at (10, 100, 0) now
    assert_eq!(r.delta(&Vec3::new(10, 100, 0)), Vec3::new(-90, 100, 0));
}
