use constraint_solver::collision::manifold::{
    clip, depth_manifold, edge_contact, face_contact, halfway_between, manifold, most_opposed_of,
    narrow_phase, ContactPoint, NarrowPhase,
};
use constraint_solver::collision::sat::{
    contact, edge_axes_separation, face_axes_separation, ContactKind,
};
use constraint_solver::frame::Quaternion;
use constraint_solver::geometry::Polytope;
use constraint_solver::limits::ONE;
use constraint_solver::rigid::Rigid;
use constraint_solver::vector::Vec3;

fn cube_at(x: i128, y: i128, z: i128) -> Rigid {
    let mut rigid = Rigid::new(1);
    rigid.frame.position = Vec3::new(x, y, z);
    rigid.past_frame = rigid.frame;
    rigid
}

fn square() -> Vec<Vec3> {
    vec![Vec3::new(0, 0, 0), Vec3::new(10, 0, 0), Vec3::new(10, 10, 0), Vec3::new(0, 10, 0)]
}

#[test]
fn clipping_keeps_what_is_inside() {
    // keep x >= -5: everything
    assert_eq!(clip(&square(), &Vec3::new(1, 0, 0), &Vec3::new(-5, 0, 0)), square());
    // keep x >= 20: nothing
    assert!(clip(&square(), &Vec3::new(1, 0, 0), &Vec3::new(20, 0, 0)).is_empty());
}

#[test]
fn clipping_puts_in_the_crossing_points() {
    // keep x <= 4
    let r = clip(&square(), &Vec3::new(-1, 0, 0), &Vec3::new(4, 0, 0));
    assert_eq!(
        r,
        vec![Vec3::new(0, 0, 0), Vec3::new(4, 0, 0), Vec3::new(4, 10, 0), Vec3::new(0, 10, 0)]
    );
    // keep x + y <= 15: the corner (10, 10) is cut off
    let r = clip(&square(), &Vec3::new(-1, -1, 0), &Vec3::new(15, 0, 0));
    assert_eq!(
        r,
        vec![
            Vec3::new(0, 0, 0),
            Vec3::new(10, 0, 0),
            Vec3::new(10, 5, 0),
            Vec3::new(5, 10, 0),
            Vec3::new(0, 10, 0),
        ]
    );
}

#[test]
fn clipping_rounds_crossing_points_to_the_lattice() {
    let triangle = vec![Vec3::new(0, 0, 0), Vec3::new(3, 0, 0), Vec3::new(0, 3, 0)];
    // keep 2 x + y <= 4: the side from (3, 0) to (0, 3) is crossed at (1, 2),
    // the side from (0, 0) to (3, 0) at (2, 0)
    let r = clip(&triangle, &Vec3::new(-2, -1, 0), &Vec3::new(2, 0, 0));
    assert_eq!(r, vec![Vec3::new(0, 0, 0), Vec3::new(2, 0, 0), Vec3::new(1, 2, 0), Vec3::new(0, 3, 0)]);
    // keep 3 x <= 4: crossed at x = 4 / 3, which rounds to 1
    let r = clip(&triangle, &Vec3::new(-3, 0, 0), &Vec3::new(1, 0, 0));
    assert_eq!(r[1], Vec3::new(1, 0, 0));
}

#[test]
fn the_face_that_looks_most_against_a_direction() {
    let axes = vec![
        Vec3::new(-ONE, 0, 0),
        Vec3::new(ONE, 0, 0),
        Vec3::new(0, -ONE, 0),
        Vec3::new(0, ONE, 0),
        Vec3::new(0, 0, -ONE),
        Vec3::new(0, 0, ONE),
    ];
    assert_eq!(most_opposed_of(&axes, &Vec3::new(0, 0, ONE)), 4);
    assert_eq!(most_opposed_of(&axes, &Vec3::new(ONE, 0, 0)), 0);
    assert_eq!(most_opposed_of(&axes, &Vec3::new(0, 0, 0)), 0);
    assert_eq!(most_opposed_of(&axes, &Vec3::new(100, 100, 0)), 0);
}

#[test]
fn stacked_cubes_touch_in_four_points() {
    let cube = Polytope::unit_cube();
    let a = cube_at(0, 0, 0);
    let b = cube_at(ONE / 4, 0, 9 * ONE / 10);
    let m = manifold((&a, &b), &cube).expect("the cubes overlap");
    assert_eq!(m.contact.kind, ContactKind::FaceOfFirst);
    assert_eq!(m.contact.index, 5);
    assert_eq!(m.contact.axis, Vec3::new(0, 0, ONE));
    let depth = ONE / 2 - (9 * ONE / 10 - ONE / 2);
    assert_eq!(m.contact.separation, -depth * ONE);
    let z = 9 * ONE / 10 - ONE / 2;
    let mut expected = vec![
        Vec3::new(-ONE / 4, -ONE / 2, z),
        Vec3::new(-ONE / 4, ONE / 2, z),
        Vec3::new(ONE / 2, ONE / 2, z),
        Vec3::new(ONE / 2, -ONE / 2, z),
    ];
    let mut found: Vec<Vec3> = m.points.iter().map(|p| p.position).collect();
    let key = |v: &Vec3| (v.x, v.y, v.z);
    expected.sort_by_key(key);
    found.sort_by_key(key);
    assert_eq!(found, expected);
    for p in &m.points {
        assert_eq!(p.penetration, depth * ONE);
    }
    let q1 = face_axes_separation((&a, &b), &cube).unwrap();
    let q2 = face_axes_separation((&b, &a), &cube).unwrap();
    assert_eq!(face_contact((&a, &b), &cube, (q1, q2)), m.points);
}

#[test]
fn the_deeper_face_is_not_the_reference() {
    let cube = Polytope::unit_cube();
    let a = cube_at(0, 0, 0);
    let mut b = cube_at(0, 0, 9 * ONE / 10);
    // turned by a little about z: the faces of b along x and y overlap a more
    b.frame.quaternion = Quaternion::new(1 << 20, 0, 0, 1 << 10);
    let m = manifold((&a, &b), &cube).expect("the cubes overlap");
    assert!(m.contact.kind == ContactKind::FaceOfFirst || m.contact.kind == ContactKind::FaceOfSecond);
    assert!(m.points.len() <= 4 && !m.points.is_empty());
    for p in &m.points {
        assert!(p.penetration >= 0);
        assert!(p.position.x.abs() <= ONE / 2 + 1 && p.position.y.abs() <= ONE / 2 + 1);
    }
}

#[test]
fn nearest_points_of_crossing_segments() {
    let p = halfway_between(
        &Vec3::new(-100, 0, 0),
        &Vec3::new(200, 0, 0),
        &Vec3::new(0, -100, 50),
        &Vec3::new(0, 200, 0),
    );
    assert_eq!(p, Vec3::new(0, 0, 25));
}

#[test]
fn nearest_points_at_the_ends_of_segments() {
    // the second segment lies beyond the end of the first
    let p = halfway_between(
        &Vec3::new(0, 0, 0),
        &Vec3::new(100, 0, 0),
        &Vec3::new(300, -50, 0),
        &Vec3::new(0, 100, 0),
    );
    assert_eq!(p, Vec3::new(200, 0, 0));
    // both nearest points are ends
    let p = halfway_between(
        &Vec3::new(0, 0, 0),
        &Vec3::new(100, 0, 0),
        &Vec3::new(300, 40, 0),
        &Vec3::new(0, 100, 0),
    );
    assert_eq!(p, Vec3::new(200, 20, 0));
    // a segment without length is a point
    let p = halfway_between(
        &Vec3::new(0, 0, 0),
        &Vec3::new(100, 0, 0),
        &Vec3::new(30, 40, 0),
        &Vec3::new(0, 0, 0),
    );
    assert_eq!(p, Vec3::new(30, 20, 0));
}

#[test]
fn edge_contact_lies_between_the_two_edges() {
    let cube = Polytope::unit_cube();
    let a = cube_at(0, 0, 0);
    let b = cube_at(7 * ONE / 10, 0, 0);
    let e = edge_axes_separation((&a, &b), &cube).expect("the cubes have edges that cross");
    let p: ContactPoint = edge_contact((&a, &b), &cube, e);
    assert_eq!(p.penetration, -e.separation);
    assert!(p.position.x.abs() <= ONE + ONE / 2);
    assert!(p.position.y.abs() <= ONE / 2 && p.position.z.abs() <= ONE / 2);
}

#[test]
fn crossed_cubes_touch_at_their_edges() {
    let cube = Polytope::unit_cube();
    // a turned by half a right angle about x, b about y, b above a: the top
    // edge of a, along x, and the bottom edge of b, along y, cross
    let mut a = cube_at(0, 0, 0);
    a.frame.quaternion = Quaternion::new(991_950_454, 410_874_608, 0, 0);
    let mut b = cube_at(0, 0, 90_000);
    b.frame.quaternion = Quaternion::new(991_950_454, 0, 410_874_608, 0);
    let c = contact((&a, &b), &cube).expect("the cubes overlap");
    assert_eq!(c.kind, ContactKind::Edge);
    assert_eq!(c.axis, Vec3::new(0, 0, ONE));
    // each edge is half a diagonal of a face from the centre: 46341
    assert_eq!(c.separation, -(2 * 46_341 - 90_000) * ONE);
    let m = manifold((&a, &b), &cube).expect("the cubes overlap");
    assert_eq!(m.points.len(), 1);
    assert_eq!(m.points[0].position, Vec3::new(0, 0, 45_000));
    assert_eq!(m.points[0].penetration, (2 * 46_341 - 90_000) * ONE);
}

#[test]
fn both_ways_of_finding_a_contact_agree_on_the_axis() {
    let cube = Polytope::unit_cube();
    let a = cube_at(0, 0, 0);
    let offsets = [(7 * ONE / 10, 0, 0), (100, -9 * ONE / 10, 50), (3000, 2000, ONE - 1000)];
    for (x, y, z) in offsets {
        let b = cube_at(x, y, z);
        let by_axes = narrow_phase(NarrowPhase::SeparatingAxes, (&a, &b), &cube).expect("overlap");
        let by_depth = narrow_phase(NarrowPhase::Depth, (&a, &b), &cube).expect("overlap");
        assert_eq!(by_depth.contact.kind, ContactKind::Depth);
        assert_eq!(by_depth.contact.separation, by_axes.contact.separation);
        let same = by_depth.contact.axis == by_axes.contact.axis;
        let opposite = by_depth.contact.axis == by_axes.contact.axis.negated();
        assert!(same || opposite);
        assert_eq!(by_depth.points.len(), 1);
        assert_eq!(by_depth.points[0].penetration, -by_depth.contact.separation);
    }
}

#[test]
fn the_depth_gives_no_contact_for_bodies_apart() {
    let cube = Polytope::unit_cube();
    let a = cube_at(0, 0, 0);
    let b = cube_at(0, 0, 2 * ONE);
    assert!(depth_manifold((&a, &b), &cube).is_none());
    assert!(narrow_phase(NarrowPhase::SeparatingAxes, (&a, &b), &cube).is_none());
}

#[test]
fn the_depth_of_overlapping_cubes_as_a_contact() {
    let cube = Polytope::unit_cube();
    let a = cube_at(0, 0, 0);
    let b = cube_at(7 * ONE / 10, 0, 0);
    let m = depth_manifold((&a, &b), &cube).expect("overlap");
    assert_eq!(m.contact.axis, Vec3::new(ONE, 0, 0));
    assert_eq!(m.contact.separation, -(ONE - 7 * ONE / 10) * ONE);
    // halfway between the corner of a farthest along x and the corner of b
    // farthest against it, each the last of four: 45875 / 2, halves upwards
    assert_eq!(m.points[0].position, Vec3::new(22_938, ONE / 2, ONE / 2));
}
