use constraint_solver::collision::sat::{
    axis_of_edges, contact, edge_axes_separation, face_axes, face_axes_separation, separation_along,
    ContactKind,
};
use constraint_solver::debug::{DebugLines, Primitive};
use constraint_solver::geometry::Polytope;
use constraint_solver::limits::ONE;
use constraint_solver::rigid::Rigid;
use constraint_solver::vector::Vec3;

fn cube_at(x: i128, y: i128, z: i128) -> Rigid {
    let mut rigid = Rigid::new(1);
    rigid.frame.position = Vec3::new(x, y, z);
    rigid.past_frame = rigid.frame;
    rigid
}

#[test]
fn separation_is_the_gap_along_the_axis() {
    let cube = Polytope::unit_cube();
    let a = cube_at(0, 0, 0).world_vertices(&cube);
    let b = cube_at(2 * ONE, 0, 0).world_vertices(&cube);
    assert_eq!(separation_along(&a, &b, &Vec3::new(ONE, 0, 0)), ONE * ONE);
    assert_eq!(separation_along(&a, &b, &Vec3::new(-ONE, 0, 0)), -3 * ONE * ONE);
    assert_eq!(separation_along(&a, &b, &Vec3::new(0, ONE, 0)), -ONE * ONE);
}

#[test]
fn face_axes_of_an_unturned_cube() {
    let cube = Polytope::unit_cube();
    let a = cube_at(5, 6, 7);
    assert_eq!(
        face_axes(&a, &cube),
        vec![
            Vec3::new(-ONE, 0, 0),
            Vec3::new(ONE, 0, 0),
            Vec3::new(0, -ONE, 0),
            Vec3::new(0, ONE, 0),
            Vec3::new(0, 0, -ONE),
            Vec3::new(0, 0, ONE),
        ]
    );
}

#[test]
fn face_query_of_cubes_apart() {
    let cube = Polytope::unit_cube();
    let a = cube_at(0, 0, 0);
    let b = cube_at(0, 2 * ONE, 0);
    let q = face_axes_separation((&a, &b), &cube).expect("the cube has faces");
    assert_eq!(q.index, 3);
    assert_eq!(q.separation, ONE * ONE);
    let r = face_axes_separation((&b, &a), &cube).expect("the cube has faces");
    assert_eq!(r.index, 2);
    assert_eq!(r.separation, ONE * ONE);
    assert!(contact((&a, &b), &cube).is_none());
    assert!(a.gjk(&b, &cube).is_none());
}

#[test]
fn apart_along_each_face_axis() {
    let cube = Polytope::unit_cube();
    let a = cube_at(0, 0, 0);
    let offsets = [
        (ONE + 1, 0, 0),
        (-ONE - 1, 0, 0),
        (0, ONE + 1, 100),
        (3, -ONE - 1, 0),
        (0, 0, ONE + 1),
        (-200, 300, -ONE - 1),
    ];
    let mut debug = DebugLines::new();
    for (x, y, z) in offsets {
        let b = cube_at(x, y, z);
        let q = face_axes_separation((&a, &b), &cube).unwrap();
        assert_eq!(q.separation, ONE);
        assert!(!a.sat(&b, &cube, &mut debug));
        assert!(a.gjk(&b, &cube).is_none());
        assert!(a.epa(&b, &cube).is_none());
    }
    assert!(debug.primitives.is_empty());
}

#[test]
fn parallel_edges_give_no_axis() {
    let zero = Vec3::new(0, 0, 0);
    assert_eq!(axis_of_edges(&Vec3::new(ONE, 0, 0), &Vec3::new(3 * ONE, 0, 0)), zero);
    assert_eq!(axis_of_edges(&Vec3::new(ONE, 0, 0), &Vec3::new(-ONE, 1, 0)), zero);
    assert_eq!(axis_of_edges(&Vec3::new(ONE, 0, 0), &Vec3::new(0, 0, 0)), zero);
}

#[test]
fn crossing_edges_give_an_axis_of_unit_length() {
    assert_eq!(axis_of_edges(&Vec3::new(ONE, 0, 0), &Vec3::new(0, 5, 0)), Vec3::new(0, 0, ONE));
    assert_eq!(axis_of_edges(&Vec3::new(0, 7, 0), &Vec3::new(9, 0, 0)), Vec3::new(0, 0, -ONE));
    // (3, 0, 0) x (0, 3, 4) = (0, -12, 9), of length 15
    assert_eq!(
        axis_of_edges(&Vec3::new(3, 0, 0), &Vec3::new(0, 3, 4)),
        Vec3::new(0, -52429, 39322)
    );
}

#[test]
fn sat_prefers_the_face_for_cubes_along_the_axes() {
    let cube = Polytope::unit_cube();
    let a = cube_at(0, 0, 0);
    let b = cube_at(7 * ONE / 10, 0, 0);
    let c = contact((&a, &b), &cube).expect("the cubes overlap");
    assert_eq!(c.kind, ContactKind::FaceOfFirst);
    assert_eq!(c.axis, Vec3::new(ONE, 0, 0));
    assert_eq!(c.separation, -(ONE - 7 * ONE / 10) * ONE);
    let e = edge_axes_separation((&a, &b), &cube).expect("the cubes have edges that cross");
    assert_eq!(e.separation, c.separation);
    // the axis agrees with the normal that the polytope search settles on
    let depth = a.epa(&b, &cube).expect("the cubes overlap");
    assert_eq!(depth.normal.y, 0);
    assert_eq!(depth.normal.z, 0);
    assert_ne!(depth.normal.x, 0);
    assert_eq!(depth.penetration() * ONE, -c.separation);
}

#[test]
fn sat_draws_the_axis_of_a_contact() {
    let cube = Polytope::unit_cube();
    let a = cube_at(10, 20, 30);
    let b = cube_at(10, 20 - ONE / 2, 30);
    let mut debug = DebugLines::new();
    assert!(a.sat(&b, &cube, &mut debug));
    assert_eq!(debug.primitives.len(), 5);
    for (primitive, color) in &debug.primitives[1..] {
        assert_eq!(*color, [255, 0, 0]);
        match primitive {
            Primitive::Point(p) => assert_eq!(p.y, 20),
            other => panic!("unexpected {:?}", other),
        }
    }
    let (primitive, color) = debug.primitives[0];
    assert_eq!(color, [255, 0, 0]);
    match primitive {
        Primitive::Line(from, to) => {
            assert_eq!(from, Vec3::new(10, 20, 30));
            assert_eq!(to, Vec3::new(10, 20 - ONE, 30));
        }
        other => panic!("unexpected {:?}", other),
    }
}

#[test]
fn sat_finds_an_edge_contact_of_crossed_cubes() {
    let cube = Polytope::unit_cube();
    let a = {
        // turned by a quarter of a right angle about x, then about y
        let mut r = cube_at(0, 0, 0);
        r.frame.quaternion = constraint_solver::frame::Quaternion::new(
            916_495_974,
            379_625_062,
            379_625_062,
            157_245_850,
        );
        r
    };
    let b = {
        let mut r = cube_at(0, 0, 0);
        r.frame.quaternion = constraint_solver::frame::Quaternion::new(
            916_495_974,
            -379_625_062,
            379_625_062,
            -157_245_850,
        );
        r.frame.position = Vec3::new(0, 0, 5 * ONE / 4);
        r
    };
    match contact((&a, &b), &cube) {
        Some(c) => {
            assert!(c.separation < 0);
            assert_ne!(c.axis, Vec3::new(0, 0, 0));
        }
        None => {
            assert!(a.gjk(&b, &cube).is_none());
        }
    }
}

#[test]
fn touching_cubes_are_apart_for_the_axes() {
    let cube = Polytope::unit_cube();
    let a = cube_at(0, 0, 0);
    let mut debug = DebugLines::new();
    for (x, y, z) in [(ONE, 0, 0), (0, ONE, 0), (0, 0, -ONE)] {
        let b = cube_at(x, y, z);
        let q = face_axes_separation((&a, &b), &cube).unwrap();
        assert_eq!(q.separation, 0);
        assert!(!a.sat(&b, &cube, &mut debug));
    }
    // the overlap search counts a common face as an overlap along y, where
    // its first point does not settle the matter
    assert!(a.gjk(&cube_at(ONE, 0, 0), &cube).is_none());
    assert!(a.gjk(&cube_at(0, ONE, 0), &cube).is_some());
    let depth = a.epa(&cube_at(0, ONE, 0), &cube).expect("a tetrahedron is found");
    assert_eq!(depth.depth, 0);
}
