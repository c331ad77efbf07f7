use constraint_solver::collision::epa::{is_closed, is_sound, Face, Polytope as Expanding};
use constraint_solver::collision::gjk::Tetrahedron;
use constraint_solver::collision::support::minkowski_of;
use constraint_solver::geometry::{Plane, Polytope};
use constraint_solver::limits::ONE;
use constraint_solver::rigid::Rigid;
use constraint_solver::vector::Vec3;

fn cube_at(x: i128, y: i128, z: i128) -> Rigid {
    let mut rigid = Rigid::new(1);
    rigid.frame.position = Vec3::new(x, y, z);
    rigid.past_frame = rigid.frame;
    rigid
}

fn length(v: Vec3) -> f64 {
    ((v.x * v.x + v.y * v.y + v.z * v.z) as f64).sqrt()
}

#[test]
fn epa_depth_of_cubes_overlapping_by_three_tenths() {
    let cube = Polytope::unit_cube();
    let a = cube_at(0, 0, 0);
    let b = cube_at(7 * ONE / 10, 0, 0);
    let c = a.epa(&b, &cube).expect("the cubes overlap");
    let len = length(c.normal);
    let depth = c.depth as f64 / len / ONE as f64;
    assert!((depth - 0.3).abs() < 1e-4, "depth {}", depth);
    assert!((c.normal.x as f64 / len).abs() > 0.9999);
    assert_eq!(c.normal.y, 0);
    assert_eq!(c.normal.z, 0);
    // in lattice units the overlap is exact
    assert_eq!(c.penetration(), ONE - 7 * ONE / 10);
}

#[test]
fn epa_depth_is_the_reach_of_the_difference() {
    let cube = Polytope::unit_cube();
    let a = cube_at(0, 0, 0);
    let b = cube_at(20000, 30000, 40000);
    let c = a.epa(&b, &cube).expect("the cubes overlap");
    let av = a.world_vertices(&cube);
    let bv = b.world_vertices(&cube);
    let dot = |p: Vec3, q: Vec3| p.x * q.x + p.y * q.y + p.z * q.z;
    let mut reach = i128::MIN;
    for p in &av {
        for q in &bv {
            reach = reach.max(dot(*p, c.normal) - dot(*q, c.normal));
        }
    }
    assert_eq!(reach, c.depth);
    assert!(c.depth >= 0);
    // the least overlap is along z: 65536 - 40000 lattice units
    assert_eq!(c.normal.x, 0);
    assert_eq!(c.normal.y, 0);
    assert_eq!(c.penetration(), ONE - 40000);
}

#[test]
fn epa_of_cubes_apart_is_nothing() {
    let cube = Polytope::unit_cube();
    let a = cube_at(0, 0, 0);
    let b = cube_at(0, 2 * ONE, 0);
    assert!(a.epa(&b, &cube).is_none());
}

#[test]
fn polytope_of_a_tetrahedron_is_closed() {
    let t = Tetrahedron {
        a: Vec3::new(0, 0, 50),
        b: Vec3::new(40, -20, -2),
        c: Vec3::new(-40, -20, -2),
        d: Vec3::new(0, 40, -2),
    };
    let p = Expanding::new(t);
    assert_eq!(p.vertices, vec![t.a, t.b, t.c, t.d]);
    assert_eq!(p.faces.len(), 4);
    assert!(is_closed(&p.faces));
    assert!(is_sound(&p.vertices, &p.faces));
    for k in 0..4 {
        let plane = Plane::from_points(p.face_vertices(k));
        assert!(plane.displacement > 0);
    }
    // the base is the nearest face: its plane is z = -2
    let nearest = p.minimal_face();
    let plane = p.face_plane(nearest);
    assert_eq!(plane.normal.x, 0);
    assert_eq!(plane.normal.y, 0);
    assert!(plane.normal.z < 0);
    assert_eq!(plane.distance(), 2);
}

#[test]
fn an_open_surface_is_not_closed() {
    let faces = vec![
        Face { a: 0, b: 1, c: 2 },
        Face { a: 0, b: 2, c: 3 },
        Face { a: 0, b: 3, c: 1 },
    ];
    assert!(!is_closed(&faces));
    let twisted = vec![
        Face { a: 0, b: 1, c: 2 },
        Face { a: 0, b: 2, c: 3 },
        Face { a: 0, b: 3, c: 1 },
        Face { a: 1, b: 2, c: 3 },
    ];
    assert!(!is_closed(&twisted));
}

#[test]
fn expansion_keeps_the_polytope_closed() {
    let cube = Polytope::unit_cube();
    let a = cube_at(0, 0, 0);
    let b = cube_at(100, 200, 300);
    let av = a.world_vertices(&cube);
    let bv = b.world_vertices(&cube);
    let t = a.gjk(&b, &cube).expect("the cubes overlap");
    let mut p = Expanding::new(t);
    let mut grown = 0;
    for _ in 0..64 {
        let plane = p.face_plane(p.minimal_face());
        let support = minkowski_of(&av, &bv, &plane.normal);
        let height = plane.normal.x * support.x + plane.normal.y * support.y
            + plane.normal.z * support.z - plane.displacement;
        if p.vertices.contains(&support) || height <= 0 {
            break;
        }
        let before = p.vertices.len();
        assert!(p.expand(support));
        grown += 1;
        assert_eq!(p.vertices.len(), before + 1);
        assert_eq!(*p.vertices.last().unwrap(), support);
        assert!(is_closed(&p.faces));
        assert!(is_sound(&p.vertices, &p.faces));
        // Euler: a closed surface of triangles on v corners has 2 v - 4 faces
        assert_eq!(p.faces.len(), 2 * p.vertices.len() - 4);
        assert!(p.faces.iter().any(|f| f.c == before));
    }
    assert!(grown > 0);
}

#[test]
fn expansion_by_a_point_inside_changes_nothing() {
    let t = Tetrahedron {
        a: Vec3::new(0, 0, 5),
        b: Vec3::new(4, -2, -2),
        c: Vec3::new(-4, -2, -2),
        d: Vec3::new(0, 4, -2),
    };
    let mut p = Expanding::new(t);
    let faces = p.faces.clone();
    // no face sees the origin: nothing is kept out and nothing is added,
    // which leaves a corner that no face uses; the faces stay as they are
    let changed = p.expand(Vec3::new(0, 0, 0));
    assert!(changed);
    assert_eq!(p.faces, faces);
}
