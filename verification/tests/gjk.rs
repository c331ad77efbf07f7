use constraint_solver::collision::gjk::{Simplex, Tetrahedron};
use constraint_solver::collision::gjk::{gjk_search, Verdict};
use constraint_solver::collision::support::{minkowski_of, support_of};
use constraint_solver::geometry::Polytope;
use constraint_solver::limits::ONE;
use constraint_solver::rigid::Rigid;
use constraint_solver::vector::Vec3;

fn cube_at(x: i128, y: i128, z: i128) -> Rigid {
    let mut rigid = Rigid::new(1);
    rigid.frame.position = Vec3::new(x, y, z);
    rigid.past_frame = rigid.frame;
    rigid
}

fn dot(a: Vec3, b: Vec3) -> i128 {
    a.x * b.x + a.y * b.y + a.z * b.z
}

fn origin_weights(t: &Tetrahedron) -> [i128; 4] {
    let det = |p: Vec3, q: Vec3, r: Vec3| {
        p.x * (q.y * r.z - q.z * r.y) - p.y * (q.x * r.z - q.z * r.x)
            + p.z * (q.x * r.y - q.y * r.x)
    };
    [det(t.b, t.c, t.d), -det(t.a, t.c, t.d), det(t.a, t.b, t.d), -det(t.a, t.b, t.c)]
}

#[test]
fn support_is_the_farthest_corner() {
    let cube = Polytope::unit_cube();
    let rigid = cube_at(3 * ONE, 0, 0);
    let p = rigid.support(&cube, Vec3::new(1, 2, 3));
    assert_eq!(p, Vec3::new(3 * ONE + ONE / 2, ONE / 2, ONE / 2));
    let q = rigid.support(&cube, Vec3::new(-1, -2, 3));
    assert_eq!(q, Vec3::new(3 * ONE - ONE / 2, -ONE / 2, ONE / 2));
}

#[test]
fn support_takes_the_last_of_equals() {
    let points = vec![Vec3::new(1, 0, 0), Vec3::new(1, 5, 0), Vec3::new(0, 9, 9), Vec3::new(1, -5, 2)];
    assert_eq!(support_of(&points, &Vec3::new(1, 0, 0)), Vec3::new(1, -5, 2));
    assert_eq!(support_of(&points, &Vec3::new(0, 0, 0)), Vec3::new(1, -5, 2));
    assert_eq!(support_of(&points, &Vec3::new(0, 1, 0)), Vec3::new(0, 9, 9));
}

#[test]
fn minkowski_support_is_a_difference_of_supports() {
    let cube = Polytope::unit_cube();
    let a = cube_at(0, 0, 0);
    let b = cube_at(2 * ONE, 0, 0);
    let d = Vec3::new(1, 1, 1);
    let p = a.minkowski_support(&b, &cube, d);
    assert_eq!(p, Vec3::new(-ONE, ONE, ONE));
    let av = a.world_vertices(&cube);
    let bv = b.world_vertices(&cube);
    assert_eq!(minkowski_of(&av, &bv, &d), p);
}

#[test]
fn gjk_finds_distant_cubes_apart() {
    let cube = Polytope::unit_cube();
    let a = cube_at(0, 0, 0);
    let b = cube_at(2 * ONE, 0, 0);
    assert!(a.gjk(&b, &cube).is_none());
    let av = a.world_vertices(&cube);
    let bv = b.world_vertices(&cube);
    match gjk_search(&av, &bv) {
        Verdict::Apart(dir) => {
            assert_ne!(dir, Vec3::new(0, 0, 0));
            for p in &av {
                for q in &bv {
                    assert!(dot(*p, dir) <= dot(*q, dir));
                }
            }
        }
        other => panic!("expected the cubes to be apart, got {:?}", other),
    }
}

#[test]
fn gjk_finds_overlapping_cubes() {
    let cube = Polytope::unit_cube();
    let a = cube_at(0, 0, 0);
    let b = cube_at(ONE / 2, 0, 0);
    let t = a.gjk(&b, &cube).expect("the cubes overlap");
    let w = origin_weights(&t);
    let sum: i128 = w.iter().sum();
    assert_ne!(sum, 0);
    assert!(w.iter().all(|x| *x >= 0) || w.iter().all(|x| *x <= 0));
    let corners = [t.a, t.b, t.c, t.d];
    for axis in 0..3 {
        let coordinate = |p: Vec3| [p.x, p.y, p.z][axis];
        let combined: i128 = (0..4).map(|k| w[k] * coordinate(corners[k])).sum();
        assert_eq!(combined, 0);
    }
    let av = a.world_vertices(&cube);
    let bv = b.world_vertices(&cube);
    for corner in corners {
        assert!(av.iter().any(|p| bv.iter().any(|q| Vec3::new(p.x - q.x, p.y - q.y, p.z - q.z) == corner)));
    }
}

#[test]
fn gjk_decides_many_offsets() {
    let cube = Polytope::unit_cube();
    let a = cube_at(0, 0, 0);
    let offsets = [-3 * ONE / 2, -ONE - 1, -ONE + 1, -ONE / 3, 0, 7, ONE / 2, ONE - 1, ONE + 1, 2 * ONE];
    for &x in &offsets {
        for &y in &offsets {
            for &z in &offsets {
                let b = cube_at(x, y, z);
                let apart = x.abs() > ONE || y.abs() > ONE || z.abs() > ONE;
                let inside = x.abs() < ONE && y.abs() < ONE && z.abs() < ONE;
                let found = a.gjk(&b, &cube).is_some();
                if apart {
                    assert!(!found, "offset {} {} {}", x, y, z);
                }
                if inside {
                    assert!(found, "offset {} {} {}", x, y, z);
                }
            }
        }
    }
}

#[test]
fn enclose_a_point_into_a_point() {
    let s = Simplex::Point(Vec3::new(4, 0, 0));
    match s.enclose(Vec3::new(-4, 1, 0)) {
        Err((Simplex::Line(a, b), dir)) => {
            assert_eq!(a, Vec3::new(-4, 1, 0));
            assert_eq!(b, Vec3::new(4, 0, 0));
            // (ab x ao) x ab with ab = (8, -1, 0), ao = (4, -1, 0)
            assert_eq!(dir, Vec3::new(-4, -32, 0));
        }
        other => panic!("unexpected {:?}", other),
    }
    match Simplex::Point(Vec3::new(9, 0, 0)).enclose(Vec3::new(5, 0, 0)) {
        Err((Simplex::Point(a), dir)) => {
            assert_eq!(a, Vec3::new(5, 0, 0));
            assert_eq!(dir, Vec3::new(-5, 0, 0));
        }
        other => panic!("unexpected {:?}", other),
    }
}

#[test]
fn enclose_with_the_origin_on_the_line() {
    let s = Simplex::Point(Vec3::new(4, 0, 0));
    match s.enclose(Vec3::new(-4, 0, 0)) {
        Err((Simplex::Line(_, _), dir)) => {
            assert_eq!(dir, Vec3::new(0, 8, 0));
        }
        other => panic!("unexpected {:?}", other),
    }
}

#[test]
fn enclose_a_point_into_a_triangle() {
    let s = Simplex::Triangle(Vec3::new(4, -2, -2), Vec3::new(-4, -2, -2), Vec3::new(0, 4, -2));
    let t = s.enclose(Vec3::new(0, 0, 5)).expect("the tetrahedron holds the origin");
    assert_eq!(t.a, Vec3::new(0, 0, 5));
    assert_eq!(t.b, Vec3::new(4, -2, -2));
    assert_eq!(t.c, Vec3::new(-4, -2, -2));
    assert_eq!(t.d, Vec3::new(0, 4, -2));
    match s.enclose(Vec3::new(40, 0, 5)) {
        Err((next, dir)) => {
            assert_ne!(dir, Vec3::new(0, 0, 0));
            match next {
                Simplex::Point(a) | Simplex::Line(a, _) | Simplex::Triangle(a, _, _) => {
                    assert_eq!(a, Vec3::new(40, 0, 5))
                }
            }
        }
        Ok(t) => panic!("unexpected {:?}", t),
    }
}
