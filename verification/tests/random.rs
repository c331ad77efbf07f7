use constraint_solver::collision::epa::{is_sound, Polytope as Expanding};
use constraint_solver::collision::support::minkowski_of;
use constraint_solver::collision::manifold::{depth_manifold, manifold};
use constraint_solver::collision::sat::{contact, edge_axes_separation, face_axes_separation};
use constraint_solver::frame::Quaternion;
use constraint_solver::geometry::Polytope;
use constraint_solver::limits::ONE;
use constraint_solver::rigid::Rigid;
use constraint_solver::solver::step_pair;
use constraint_solver::vector::Vec3;

struct Dice(u64);

impl Dice {
    fn next(&mut self) -> u64 {
        self.0 = self.0.wrapping_mul(6364136223846793005).wrapping_add(1442695040888963407);
        self.0 >> 33
    }

    fn between(&mut self, low: i128, high: i128) -> i128 {
        low + (self.next() as i128) % (high - low + 1)
    }

    fn body(&mut self, spread: i128) -> Rigid {
        let mut rigid = Rigid::new(1);
        rigid.frame.position = Vec3::new(
            self.between(-spread, spread),
            self.between(-spread, spread),
            self.between(-spread, spread),
        );
        loop {
            let q = Quaternion::new(
                self.between(-1000, 1000),
                self.between(-1000, 1000),
                self.between(-1000, 1000),
                self.between(-1000, 1000),
            );
            if q != Quaternion::new(0, 0, 0, 0) {
                rigid.frame.quaternion = q;
                break;
            }
        }
        rigid.past_frame = rigid.frame;
        rigid
    }
}

fn dot(a: Vec3, b: Vec3) -> i128 {
    a.x * b.x + a.y * b.y + a.z * b.z
}

#[test]
fn turned_cubes_keep_their_size() {
    let cube = Polytope::unit_cube();
    let mut dice = Dice(7);
    for _ in 0..200 {
        let body = dice.body(4 * ONE);
        let corners = body.world_vertices(&cube);
        for &(u, v) in &cube.edges {
            let d = corners[v].minus(&corners[u]);
            let length = (dot(d, d) as f64).sqrt();
            assert!((length - ONE as f64).abs() < 3.0, "edge of length {}", length);
        }
    }
}

#[test]
fn the_tests_for_contact_agree() {
    let cube = Polytope::unit_cube();
    let mut dice = Dice(11);
    let mut apart = 0;
    let mut touching = 0;
    for _ in 0..400 {
        let a = dice.body(ONE);
        let b = dice.body(ONE);
        let av = a.world_vertices(&cube);
        let bv = b.world_vertices(&cube);
        let by_axes = contact((&a, &b), &cube);
        let found = a.gjk(&b, &cube);
        let faces = [
            face_axes_separation((&a, &b), &cube).unwrap(),
            face_axes_separation((&b, &a), &cube).unwrap(),
            edge_axes_separation((&a, &b), &cube).unwrap(),
        ];
        if faces.iter().any(|q| q.separation > 0) {
            apart += 1;
            assert!(by_axes.is_none());
            assert!(found.is_none());
            assert!(a.epa(&b, &cube).is_none());
            assert!(depth_manifold((&a, &b), &cube).is_none());
        }
        if let Some(c) = by_axes {
            touching += 1;
            assert!(c.separation < 0 && c.overlap > 0 && c.overlap <= -c.separation);
            let m = manifold((&a, &b), &cube).unwrap();
            assert!(!m.points.is_empty() && m.points.len() <= 4);
            assert!(m.points.iter().all(|p| p.penetration >= 0));
        }
        if let Some(depth) = a.epa(&b, &cube) {
            assert!(found.is_some());
            let mut reach = i128::MIN;
            for p in &av {
                for q in &bv {
                    reach = reach.max(dot(*p, depth.normal) - dot(*q, depth.normal));
                }
            }
            assert_eq!(reach, depth.depth);
            // the depth is an overlap along some direction: no test by axes
            // can have found the bodies apart by more than rounding
            assert!(faces.iter().all(|q| q.separation <= 3 * ONE));
        }
    }
    assert!(apart > 20 && touching > 20, "apart {} touching {}", apart, touching);
}

#[test]
fn growing_polytopes_stay_sound() {
    let cube = Polytope::unit_cube();
    let mut dice = Dice(13);
    let mut grown = 0;
    for _ in 0..100 {
        let a = dice.body(ONE / 2);
        let b = dice.body(ONE / 2);
        let av = a.world_vertices(&cube);
        let bv = b.world_vertices(&cube);
        let Some(t) = a.gjk(&b, &cube) else { continue };
        let mut p = Expanding::new(t);
        for _ in 0..64 {
            let plane = p.face_plane(p.minimal_face());
            let support = minkowski_of(&av, &bv, &plane.normal);
            if p.vertices.contains(&support) || dot(plane.normal, support) <= plane.displacement {
                break;
            }
            if !p.expand(support) {
                break;
            }
            grown += 1;
            assert!(is_sound(&p.vertices, &p.faces));
            assert_eq!(p.faces.len(), 2 * p.vertices.len() - 4);
        }
    }
    assert!(grown > 50, "grown {}", grown);
}

#[test]
fn stepping_turned_pairs_keeps_them_in_range() {
    let cube = Polytope::unit_cube();
    let mut dice = Dice(17);
    for _ in 0..20 {
        let mut a = dice.body(ONE / 4);
        let mut b = dice.body(ONE / 4);
        a.frame.position.z += 4 * ONE;
        b.frame.position.z += 3 * ONE / 2;
        a.external_force = Vec3::new(0, 0, -642_908);
        b.external_force = Vec3::new(0, 0, -642_908);
        a.past_frame = a.frame;
        b.past_frame = b.frame;
        for _ in 0..60 {
            step_pair(&mut a, &mut b, &cube, 17_476, 25);
        }
        for body in [&a, &b] {
            let low = body.world_vertices(&cube).iter().map(|p| p.z).min().unwrap();
            assert!(low > -ONE / 8, "lowest corner at {}", low);
            assert!(body.frame.position.z < 8 * ONE);
            assert_ne!(body.frame.quaternion, Quaternion::new(0, 0, 0, 0));
        }
    }
}
