use constraint_solver::collision::ground;
use constraint_solver::debug::{DebugLines, Primitive};
use constraint_solver::frame::{Frame, Quaternion};
use constraint_solver::geometry::Polytope;
use constraint_solver::limits::ONE;
use constraint_solver::rigid::Rigid;
use constraint_solver::solver::step;
use constraint_solver::vector::Vec3;
use constraint_solver::world::World;

const FRAME: i128 = 17_476;

fn cube_at(x: i128, y: i128, z: i128) -> Rigid {
    let mut rigid = Rigid::new(1);
    rigid.frame.position = Vec3::new(x, y, z);
    rigid.past_frame = rigid.frame;
    rigid
}

fn lowest(rigid: &Rigid, cube: &Polytope) -> i128 {
    rigid.world_vertices(cube).iter().map(|p| p.z).min().unwrap()
}

#[test]
fn a_cube_on_the_ground_has_no_ground_contact() {
    let cube = Polytope::unit_cube();
    assert!(ground(0, &cube_at(0, 0, ONE / 2), &cube).is_empty());
    assert!(ground(0, &cube_at(7, -9, 3 * ONE), &cube).is_empty());
}

#[test]
fn one_corner_below_the_ground_gives_one_contact() {
    let cube = Polytope::unit_cube();
    let mut r = cube_at(0, 0, 40_000);
    r.frame.quaternion = Quaternion::new(916_495_974, 379_625_062, 379_625_062, 157_245_850);
    r.past_frame = r.frame;
    let below: Vec<Vec3> =
        r.world_vertices(&cube).into_iter().filter(|p| p.z < 0).collect();
    assert_eq!(below.len(), 1);
    let constraints = ground(3, &r, &cube);
    assert_eq!(constraints.len(), 1);
    let c = constraints[0];
    assert_eq!(c.rigid, 3);
    assert_eq!(c.distance, 0);
    assert_eq!(c.contacts.0, below[0]);
    assert_eq!(c.contacts.1.z, 0);
    assert!((c.contacts.1.x - below[0].x).abs() <= 2);
    assert!((c.contacts.1.y - below[0].y).abs() <= 2);
}

#[test]
fn four_corners_below_the_ground_give_four_contacts() {
    let cube = Polytope::unit_cube();
    let r = cube_at(100, 200, ONE / 2 - 10);
    let constraints = ground(0, &r, &cube);
    assert_eq!(constraints.len(), 4);
    let expected = [(-1, -1), (-1, 1), (1, -1), (1, 1)];
    for (c, (sx, sy)) in constraints.iter().zip(expected) {
        let corner = Vec3::new(100 + sx * ONE / 2, 200 + sy * ONE / 2, -10);
        assert_eq!(c.contacts.0, corner);
        assert_eq!(c.contacts.1, Vec3::new(corner.x, corner.y, 0));
        assert_eq!(c.distance, 0);
    }
}

#[test]
fn ground_contact_takes_back_the_slide() {
    let cube = Polytope::unit_cube();
    let mut r = cube_at(500, 0, ONE / 2 - 10);
    r.past_frame = Frame { position: Vec3::new(400, 30, ONE / 2), quaternion: Quaternion::identity() };
    let constraints = ground(0, &r, &cube);
    assert_eq!(constraints.len(), 4);
    for c in &constraints {
        assert_eq!(c.contacts.1, Vec3::new(c.contacts.0.x - 100, c.contacts.0.y + 30, 0));
    }
}

#[test]
fn a_body_at_rest_on_the_ground_stays() {
    let cube = Polytope::unit_cube();
    let mut r = cube_at(1000, -2000, ONE / 2);
    assert_eq!(lowest(&r, &cube), 0);
    let before = r;
    for _ in 0..10 {
        step(&mut r, &cube, FRAME, 25);
    }
    assert_eq!(r.frame, before.frame);
    assert_eq!(r.velocity, Vec3::new(0, 0, 0));
    assert_eq!(r.angular_velocity, Vec3::new(0, 0, 0));
    assert_eq!(r.past_frame, before.frame);
}

#[test]
fn a_turned_body_at_rest_above_the_ground_stays() {
    let cube = Polytope::unit_cube();
    let mut r = cube_at(0, 0, 2 * ONE);
    r.frame.quaternion = Quaternion::new(916_495_974, 379_625_062, 379_625_062, 157_245_850);
    let before = r.frame;
    step(&mut r, &cube, FRAME, 25);
    assert_eq!(r.frame, before);
}

#[test]
fn a_step_without_time_changes_nothing() {
    let cube = Polytope::unit_cube();
    let mut r = cube_at(0, 0, 2 * ONE);
    r.external_force = Vec3::new(0, 0, -642_908);
    r.past_frame.position = Vec3::new(1, 2, 3);
    let before = r;
    step(&mut r, &cube, FRAME, 0);
    assert_eq!((r.frame, r.past_frame, r.velocity), (before.frame, before.past_frame, before.velocity));
    step(&mut r, &cube, 24, 25);
    assert_eq!((r.frame, r.past_frame, r.velocity), (before.frame, before.past_frame, before.velocity));
    step(&mut r, &cube, 0, 25);
    assert_eq!((r.frame, r.past_frame, r.velocity), (before.frame, before.past_frame, before.velocity));
}

#[test]
fn free_fall_for_one_substep() {
    let cube = Polytope::unit_cube();
    let mut r = cube_at(0, 0, 10 * ONE);
    r.external_force = Vec3::new(0, 0, -642_908);
    step(&mut r, &cube, 1000, 1);
    // the velocity gains 642908 * 1000 / 2^20, the position velocity * 1000 / 2^20
    assert_eq!(r.velocity, Vec3::new(0, 0, -613));
    assert_eq!(r.frame.position, Vec3::new(0, 0, 10 * ONE - 1));
    assert_eq!(r.past_frame.position, Vec3::new(0, 0, 10 * ONE));
    assert_eq!(r.frame.quaternion, Quaternion::identity());
}

#[test]
fn free_fall_for_one_frame() {
    let cube = Polytope::unit_cube();
    let mut r = cube_at(0, 0, 10 * ONE);
    r.external_force = Vec3::new(0, 0, -642_908);
    step(&mut r, &cube, FRAME, 25);
    // 25 substeps of 699 ticks: 429 a substep
    assert_eq!(r.velocity, Vec3::new(0, 0, -25 * 429));
    let fallen = 10 * ONE - r.frame.position.z;
    // half of 9.81 / 3600 units, as the scheme overshoots it
    assert!((89..=96).contains(&fallen), "fallen {}", fallen);
}

#[test]
fn a_spin_turns_the_body() {
    let cube = Polytope::unit_cube();
    let mut r = cube_at(0, 0, 10 * ONE);
    r.angular_velocity = Vec3::new(0, 0, ONE);
    step(&mut r, &cube, 1 << 18, 1);
    assert_eq!(r.frame.quaternion, Quaternion::new(1_065_450_257, 0, 0, 133_181_282));
    assert_eq!(r.angular_velocity, Vec3::new(0, 0, ONE));
    assert_eq!(r.frame.position, Vec3::new(0, 0, 10 * ONE));
}

#[test]
fn a_corner_in_the_ground_is_lifted_and_the_body_turned() {
    let cube = Polytope::unit_cube();
    // force and velocity are nothing: the substep only puts the body right
    let mut r = cube_at(0, 0, ONE / 2 - 100);
    r.frame.quaternion = Quaternion::new(1 << 30, 0, 0, 0);
    r.past_frame = r.frame;
    step(&mut r, &cube, 1 << 20, 1);
    // each of the four corners in the ground asks for 100 and gets 25
    assert_eq!(r.frame.position, Vec3::new(0, 0, ONE / 2));
    // what was gained in one unit of time
    assert_eq!(r.velocity, Vec3::new(0, 0, 100));
}

#[test]
fn a_dropped_cube_comes_to_rest_on_the_ground() {
    let cube = Polytope::unit_cube();
    let mut r = cube_at(0, 0, ONE);
    r.external_force = Vec3::new(0, 0, -642_908);
    for _ in 0..240 {
        step(&mut r, &cube, FRAME, 25);
        assert!(lowest(&r, &cube) > -ONE / 64);
    }
    let low = lowest(&r, &cube);
    assert!((-16..=64).contains(&low), "lowest corner at {}", low);
    assert!((r.frame.position.z - ONE / 2).abs() <= 64);
    assert!(r.velocity.z.abs() <= ONE / 8);
    assert!(r.frame.position.x.abs() <= 64 && r.frame.position.y.abs() <= 64);
}

#[test]
fn the_world_begins_as_described() {
    let w = World::new();
    let rigids = w.rigids();
    assert_eq!(rigids.len(), 2);
    assert_eq!(rigids[0].frame.position, Vec3::new(0, -72_090, 2 * ONE));
    assert_eq!(
        rigids[0].frame.quaternion,
        Quaternion::new(916_495_974, 379_625_062, 379_625_062, 157_245_850)
    );
    assert_eq!(rigids[0].external_force, Vec3::new(0, 0, -642_908));
    assert_eq!(rigids[0].mass, 1);
    assert_eq!(rigids[1].frame.position, Vec3::new(0, 0, ONE));
    assert_eq!(rigids[1].frame.quaternion, Quaternion::identity());
    assert_eq!(rigids[1].velocity, Vec3::new(0, 0, 0));
    assert!(rigids[0].color.is_none() && rigids[1].color.is_none());
}

#[test]
fn the_world_steps_its_first_body() {
    let cube = Polytope::unit_cube();
    let mut w = World::new();
    let mut expected = *w.rigids()[0];
    let second = *w.rigids()[1];
    let mut debug = DebugLines::new();
    w.integrate(FRAME, &mut debug);
    step(&mut expected, &cube, FRAME, 25);
    let rigids = w.rigids();
    assert_eq!(rigids[0].frame, expected.frame);
    assert_eq!(rigids[0].velocity, expected.velocity);
    assert_eq!(rigids[1].frame, second.frame);
    assert!(rigids[0].color.is_none() && rigids[1].color.is_none());
    assert_eq!(debug.primitives.len(), 1);
    let (primitive, color) = debug.primitives[0];
    assert_eq!(color, [0, 255, 255]);
    match primitive {
        Primitive::Plane(p) => {
            assert_eq!(p.normal, Vec3::new(ONE * ONE, ONE * ONE, ONE * ONE));
            assert_eq!(p.displacement, ONE * ONE * ONE);
        }
        other => panic!("unexpected {:?}", other),
    }
}

#[test]
fn the_world_comes_to_rest() {
    let cube = Polytope::unit_cube();
    let mut w = World::new();
    let mut debug = DebugLines::new();
    for _ in 0..300 {
        w.integrate(FRAME, &mut debug);
    }
    let rigids = w.rigids();
    let low = lowest(rigids[0], &cube);
    assert!((-32..=64).contains(&low), "lowest corner at {}", low);
    assert!(rigids[0].velocity.z.abs() <= ONE / 4);
    assert!(rigids[1].frame.position.z >= ONE / 2 - 32);
    assert!(debug.primitives.len() >= 300);
}
