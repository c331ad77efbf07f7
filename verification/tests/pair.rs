use constraint_solver::collision::contacts;
use constraint_solver::geometry::Polytope;
use constraint_solver::limits::ONE;
use constraint_solver::rigid::Rigid;
use constraint_solver::solver::{step, step_pair};
use constraint_solver::vector::Vec3;

const FRAME: i128 = 17_476;

fn cube_at(x: i128, y: i128, z: i128) -> Rigid {
    let mut rigid = Rigid::new(1);
    rigid.frame.position = Vec3::new(x, y, z);
    rigid.past_frame = rigid.frame;
    rigid
}

#[test]
fn bodies_apart_have_no_contact_constraints() {
    let cube = Polytope::unit_cube();
    let a = cube_at(0, 0, ONE / 2);
    let b = cube_at(0, 0, 2 * ONE);
    assert!(contacts((0, 1), (&a, &b), &cube).is_empty());
}

#[test]
fn stacked_bodies_are_pushed_apart_along_the_axis() {
    let cube = Polytope::unit_cube();
    let a = cube_at(0, 0, ONE / 2);
    let b = cube_at(0, 0, ONE / 2 + ONE - 100);
    let constraints = contacts((0, 1), (&a, &b), &cube);
    assert_eq!(constraints.len(), 4);
    for c in &constraints {
        // the face of the first body is the reference: the second moves
        assert_eq!(c.rigid, 1);
        assert_eq!(c.other, Some(0));
        assert_eq!(c.distance, 0);
        assert_eq!(c.contacts.0.z, ONE - 100);
        // the four points share the depth of 100
        assert_eq!(c.contacts.1, Vec3::new(c.contacts.0.x, c.contacts.0.y, ONE - 75));
    }
    let reversed = contacts((7, 9), (&b, &a), &cube);
    assert_eq!(reversed.len(), 4);
    for c in &reversed {
        // now the first body is the upper one: its lower face is the reference
        assert_eq!(c.rigid, 9);
        assert_eq!(c.other, Some(7));
        assert_eq!(c.contacts.0.z, ONE);
        assert_eq!(c.contacts.1.z, ONE - 25);
    }
}

#[test]
fn a_pair_apart_steps_as_each_alone() {
    let cube = Polytope::unit_cube();
    let mut a = cube_at(0, 0, 3 * ONE);
    a.external_force = Vec3::new(0, 0, -642_908);
    let mut b = cube_at(5 * ONE, 0, ONE / 2 - 50);
    b.velocity = Vec3::new(1000, 0, 0);
    let (mut a_alone, mut b_alone) = (a, b);
    step_pair(&mut a, &mut b, &cube, FRAME, 25);
    step(&mut a_alone, &cube, FRAME, 25);
    step(&mut b_alone, &cube, FRAME, 25);
    assert_eq!((a.frame, a.velocity, a.angular_velocity), (a_alone.frame, a_alone.velocity, a_alone.angular_velocity));
    assert_eq!((b.frame, b.velocity, b.angular_velocity), (b_alone.frame, b_alone.velocity, b_alone.angular_velocity));
}

#[test]
fn overlapping_bodies_of_equal_mass_part_evenly() {
    let cube = Polytope::unit_cube();
    let mut a = cube_at(0, 0, 5 * ONE);
    let mut b = cube_at(0, 0, 6 * ONE - 100);
    step_pair(&mut a, &mut b, &cube, 1 << 20, 1);
    // four points ask for 25 each; at a corner of a face a body gives way
    // by an eighth of what is asked, the rest going into turns that cancel
    assert_eq!(a.frame.position, Vec3::new(0, 0, 5 * ONE - 12));
    assert_eq!(b.frame.position, Vec3::new(0, 0, 6 * ONE - 100 + 12));
    assert_eq!(a.velocity, Vec3::new(0, 0, -12));
    assert_eq!(b.velocity, Vec3::new(0, 0, 12));
}

#[test]
fn the_heavier_body_gives_way_less() {
    let cube = Polytope::unit_cube();
    let mut a = cube_at(0, 0, 5 * ONE);
    a.mass = 3;
    let mut b = cube_at(0, 0, 6 * ONE - 100);
    step_pair(&mut a, &mut b, &cube, 1 << 20, 1);
    let parted = (b.frame.position.z - a.frame.position.z) - (ONE - 100);
    assert!((20..=30).contains(&parted), "parted by {}", parted);
    let a_moved = 5 * ONE - a.frame.position.z;
    let b_moved = b.frame.position.z - (6 * ONE - 100);
    assert!(a_moved > 0 && b_moved > 2 * a_moved, "moved {} and {}", a_moved, b_moved);
}

#[test]
fn a_cube_dropped_on_a_cube_comes_to_rest_on_it() {
    let cube = Polytope::unit_cube();
    let mut a = cube_at(0, 0, ONE / 2);
    a.external_force = Vec3::new(0, 0, -642_908);
    let mut b = cube_at(ONE / 8, 0, 2 * ONE);
    b.external_force = Vec3::new(0, 0, -642_908);
    for _ in 0..300 {
        step_pair(&mut a, &mut b, &cube, FRAME, 25);
    }
    assert!((a.frame.position.z - ONE / 2).abs() <= ONE / 32, "lower at {}", a.frame.position.z);
    assert!(
        (b.frame.position.z - 3 * ONE / 2).abs() <= ONE / 16,
        "upper at {}",
        b.frame.position.z
    );
    assert!(b.velocity.z.abs() <= ONE / 2);
}

#[test]
fn a_pair_at_rest_stays() {
    let cube = Polytope::unit_cube();
    let mut a = cube_at(0, 0, ONE / 2);
    let mut b = cube_at(0, 0, ONE / 2 + ONE);
    let (a0, b0) = (a, b);
    for _ in 0..5 {
        step_pair(&mut a, &mut b, &cube, FRAME, 25);
    }
    assert_eq!((a.frame, a.velocity, a.angular_velocity), (a0.frame, a0.velocity, a0.angular_velocity));
    assert_eq!((b.frame, b.velocity, b.angular_velocity), (b0.frame, b0.velocity, b0.angular_velocity));
}
