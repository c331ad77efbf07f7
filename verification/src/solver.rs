//! The stepper: a frame of time is cut into substeps, and in each a body is
//! moved as its velocities say and then put right where it has gone through
//! the ground; two bodies that are stepped together are also put right
//! where they have gone into each other.
//!
//! Time is counted in ticks, `TIME_ONE` to the unit of time. Velocities are
//! in lattice units per unit of time, angular velocities in radians times
//! `ONE` per unit of time. Whatever leaves its range is held at the end of
//! the range.

use vstd::prelude::*;
use crate::collision::{contacts, contacts_spec, ground, ground_spec, lemma_no_ground_contact};
use crate::constraint::{constraint_views, Constraint, ConstraintView, CONTACT_MAX};
use crate::frame::{Frame, Quaternion, Rotation};
use crate::geometry::{Polytope, Shape, VERTICES_MAX};
use crate::limits::{ANGLE_MAX, ONE, POSITION_MAX};
use crate::numeric::{
    clamp_vector, clamped_vector, floor_sqrt, integer_sqrt, lemma_quotient_within,
    lemma_round_div_zero, lemma_scaled_fits, lemma_share_within, scaled_by_quotient,
    scaled_quotient,
};
use crate::rigid::{Rigid, MASS_MAX, RATE_MAX};
use crate::vector::{
    lemma_product_bound, lemma_square_nonnegative, lemma_vector_products, Vec3, Vector,
};

verus! {

/// The number of ticks in the unit of time.
pub const TIME_ONE: i128 = 0x10_0000;

/// Bound on the coordinates of the pull of one constraint: a constraint
/// that asks for more is followed this far.
pub const CORRECTION_MAX: i128 = 0x1_0000;

/// The handle of the body that the stepper moves.
pub const STEPPED: usize = 0;

/// The machine vector with the given coordinates, which fit.
pub open spec fn to_vec3(v: Vector) -> Vec3 {
    Vec3 { x: v.x as i128, y: v.y as i128, z: v.z as i128 }
}

/// The machine quaternion with the given components, which fit.
pub open spec fn to_quaternion(q: Rotation) -> Quaternion {
    Quaternion { w: q.w as i128, x: q.x as i128, y: q.y as i128, z: q.z as i128 }
}

/// The velocity after the force has acted for `h` ticks.
pub open spec fn accelerated(rigid: Rigid, h: int) -> Vector {
    clamp_vector(
        rigid.velocity@.plus(
            scaled_quotient(rigid.external_force@, h, rigid.mass * TIME_ONE),
        ),
        RATE_MAX as int,
    )
}

/// The position after moving at the velocity for `h` ticks.
pub open spec fn advanced(position: Vector, velocity: Vector, h: int) -> Vector {
    clamp_vector(position.plus(scaled_quotient(velocity, h, TIME_ONE as int)), POSITION_MAX as int)
}

/// The turn made at the angular velocity in `h` ticks.
pub open spec fn turn_over(angular_velocity: Vector, h: int) -> Vector {
    clamp_vector(scaled_quotient(angular_velocity, h, TIME_ONE as int), ANGLE_MAX as int)
}

/// The body after the force has changed its velocity and the velocities
/// have changed its pose, for `h` ticks; the pose before is kept as the
/// pose of the past.
pub open spec fn predicted(rigid: Rigid, h: int) -> Rigid {
    let velocity = accelerated(rigid, h);
    Rigid {
        frame: Frame {
            position: to_vec3(advanced(rigid.frame.position@, velocity, h)),
            quaternion: to_quaternion(
                rigid.frame.quaternion@.turned_by(turn_over(rigid.angular_velocity@, h)),
            ),
        },
        past_frame: rigid.frame,
        velocity: to_vec3(velocity),
        ..rigid
    }
}

/// What a constraint asks of its point: the way to the target, shortened by
/// the distance of the constraint, and held within `CORRECTION_MAX`.
pub open spec fn pull(c: ConstraintView) -> Vector {
    let way = c.target.minus(c.current);
    let len = floor_sqrt(way.dot(way));
    let slack = if c.distance < 0 {
        0
    } else {
        c.distance
    };
    if len <= slack {
        Vector::zero()
    } else {
        clamp_vector(scaled_quotient(way, len - slack, len), CORRECTION_MAX as int)
    }
}

/// How a body gives way to a pull at one of its points: by a shift and by a
/// turn.
pub struct Correction {
    pub shift: Vector,
    pub turn: Vector,
}

/// The correction of a body at `position` for a constraint.
///
/// The body is a cube with the side `ONE` and even density, so that its
/// moment of inertia is a sixth of its mass times `ONE` squared, and the
/// ground does not give way: the pull is shared out between shift and turn
/// as the inverse mass and the inverse inertia at the point say, and the
/// mass cancels.
pub open spec fn correction(position: Vector, c: ConstraintView) -> Correction {
    let p = pull(c);
    let arm = c.current.minus(position);
    let twist = arm.cross(p);
    let pp = p.dot(p);
    let linear = (ONE * ONE) * pp;
    let angular = 6 * twist.dot(twist);
    if p == Vector::zero() {
        Correction { shift: Vector::zero(), turn: Vector::zero() }
    } else {
        Correction {
            shift: scaled_quotient(p, linear, linear + angular),
            turn: clamp_vector(
                scaled_quotient(twist, (6 * ONE) * pp, linear + angular),
                ANGLE_MAX as int,
            ),
        }
    }
}

/// The pose after a shift and a turn.
pub open spec fn given_way(frame: Frame, k: Correction) -> Frame {
    Frame {
        position: to_vec3(clamp_vector(frame.position@.plus(k.shift), POSITION_MAX as int)),
        quaternion: to_quaternion(frame.quaternion@.turned_by(k.turn)),
    }
}

/// The pose after it has given way to a constraint.
pub open spec fn corrected(frame: Frame, c: ConstraintView) -> Frame {
    given_way(frame, correction(frame.position@, c))
}

/// The pose after it has given way to the first `k` constraints, one after
/// the other.
pub open spec fn corrected_by(frame: Frame, constraints: Seq<ConstraintView>, k: int) -> Frame
    decreases k,
{
    if k <= 0 {
        frame
    } else {
        corrected(corrected_by(frame, constraints, k - 1), constraints[k - 1])
    }
}

/// The sum of the turns by which the pose has given way to the first `k`
/// constraints.
pub open spec fn turned_in_all(frame: Frame, constraints: Seq<ConstraintView>, k: int) -> Vector
    decreases k,
{
    if k <= 0 {
        Vector::zero()
    } else {
        turned_in_all(frame, constraints, k - 1).plus(
            correction(
                corrected_by(frame, constraints, k - 1).position@,
                constraints[k - 1],
            ).turn,
        )
    }
}

/// The body with the pose it has come to, and with what it has given way
/// by, over `h`, added to its velocities.
pub open spec fn settled(moved: Rigid, frame: Frame, turn: Vector, h: int) -> Rigid {
    Rigid {
        frame,
        velocity: to_vec3(
            clamp_vector(
                moved.velocity@.plus(
                    scaled_quotient(
                        frame.position@.minus(moved.frame.position@),
                        TIME_ONE as int,
                        h,
                    ),
                ),
                RATE_MAX as int,
            ),
        ),
        angular_velocity: to_vec3(
            clamp_vector(
                moved.angular_velocity@.plus(scaled_quotient(turn, TIME_ONE as int, h)),
                RATE_MAX as int,
            ),
        ),
        ..moved
    }
}

/// One substep of `h` ticks: the body is moved as `predicted` says, gives
/// way to its ground constraints one after the other, and what it has given
/// way by, over `h`, is added to its velocities.
pub open spec fn substep_spec(rigid: Rigid, shape: Shape, h: int) -> Rigid {
    let moved = predicted(rigid, h);
    let constraints = ground_spec(&moved, STEPPED, shape.vertices, shape.vertices.len() as int);
    settled(
        moved,
        corrected_by(moved.frame, constraints, constraints.len() as int),
        turned_in_all(moved.frame, constraints, constraints.len() as int),
        h,
    )
}

/// `n` substeps of `h` ticks each.
pub open spec fn substeps_spec(rigid: Rigid, shape: Shape, h: int, n: nat) -> Rigid
    decreases n,
{
    if n == 0 {
        rigid
    } else {
        substeps_spec(substep_spec(rigid, shape, h), shape, h, (n - 1) as nat)
    }
}

/// A step of `dt` ticks in `substeps` substeps of equal length, what is
/// left of the division being dropped. Nothing happens where there is no
/// substep or a substep has no tick.
pub open spec fn step_spec(rigid: Rigid, shape: Shape, dt: int, substeps: nat) -> Rigid {
    if substeps == 0 || dt / (substeps as int) <= 0 {
        rigid
    } else {
        substeps_spec(rigid, shape, dt / (substeps as int), substeps)
    }
}

/// Moves the body as its velocities say, for `h` ticks.
fn predict(rigid: &mut Rigid, h: i128)
    requires
        old(rigid).wf(),
        0 < h <= TIME_ONE,
    ensures
        *final(rigid) == predicted(*old(rigid), h as int),
        final(rigid).wf(),
{
    proof {
        lemma_scaled_fits(rigid.external_force@, h as int, RATE_MAX as int, TIME_ONE as int);
        lemma_scaled_fits(rigid.angular_velocity@, h as int, RATE_MAX as int, TIME_ONE as int);
        lemma_product_bound(rigid.mass as int, TIME_ONE as int, MASS_MAX as int, TIME_ONE as int);
        assert(rigid.mass * TIME_ONE > 0) by (nonlinear_arith)
            requires
                rigid.mass > 0,
        ;
        lemma_quotient_within(
            rigid.external_force@,
            h as int,
            rigid.mass * TIME_ONE,
            RATE_MAX * TIME_ONE,
        );
        lemma_quotient_within(
            rigid.angular_velocity@,
            h as int,
            TIME_ONE as int,
            RATE_MAX * TIME_ONE,
        );
    }
    let gain = scaled_by_quotient(&rigid.external_force, h, rigid.mass * TIME_ONE);
    let velocity = clamped_vector(&rigid.velocity.plus(&gain), RATE_MAX);
    proof {
        lemma_scaled_fits(velocity@, h as int, RATE_MAX as int, TIME_ONE as int);
        lemma_quotient_within(velocity@, h as int, TIME_ONE as int, RATE_MAX * TIME_ONE);
    }
    let way = scaled_by_quotient(&velocity, h, TIME_ONE);
    let position = clamped_vector(&rigid.frame.position.plus(&way), POSITION_MAX);
    let turn = clamped_vector(&scaled_by_quotient(&rigid.angular_velocity, h, TIME_ONE), ANGLE_MAX);
    let quaternion = rigid.frame.quaternion.turned_by(&turn);
    rigid.past_frame = rigid.frame;
    rigid.velocity = velocity;
    rigid.frame = Frame { position, quaternion };
}

/// What a constraint asks of its point.
fn pull_of(c: &Constraint) -> (r: Vec3)
    requires
        c.wf(),
    ensures
        r@ == pull(c@),
        r@.within(CORRECTION_MAX as int),
{
    let way = c.contacts.1.minus(&c.contacts.0);
    proof {
        lemma_vector_products(way@, way@, 2 * CONTACT_MAX, 2 * CONTACT_MAX);
        lemma_square_nonnegative(way@);
    }
    let len = integer_sqrt(way.dot(&way));
    let slack = if c.distance < 0 {
        0
    } else {
        c.distance
    };
    if len <= slack {
        return Vec3::zero();
    }
    proof {
        lemma_scaled_fits(way@, len - slack, 2 * CONTACT_MAX, 0x1000_0000_0000_0000);
    }
    clamped_vector(&scaled_by_quotient(&way, len - slack, len), CORRECTION_MAX)
}

/// The shift and the turn by which a body at `position` gives way to a
/// constraint.
fn correction_of(position: &Vec3, c: &Constraint) -> (r: (Vec3, Vec3))
    requires
        position@.within(POSITION_MAX as int),
        c.wf(),
    ensures
        r.0@ == correction(position@, c@).shift,
        r.1@ == correction(position@, c@).turn,
        r.0@.within(CORRECTION_MAX as int),
        r.1@.within(ANGLE_MAX as int),
{
    let p = pull_of(c);
    if p.is_zero() {
        return (Vec3::zero(), Vec3::zero());
    }
    let arm = c.contacts.0.minus(position);
    proof {
        lemma_vector_products(arm@, p@, 2 * CONTACT_MAX, CORRECTION_MAX as int);
        lemma_vector_products(p@, p@, CORRECTION_MAX as int, CORRECTION_MAX as int);
        lemma_vector_products(
            arm@.cross(p@),
            arm@.cross(p@),
            0x8_0000_0000_0000,
            0x8_0000_0000_0000,
        );
        crate::geometry::lemma_square_positive(p@);
    }
    let twist = arm.cross(&p);
    let pp = p.dot(&p);
    proof {
        lemma_square_nonnegative(twist@);
        assert(ONE * ONE == 0x1_0000_0000 && 6 * ONE == 0x6_0000) by (nonlinear_arith)
            requires
                ONE == 0x1_0000,
        ;
        lemma_product_bound(0x1_0000_0000, pp as int, 0x1_0000_0000, 0x300_0000_0000);
        lemma_product_bound(0x6_0000, pp as int, 0x6_0000, 0x300_0000_0000);
        assert(0x1_0000_0000 * pp > 0) by (nonlinear_arith)
            requires
                pp >= 1,
        ;
    }
    let linear = 0x1_0000_0000 * pp;
    let leverage = 0x6_0000 * pp;
    let angular = 6 * twist.dot(&twist);
    proof {
        lemma_scaled_fits(p@, linear as int, CORRECTION_MAX as int, 0x300_0000_0000_0000_0000);
        lemma_scaled_fits(
            twist@,
            leverage as int,
            0x8_0000_0000_0000,
            0x12_0000_0000_0000_0000,
        );
        lemma_share_within(p@, linear as int, angular as int, CORRECTION_MAX as int);
    }
    let shift = scaled_by_quotient(&p, linear, linear + angular);
    let turn = clamped_vector(&scaled_by_quotient(&twist, leverage, linear + angular), ANGLE_MAX);
    (shift, turn)
}

/// Lets a pose give way by a shift and a turn.
fn give_way(frame: &mut Frame, shift: &Vec3, turn: &Vec3)
    requires
        old(frame).wf(),
        shift@.within(CORRECTION_MAX as int),
        turn@.within(ANGLE_MAX as int),
    ensures
        *final(frame) == given_way(*old(frame), Correction { shift: shift@, turn: turn@ }),
        final(frame).wf(),
{
    let position = clamped_vector(&frame.position.plus(shift), POSITION_MAX);
    let quaternion = frame.quaternion.turned_by(turn);
    frame.position = position;
    frame.quaternion = quaternion;
}

/// Lets the pose give way to a constraint; returns the turn by which it has
/// given way.
fn correct(frame: &mut Frame, c: &Constraint) -> (turn: Vec3)
    requires
        old(frame).wf(),
        c.wf(),
    ensures
        *final(frame) == corrected(*old(frame), c@),
        turn@ == correction(old(frame).position@, c@).turn,
        turn@.within(ANGLE_MAX as int),
        final(frame).wf(),
{
    let (shift, turn) = correction_of(&frame.position, c);
    give_way(frame, &shift, &turn);
    turn
}

/// One substep of `h` ticks.
fn substep(rigid: &mut Rigid, polytope: &Polytope, h: i128)
    requires
        old(rigid).wf(),
        polytope.wf(),
        0 < h <= TIME_ONE,
    ensures
        *final(rigid) == substep_spec(*old(rigid), polytope@, h as int),
        final(rigid).wf(),
{
    predict(rigid, h);
    let ghost moved = *rigid;
    let constraints = ground(STEPPED, rigid, polytope);
    let ghost asked = constraint_views(constraints@);
    let mut frame = rigid.frame;
    let mut turn = Vec3::zero();
    let mut i: usize = 0;
    while i < constraints.len()
        invariant
            0 <= i <= constraints@.len(),
            constraints@.len() <= VERTICES_MAX,
            asked == constraint_views(constraints@),
            forall|k: int| 0 <= k < constraints@.len() ==> (#[trigger] constraints@[k]).wf(),
            frame.wf(),
            frame == corrected_by(moved.frame, asked, i as int),
            turn@ == turned_in_all(moved.frame, asked, i as int),
            turn@.within(i * ANGLE_MAX),
        decreases constraints@.len() - i,
    {
        let c = constraints[i];
        let more = correct(&mut frame, &c);
        turn = turn.plus(&more);
        i += 1;
    }
    proof {
        assert(i * ANGLE_MAX <= 0x1_0000 * ANGLE_MAX) by (nonlinear_arith)
            requires
                0 <= i <= VERTICES_MAX,
                VERTICES_MAX < 0x1_0000,
                ANGLE_MAX > 0,
        ;
    }
    settle(rigid, frame, &turn, h);
}

/// Advances a body by `dt` ticks in `substeps` substeps of equal length.
///
/// In each substep the force on the body changes its velocity, the
/// velocities change its pose, the body gives way to the constraints that
/// keep its corners out of the ground, one after the other, and what it has
/// given way by is added to its velocities. The body afterwards is that of
/// `step_spec`.
pub fn step(rigid: &mut Rigid, polytope: &Polytope, dt: i128, substeps: usize)
    requires
        old(rigid).wf(),
        polytope.wf(),
        0 <= dt <= TIME_ONE,
    ensures
        *final(rigid) == step_spec(*old(rigid), polytope@, dt as int, substeps as nat),
        final(rigid).wf(),
{
    if substeps == 0 {
        return ;
    }
    let h = dt / (substeps as i128);
    if h <= 0 {
        return ;
    }
    let mut done: usize = 0;
    while done < substeps
        invariant
            0 <= done <= substeps,
            0 < h <= TIME_ONE,
            polytope.wf(),
            rigid.wf(),
            substeps_spec(*rigid, polytope@, h as int, (substeps - done) as nat) == substeps_spec(
                *old(rigid),
                polytope@,
                h as int,
                substeps as nat,
            ),
        decreases substeps - done,
    {
        substep(rigid, polytope, h);
        done += 1;
    }
}

/// The handle of the second body of a pair.
pub const PARTNER: usize = 1;

/// How two bodies give way to a constraint between them: the first is the
/// body that holds the point of the constraint, at `position` and of the
/// mass `mass`; the second is the body that holds the target.
///
/// Both are cubes with the side `ONE` and even density. The pull is shared
/// out between the shifts and turns of the two as their inverse masses and
/// inverse inertias at the two points say; the second body gives way
/// against the pull.
pub open spec fn shared_correction(
    position: Vector,
    mass: int,
    other_position: Vector,
    other_mass: int,
    c: ConstraintView,
) -> (Correction, Correction) {
    let p = pull(c);
    let twist = c.current.minus(position).cross(p);
    let other_twist = c.target.minus(other_position).cross(p);
    let pp = p.dot(p);
    let linear = (ONE * ONE) * pp;
    let leverage = (6 * ONE) * pp;
    let whole = other_mass * (linear + 6 * twist.dot(twist)) + mass * (linear + 6
        * other_twist.dot(other_twist));
    if p == Vector::zero() {
        (
            Correction { shift: Vector::zero(), turn: Vector::zero() },
            Correction { shift: Vector::zero(), turn: Vector::zero() },
        )
    } else {
        (
            Correction {
                shift: scaled_quotient(p, linear * other_mass, whole),
                turn: clamp_vector(
                    scaled_quotient(twist, leverage * other_mass, whole),
                    ANGLE_MAX as int,
                ),
            },
            Correction {
                shift: scaled_quotient(p, linear * mass, whole).negated(),
                turn: clamp_vector(
                    scaled_quotient(other_twist, leverage * mass, whole),
                    ANGLE_MAX as int,
                ).negated(),
            },
        )
    }
}

/// The poses of a pair of bodies while they give way to constraints, and
/// the turns by which they have given way so far.
pub struct PairView {
    pub first: Frame,
    pub second: Frame,
    pub first_turn: Vector,
    pub second_turn: Vector,
}

/// The pair after it has given way to a constraint. The body with the
/// handle `STEPPED` is the first; a constraint with any other handle is on
/// the second. A constraint without another body moves its own body only.
pub open spec fn pair_corrected(state: PairView, masses: (int, int), c: ConstraintView) -> PairView {
    if c.rigid == STEPPED {
        match c.other {
            Some(_) => {
                let (mine, theirs) = shared_correction(
                    state.first.position@,
                    masses.0,
                    state.second.position@,
                    masses.1,
                    c,
                );
                PairView {
                    first: given_way(state.first, mine),
                    second: given_way(state.second, theirs),
                    first_turn: state.first_turn.plus(mine.turn),
                    second_turn: state.second_turn.plus(theirs.turn),
                }
            },
            None => {
                let mine = correction(state.first.position@, c);
                PairView {
                    first: given_way(state.first, mine),
                    first_turn: state.first_turn.plus(mine.turn),
                    ..state
                }
            },
        }
    } else {
        match c.other {
            Some(_) => {
                let (mine, theirs) = shared_correction(
                    state.second.position@,
                    masses.1,
                    state.first.position@,
                    masses.0,
                    c,
                );
                PairView {
                    first: given_way(state.first, theirs),
                    second: given_way(state.second, mine),
                    first_turn: state.first_turn.plus(theirs.turn),
                    second_turn: state.second_turn.plus(mine.turn),
                }
            },
            None => {
                let mine = correction(state.second.position@, c);
                PairView {
                    second: given_way(state.second, mine),
                    second_turn: state.second_turn.plus(mine.turn),
                    ..state
                }
            },
        }
    }
}

/// The pair after it has given way to the first `k` constraints, one after
/// the other.
pub open spec fn pair_corrected_by(
    state: PairView,
    masses: (int, int),
    constraints: Seq<ConstraintView>,
    k: int,
) -> PairView
    decreases k,
{
    if k <= 0 {
        state
    } else {
        pair_corrected(
            pair_corrected_by(state, masses, constraints, k - 1),
            masses,
            constraints[k - 1],
        )
    }
}

/// The constraints on a pair of bodies: those that keep the first out of
/// the ground, those that keep the second out of the ground, and those that
/// part the two.
pub open spec fn pair_constraints(first: &Rigid, second: &Rigid, shape: Shape) -> Seq<
    ConstraintView,
> {
    ground_spec(first, STEPPED, shape.vertices, shape.vertices.len() as int) + ground_spec(
        second,
        PARTNER,
        shape.vertices,
        shape.vertices.len() as int,
    ) + contacts_spec((STEPPED, PARTNER), first, second, shape)
}

/// One substep of `h` ticks for a pair of bodies: both are moved as
/// `predicted` says, give way to their constraints one after the other, and
/// what each has given way by, over `h`, is added to its velocities.
pub open spec fn pair_substep_spec(first: Rigid, second: Rigid, shape: Shape, h: int) -> (
    Rigid,
    Rigid,
) {
    let a = predicted(first, h);
    let b = predicted(second, h);
    let constraints = pair_constraints(&a, &b, shape);
    let start = PairView {
        first: a.frame,
        second: b.frame,
        first_turn: Vector::zero(),
        second_turn: Vector::zero(),
    };
    let end = pair_corrected_by(
        start,
        (a.mass as int, b.mass as int),
        constraints,
        constraints.len() as int,
    );
    (settled(a, end.first, end.first_turn, h), settled(b, end.second, end.second_turn, h))
}

/// `n` substeps of `h` ticks each for a pair of bodies.
pub open spec fn pair_substeps_spec(first: Rigid, second: Rigid, shape: Shape, h: int, n: nat) -> (
    Rigid,
    Rigid,
)
    decreases n,
{
    if n == 0 {
        (first, second)
    } else {
        let (a, b) = pair_substep_spec(first, second, shape, h);
        pair_substeps_spec(a, b, shape, h, (n - 1) as nat)
    }
}

/// A step of `dt` ticks in `substeps` substeps of equal length for a pair
/// of bodies. Nothing happens where there is no substep or a substep has no
/// tick.
#[verifier::opaque]
pub open spec fn pair_step_spec(first: Rigid, second: Rigid, shape: Shape, dt: int, substeps: nat) -> (
    Rigid,
    Rigid,
) {
    if substeps == 0 || dt / (substeps as int) <= 0 {
        (first, second)
    } else {
        pair_substeps_spec(first, second, shape, dt / (substeps as int), substeps)
    }
}

/// The shifts and turns by which two bodies give way to a constraint
/// between them.
fn shared_correction_of(
    position: &Vec3,
    mass: i128,
    other_position: &Vec3,
    other_mass: i128,
    c: &Constraint,
) -> (r: ((Vec3, Vec3), (Vec3, Vec3)))
    requires
        position@.within(POSITION_MAX as int),
        other_position@.within(POSITION_MAX as int),
        0 < mass <= MASS_MAX,
        0 < other_mass <= MASS_MAX,
        c.wf(),
    ensures
        r.0.0@ == shared_correction(
            position@,
            mass as int,
            other_position@,
            other_mass as int,
            c@,
        ).0.shift,
        r.0.1@ == shared_correction(
            position@,
            mass as int,
            other_position@,
            other_mass as int,
            c@,
        ).0.turn,
        r.1.0@ == shared_correction(
            position@,
            mass as int,
            other_position@,
            other_mass as int,
            c@,
        ).1.shift,
        r.1.1@ == shared_correction(
            position@,
            mass as int,
            other_position@,
            other_mass as int,
            c@,
        ).1.turn,
        r.0.0@.within(CORRECTION_MAX as int),
        r.1.0@.within(CORRECTION_MAX as int),
        r.0.1@.within(ANGLE_MAX as int),
        r.1.1@.within(ANGLE_MAX as int),
{
    let p = pull_of(c);
    if p.is_zero() {
        return ((Vec3::zero(), Vec3::zero()), (Vec3::zero(), Vec3::zero()));
    }
    let arm = c.contacts.0.minus(position);
    let other_arm = c.contacts.1.minus(other_position);
    proof {
        lemma_vector_products(arm@, p@, 2 * CONTACT_MAX, CORRECTION_MAX as int);
        lemma_vector_products(other_arm@, p@, 2 * CONTACT_MAX, CORRECTION_MAX as int);
        lemma_vector_products(p@, p@, CORRECTION_MAX as int, CORRECTION_MAX as int);
        lemma_vector_products(
            arm@.cross(p@),
            arm@.cross(p@),
            0x2_0000_0000_0000,
            0x2_0000_0000_0000,
        );
        lemma_vector_products(
            other_arm@.cross(p@),
            other_arm@.cross(p@),
            0x2_0000_0000_0000,
            0x2_0000_0000_0000,
        );
        crate::geometry::lemma_square_positive(p@);
    }
    let twist = arm.cross(&p);
    let other_twist = other_arm.cross(&p);
    let pp = p.dot(&p);
    proof {
        lemma_square_nonnegative(twist@);
        lemma_square_nonnegative(other_twist@);
        assert(ONE * ONE == 0x1_0000_0000 && 6 * ONE == 0x6_0000) by (nonlinear_arith)
            requires
                ONE == 0x1_0000,
        ;
        lemma_product_bound(0x1_0000_0000, pp as int, 0x1_0000_0000, 0x3_0000_0000);
        lemma_product_bound(0x6_0000, pp as int, 0x6_0000, 0x3_0000_0000);
        assert(0x1_0000_0000 * pp > 0) by (nonlinear_arith)
            requires
                pp >= 1,
        ;
    }
    let linear = 0x1_0000_0000 * pp;
    let leverage = 0x6_0000 * pp;
    let stiff = linear + 6 * twist.dot(&twist);
    let other_stiff = linear + 6 * other_twist.dot(&other_twist);
    proof {
        let big = 0x4c_0000_0000_0000_0000_0000_0000int;
        lemma_product_bound(other_mass as int, stiff as int, MASS_MAX as int, big);
        lemma_product_bound(mass as int, other_stiff as int, MASS_MAX as int, big);
        lemma_product_bound(linear as int, other_mass as int, 0x3_0000_0000_0000_0000, MASS_MAX as int);
        lemma_product_bound(linear as int, mass as int, 0x3_0000_0000_0000_0000, MASS_MAX as int);
        lemma_product_bound(leverage as int, other_mass as int, 0x12_0000_0000_0000, MASS_MAX as int);
        lemma_product_bound(leverage as int, mass as int, 0x12_0000_0000_0000, MASS_MAX as int);
        lemma_positive_product(other_mass as int, stiff as int);
        lemma_positive_product(mass as int, other_stiff as int);
        lemma_positive_product(linear as int, other_mass as int);
        lemma_positive_product(linear as int, mass as int);
    }
    let whole = other_mass * stiff + mass * other_stiff;
    proof {
        lemma_scaled_fits(
            p@,
            linear * other_mass,
            CORRECTION_MAX as int,
            0x3_0000_0000_0000_0000_0000,
        );
        lemma_scaled_fits(p@, linear * mass, CORRECTION_MAX as int, 0x3_0000_0000_0000_0000_0000);
        lemma_scaled_fits(
            twist@,
            leverage * other_mass,
            0x2_0000_0000_0000,
            0x12_0000_0000_0000_0000,
        );
        lemma_scaled_fits(
            other_twist@,
            leverage * mass,
            0x2_0000_0000_0000,
            0x12_0000_0000_0000_0000,
        );
        lemma_part_of_whole(linear as int, other_mass as int, stiff as int, mass * other_stiff);
        lemma_part_of_whole(linear as int, mass as int, other_stiff as int, other_mass * stiff);
        lemma_share_within(
            p@,
            linear * other_mass,
            whole - linear * other_mass,
            CORRECTION_MAX as int,
        );
        lemma_share_within(p@, linear * mass, whole - linear * mass, CORRECTION_MAX as int);
    }
    let shift = scaled_by_quotient(&p, linear * other_mass, whole);
    let turn = clamped_vector(&scaled_by_quotient(&twist, leverage * other_mass, whole), ANGLE_MAX);
    let other_shift = scaled_by_quotient(&p, linear * mass, whole).negated();
    let other_turn = clamped_vector(
        &scaled_by_quotient(&other_twist, leverage * mass, whole),
        ANGLE_MAX,
    ).negated();
    ((shift, turn), (other_shift, other_turn))
}

proof fn lemma_positive_product(a: int, b: int)
    by (nonlinear_arith)
    requires
        a > 0,
        b > 0,
    ensures
        a * b > 0,
{
}

/// The linear part times a mass is a part of the whole.
proof fn lemma_part_of_whole(linear: int, mass: int, stiff: int, rest: int)
    by (nonlinear_arith)
    requires
        0 < linear <= stiff,
        mass > 0,
        rest >= 0,
    ensures
        0 <= mass * stiff + rest - linear * mass,
        mass * stiff + rest > 0,
{
}

/// The poses of a pair of bodies while they give way to constraints, with
/// machine coordinates.
struct Pair {
    first: Frame,
    second: Frame,
    first_turn: Vec3,
    second_turn: Vec3,
}

impl View for Pair {
    type V = PairView;

    closed spec fn view(&self) -> PairView {
        PairView {
            first: self.first,
            second: self.second,
            first_turn: self.first_turn@,
            second_turn: self.second_turn@,
        }
    }
}

/// Lets a pair give way to a constraint.
fn correct_pair(state: &mut Pair, masses: (i128, i128), c: &Constraint, Ghost(n): Ghost<int>)
    requires
        old(state).first.wf(),
        old(state).second.wf(),
        old(state).first_turn@.within(n * ANGLE_MAX),
        old(state).second_turn@.within(n * ANGLE_MAX),
        0 <= n < 0x1_0000,
        0 < masses.0 <= MASS_MAX,
        0 < masses.1 <= MASS_MAX,
        c.wf(),
    ensures
        final(state)@ == pair_corrected(old(state)@, (masses.0 as int, masses.1 as int), c@),
        final(state).first.wf(),
        final(state).second.wf(),
        final(state).first_turn@.within((n + 1) * ANGLE_MAX),
        final(state).second_turn@.within((n + 1) * ANGLE_MAX),
{
    proof {
        assert((n + 1) * ANGLE_MAX == n * ANGLE_MAX + ANGLE_MAX) by (nonlinear_arith);
        assert(0 <= n * ANGLE_MAX <= 0x1_0000 * ANGLE_MAX) by (nonlinear_arith)
            requires
                0 <= n < 0x1_0000,
                ANGLE_MAX > 0,
        ;
    }
    let first_is_mine = c.rigid == STEPPED;
    match c.other {
        Some(_) => {
            if first_is_mine {
                let (mine, theirs) = shared_correction_of(
                    &state.first.position,
                    masses.0,
                    &state.second.position,
                    masses.1,
                    c,
                );
                give_way(&mut state.first, &mine.0, &mine.1);
                give_way(&mut state.second, &theirs.0, &theirs.1);
                state.first_turn = state.first_turn.plus(&mine.1);
                state.second_turn = state.second_turn.plus(&theirs.1);
            } else {
                let (mine, theirs) = shared_correction_of(
                    &state.second.position,
                    masses.1,
                    &state.first.position,
                    masses.0,
                    c,
                );
                give_way(&mut state.second, &mine.0, &mine.1);
                give_way(&mut state.first, &theirs.0, &theirs.1);
                state.second_turn = state.second_turn.plus(&mine.1);
                state.first_turn = state.first_turn.plus(&theirs.1);
            }
        },
        None => {
            if first_is_mine {
                let mine = correction_of(&state.first.position, c);
                give_way(&mut state.first, &mine.0, &mine.1);
                state.first_turn = state.first_turn.plus(&mine.1);
            } else {
                let mine = correction_of(&state.second.position, c);
                give_way(&mut state.second, &mine.0, &mine.1);
                state.second_turn = state.second_turn.plus(&mine.1);
            }
        },
    }
}

/// Adds what the body has given way by, over `h`, to its velocities, and
/// gives it the pose it has come to.
fn settle(rigid: &mut Rigid, frame: Frame, turn: &Vec3, h: i128)
    requires
        old(rigid).wf(),
        frame.wf(),
        turn@.within(0x1_0000 * ANGLE_MAX),
        0 < h <= TIME_ONE,
    ensures
        *final(rigid) == settled(*old(rigid), frame, turn@, h as int),
        final(rigid).wf(),
{
    let moved_by = frame.position.minus(&rigid.frame.position);
    proof {
        lemma_scaled_fits(moved_by@, TIME_ONE as int, 2 * POSITION_MAX, TIME_ONE as int);
        lemma_scaled_fits(turn@, TIME_ONE as int, 0x1_0000 * ANGLE_MAX, TIME_ONE as int);
        lemma_quotient_within(
            moved_by@,
            TIME_ONE as int,
            h as int,
            (2 * POSITION_MAX) * TIME_ONE,
        );
        lemma_quotient_within(turn@, TIME_ONE as int, h as int, (0x1_0000 * ANGLE_MAX) * TIME_ONE);
    }
    let gain = scaled_by_quotient(&moved_by, TIME_ONE, h);
    let spin = scaled_by_quotient(turn, TIME_ONE, h);
    rigid.velocity = clamped_vector(&rigid.velocity.plus(&gain), RATE_MAX);
    rigid.angular_velocity = clamped_vector(&rigid.angular_velocity.plus(&spin), RATE_MAX);
    rigid.frame = frame;
}

/// Lets a pair give way to a list of constraints, one after the other,
/// after it has given way to `done` constraints already.
fn correct_pair_by(
    state: &mut Pair,
    masses: (i128, i128),
    constraints: &Vec<Constraint>,
    Ghost(all): Ghost<Seq<ConstraintView>>,
    Ghost(start): Ghost<PairView>,
    Ghost(done): Ghost<int>,
)
    requires
        old(state).first.wf(),
        old(state).second.wf(),
        0 <= done,
        done + constraints@.len() <= all.len() < 0x1_0000,
        all.subrange(done, done + constraints@.len()) == constraint_views(constraints@),
        forall|k: int| 0 <= k < constraints@.len() ==> (#[trigger] constraints@[k]).wf(),
        old(state).first_turn@.within(done * ANGLE_MAX),
        old(state).second_turn@.within(done * ANGLE_MAX),
        0 < masses.0 <= MASS_MAX,
        0 < masses.1 <= MASS_MAX,
        old(state)@ == pair_corrected_by(start, (masses.0 as int, masses.1 as int), all, done),
    ensures
        final(state)@ == pair_corrected_by(
            start,
            (masses.0 as int, masses.1 as int),
            all,
            done + constraints@.len(),
        ),
        final(state).first.wf(),
        final(state).second.wf(),
        final(state).first_turn@.within((done + constraints@.len()) * ANGLE_MAX),
        final(state).second_turn@.within((done + constraints@.len()) * ANGLE_MAX),
{
    let mut i: usize = 0;
    while i < constraints.len()
        invariant
            0 <= i <= constraints@.len(),
            0 <= done,
            done + constraints@.len() <= all.len() < 0x1_0000,
            all.subrange(done, done + constraints@.len()) == constraint_views(constraints@),
            forall|k: int| 0 <= k < constraints@.len() ==> (#[trigger] constraints@[k]).wf(),
            0 < masses.0 <= MASS_MAX,
            0 < masses.1 <= MASS_MAX,
            state.first.wf(),
            state.second.wf(),
            state.first_turn@.within((done + i) * ANGLE_MAX),
            state.second_turn@.within((done + i) * ANGLE_MAX),
            state@ == pair_corrected_by(start, (masses.0 as int, masses.1 as int), all, done + i),
        decreases constraints@.len() - i,
    {
        let c = constraints[i];
        proof {
            assert(all.subrange(done, done + constraints@.len())[i as int] == all[done + i]);
        }
        correct_pair(state, masses, &c, Ghost(done + i));
        i += 1;
    }
}

/// One substep of `h` ticks for a pair of bodies.
fn pair_substep(first: &mut Rigid, second: &mut Rigid, polytope: &Polytope, h: i128)
    requires
        old(first).wf(),
        old(second).wf(),
        polytope.wf(),
        0 < h <= TIME_ONE,
    ensures
        (*final(first), *final(second)) == pair_substep_spec(
            *old(first),
            *old(second),
            polytope@,
            h as int,
        ),
        final(first).wf(),
        final(second).wf(),
{
    predict(first, h);
    predict(second, h);
    let on_first = ground(STEPPED, first, polytope);
    let on_second = ground(PARTNER, second, polytope);
    let between = contacts((STEPPED, PARTNER), (first, second), polytope);
    let ghost all = pair_constraints(first, second, polytope@);
    let ghost n1 = on_first@.len() as int;
    let ghost n2 = on_second@.len() as int;
    let mut state = Pair {
        first: first.frame,
        second: second.frame,
        first_turn: Vec3::zero(),
        second_turn: Vec3::zero(),
    };
    let ghost start = state@;
    let masses = (first.mass, second.mass);
    proof {
        let v1 = constraint_views(on_first@);
        let v2 = constraint_views(on_second@);
        let v3 = constraint_views(between@);
        assert(all.subrange(0, n1) =~= v1);
        assert(all.subrange(n1, n1 + n2) =~= v2);
        assert(all.subrange(n1 + n2, n1 + n2 + between@.len()) =~= v3);
        assert(0 * ANGLE_MAX == 0) by (nonlinear_arith);
    }
    correct_pair_by(&mut state, masses, &on_first, Ghost(all), Ghost(start), Ghost(0));
    correct_pair_by(&mut state, masses, &on_second, Ghost(all), Ghost(start), Ghost(n1));
    correct_pair_by(&mut state, masses, &between, Ghost(all), Ghost(start), Ghost(n1 + n2));
    proof {
        assert(all.len() * ANGLE_MAX <= 0x1_0000 * ANGLE_MAX) by (nonlinear_arith)
            requires
                all.len() < 0x1_0000,
                ANGLE_MAX > 0,
        ;
    }
    settle(first, state.first, &state.first_turn, h);
    settle(second, state.second, &state.second_turn, h);
}

/// Advances a pair of bodies by `dt` ticks in `substeps` substeps of equal
/// length.
///
/// In each substep the forces on the bodies change their velocities, the
/// velocities change their poses, and the bodies give way, one constraint
/// after the other, to the constraints that keep each out of the ground and
/// to those that part the two where they are in contact; what each has given
/// way by is added to its velocities. The bodies afterwards are those of
/// `pair_step_spec`.
pub fn step_pair(
    first: &mut Rigid,
    second: &mut Rigid,
    polytope: &Polytope,
    dt: i128,
    substeps: usize,
)
    requires
        old(first).wf(),
        old(second).wf(),
        polytope.wf(),
        0 <= dt <= TIME_ONE,
    ensures
        (*final(first), *final(second)) == pair_step_spec(
            *old(first),
            *old(second),
            polytope@,
            dt as int,
            substeps as nat,
        ),
        final(first).wf(),
        final(second).wf(),
{
    reveal(pair_step_spec);
    if substeps == 0 {
        return ;
    }
    let h = dt / (substeps as i128);
    if h <= 0 {
        return ;
    }
    let mut done: usize = 0;
    while done < substeps
        invariant
            0 <= done <= substeps,
            0 < h <= TIME_ONE,
            polytope.wf(),
            first.wf(),
            second.wf(),
            pair_substeps_spec(*first, *second, polytope@, h as int, (substeps - done) as nat)
                == pair_substeps_spec(
                *old(first),
                *old(second),
                polytope@,
                h as int,
                substeps as nat,
            ),
        decreases substeps - done,
    {
        pair_substep(first, second, polytope, h);
        done += 1;
    }
}

/// The body does not move and nothing pushes it.
pub open spec fn at_rest(rigid: Rigid) -> bool {
    &&& rigid.velocity@ == Vector::zero()
    &&& rigid.angular_velocity@ == Vector::zero()
    &&& rigid.external_force@ == Vector::zero()
}

/// No corner of the body is below the ground.
pub open spec fn clear_of_ground(rigid: Rigid, shape: Shape) -> bool {
    forall|i: int|
        0 <= i < shape.vertices.len() ==> rigid.frame.act_spec(#[trigger] shape.vertices[i]).z >= 0
}

/// Nothing times anything, over anything, is nothing.
proof fn lemma_nothing_scaled(k: int, d: int)
    requires
        d > 0,
    ensures
        scaled_quotient(Vector::zero(), k, d) == Vector::zero(),
{
    assert(0 * k == 0) by (nonlinear_arith);
    lemma_round_div_zero(d);
}

/// A substep leaves a body at rest that has no corner below the ground as
/// it is, but for the pose of the past, which becomes the pose.
pub proof fn lemma_substep_at_rest(rigid: Rigid, shape: Shape, h: int)
    requires
        rigid.wf(),
        at_rest(rigid),
        clear_of_ground(rigid, shape),
        h > 0,
    ensures
        substep_spec(rigid, shape, h) == (Rigid { past_frame: rigid.frame, ..rigid }),
{
    assert(rigid.mass * TIME_ONE > 0) by (nonlinear_arith)
        requires
            rigid.mass > 0,
    ;
    lemma_nothing_scaled(h, rigid.mass * TIME_ONE);
    lemma_nothing_scaled(h, TIME_ONE as int);
    lemma_nothing_scaled(TIME_ONE as int, h);
    let moved = predicted(rigid, h);
    let locals = shape.vertices;
    lemma_no_ground_contact(&moved, STEPPED, locals, locals.len() as int);
}

/// A body at rest that has no corner below the ground stays where it is,
/// and at rest, however long the step and however many the substeps.
pub proof fn lemma_rest_is_kept(rigid: Rigid, shape: Shape, dt: int, substeps: nat)
    requires
        rigid.wf(),
        at_rest(rigid),
        clear_of_ground(rigid, shape),
    ensures
        step_spec(rigid, shape, dt, substeps).frame == rigid.frame,
        at_rest(step_spec(rigid, shape, dt, substeps)),
        step_spec(rigid, shape, dt, substeps).mass == rigid.mass,
        step_spec(rigid, shape, dt, substeps).color == rigid.color,
{
    if substeps != 0 && dt / (substeps as int) > 0 {
        lemma_substeps_at_rest(rigid, shape, dt / (substeps as int), substeps);
    }
}

proof fn lemma_substeps_at_rest(rigid: Rigid, shape: Shape, h: int, n: nat)
    requires
        rigid.wf(),
        at_rest(rigid),
        clear_of_ground(rigid, shape),
        h > 0,
    ensures
        substeps_spec(rigid, shape, h, n).frame == rigid.frame,
        at_rest(substeps_spec(rigid, shape, h, n)),
        substeps_spec(rigid, shape, h, n).mass == rigid.mass,
        substeps_spec(rigid, shape, h, n).color == rigid.color,
    decreases n,
{
    if n > 0 {
        lemma_substep_at_rest(rigid, shape, h);
        let next = Rigid { past_frame: rigid.frame, ..rigid };
        lemma_substeps_at_rest(next, shape, h, (n - 1) as nat);
    }
}

/// A substep leaves two bodies at rest that are clear of the ground and
/// not in contact as they are, but for their poses of the past.
pub proof fn lemma_pair_substep_at_rest(first: Rigid, second: Rigid, shape: Shape, h: int)
    requires
        first.wf(),
        second.wf(),
        at_rest(first),
        at_rest(second),
        clear_of_ground(first, shape),
        clear_of_ground(second, shape),
        crate::collision::sat::sat_spec(&first, &second, shape) is None,
        h > 0,
    ensures
        pair_substep_spec(first, second, shape, h) == (
            Rigid { past_frame: first.frame, ..first },
            Rigid { past_frame: second.frame, ..second },
        ),
{
    lemma_substep_at_rest(first, shape, h);
    lemma_substep_at_rest(second, shape, h);
    assert(first.mass * TIME_ONE > 0) by (nonlinear_arith)
        requires
            first.mass > 0,
    ;
    assert(second.mass * TIME_ONE > 0) by (nonlinear_arith)
        requires
            second.mass > 0,
    ;
    lemma_nothing_scaled(h, first.mass * TIME_ONE);
    lemma_nothing_scaled(h, second.mass * TIME_ONE);
    lemma_nothing_scaled(h, TIME_ONE as int);
    lemma_nothing_scaled(TIME_ONE as int, h);
    let a = predicted(first, h);
    let b = predicted(second, h);
    lemma_no_ground_contact(&a, STEPPED, shape.vertices, shape.vertices.len() as int);
    lemma_no_ground_contact(&b, PARTNER, shape.vertices, shape.vertices.len() as int);
    lemma_contact_sees_frames(first, a, second, b, shape);
}

/// Whether two bodies are in contact depends on their poses only.
proof fn lemma_contact_sees_frames(a: Rigid, a2: Rigid, b: Rigid, b2: Rigid, shape: Shape)
    requires
        a.frame == a2.frame,
        b.frame == b2.frame,
    ensures
        crate::collision::sat::sat_spec(&a, &b, shape) == crate::collision::sat::sat_spec(
            &a2,
            &b2,
            shape,
        ),
        contacts_spec((STEPPED, PARTNER), &a, &b, shape) == contacts_spec(
            (STEPPED, PARTNER),
            &a2,
            &b2,
            shape,
        ),
{
    assert(crate::collision::sat::face_axes_spec(&a, shape)
        == crate::collision::sat::face_axes_spec(&a2, shape));
    assert(crate::collision::sat::face_axes_spec(&b, shape)
        == crate::collision::sat::face_axes_spec(&b2, shape));
}

/// Two bodies at rest that are clear of the ground and not in contact stay
/// where they are, and at rest, however long the step and however many the
/// substeps.
pub proof fn lemma_pair_rest_is_kept(
    first: Rigid,
    second: Rigid,
    shape: Shape,
    dt: int,
    substeps: nat,
)
    requires
        first.wf(),
        second.wf(),
        at_rest(first),
        at_rest(second),
        clear_of_ground(first, shape),
        clear_of_ground(second, shape),
        crate::collision::sat::sat_spec(&first, &second, shape) is None,
    ensures
        pair_step_spec(first, second, shape, dt, substeps).0.frame == first.frame,
        pair_step_spec(first, second, shape, dt, substeps).1.frame == second.frame,
        at_rest(pair_step_spec(first, second, shape, dt, substeps).0),
        at_rest(pair_step_spec(first, second, shape, dt, substeps).1),
{
    reveal(pair_step_spec);
    if substeps != 0 && dt / (substeps as int) > 0 {
        lemma_pair_substeps_at_rest(first, second, shape, dt / (substeps as int), substeps);
    }
}

proof fn lemma_pair_substeps_at_rest(first: Rigid, second: Rigid, shape: Shape, h: int, n: nat)
    requires
        first.wf(),
        second.wf(),
        at_rest(first),
        at_rest(second),
        clear_of_ground(first, shape),
        clear_of_ground(second, shape),
        crate::collision::sat::sat_spec(&first, &second, shape) is None,
        h > 0,
    ensures
        pair_substeps_spec(first, second, shape, h, n).0.frame == first.frame,
        pair_substeps_spec(first, second, shape, h, n).1.frame == second.frame,
        at_rest(pair_substeps_spec(first, second, shape, h, n).0),
        at_rest(pair_substeps_spec(first, second, shape, h, n).1),
    decreases n,
{
    if n > 0 {
        lemma_pair_substep_at_rest(first, second, shape, h);
        let a = Rigid { past_frame: first.frame, ..first };
        let b = Rigid { past_frame: second.frame, ..second };
        lemma_contact_sees_frames(first, a, second, b, shape);
        lemma_pair_substeps_at_rest(a, b, shape, h, (n - 1) as nat);
    }
}

} // verus!
