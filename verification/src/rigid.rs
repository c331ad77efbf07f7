//! Rigid bodies.

use vstd::prelude::*;
use crate::frame::{lemma_reach_bounds, Frame};
use crate::geometry::{all_within, vectors, Polytope, Shape};
use crate::limits::{COORD_MAX, LOCAL_MAX, POSITION_MAX};
use crate::vector::{Vec3, Vector};

verus! {

/// Bound on the coordinates of a velocity, an angular velocity and a force.
pub const RATE_MAX: i128 = 0x1_0000_0000;

/// Bound on the coordinates of what `delta` returns.
pub const DELTA_MAX: i128 = 0x1000_0000;

/// Bound on a mass.
pub const MASS_MAX: i128 = 0x1_0000;

/// A body: its pose now and at the end of the last substep, its motion, the
/// force on it, its mass, and the colour in which it is drawn.
#[derive(Clone, Copy, Debug)]
pub struct Rigid {
    pub frame: Frame,
    pub past_frame: Frame,
    pub velocity: Vec3,
    pub angular_velocity: Vec3,
    pub external_force: Vec3,
    pub mass: i128,
    pub color: Option<[u8; 3]>,
}

impl Rigid {
    /// Both poses are well formed, the mass is positive, and the rates are
    /// in range.
    pub open spec fn wf(&self) -> bool {
        &&& self.frame.wf()
        &&& self.past_frame.wf()
        &&& 0 < self.mass <= MASS_MAX
        &&& self.velocity@.within(RATE_MAX as int)
        &&& self.angular_velocity@.within(RATE_MAX as int)
        &&& self.external_force@.within(RATE_MAX as int)
    }

    /// The corners of the shape where the body holds them in the world.
    pub open spec fn world_points(&self, shape: Shape) -> Seq<Vector> {
        shape.vertices.map_values(|p: Vector| self.frame.act_spec(p))
    }

    /// A body of the given mass at rest at the origin, not turned, with no
    /// force on it and no colour.
    pub fn new(mass: i128) -> (r: Rigid)
        requires
            0 < mass <= MASS_MAX,
        ensures
            r.wf(),
            r.mass == mass,
            r.frame == Frame::identity_spec(),
            r.past_frame == r.frame,
            r.velocity@ == Vector::zero(),
            r.angular_velocity@ == Vector::zero(),
            r.external_force@ == Vector::zero(),
            r.color is None,
    {
        Rigid {
            frame: Frame::identity(),
            past_frame: Frame::identity(),
            velocity: Vec3::zero(),
            angular_velocity: Vec3::zero(),
            external_force: Vec3::zero(),
            mass,
            color: None,
        }
    }

    /// The corners of the shape where the body holds them in the world.
    pub fn world_vertices(&self, polytope: &Polytope) -> (r: Vec<Vec3>)
        requires
            self.frame.wf(),
            polytope.wf(),
        ensures
            vectors(r@) == self.world_points(polytope@),
            r@.len() == polytope.vertices@.len(),
            all_within(vectors(r@), COORD_MAX as int),
    {
        let mut r: Vec<Vec3> = Vec::new();
        let mut i: usize = 0;
        while i < polytope.vertices.len()
            invariant
                self.frame.wf(),
                polytope.wf(),
                0 <= i <= polytope.vertices@.len(),
                r@.len() == i,
                forall|k: int|
                    0 <= k < i ==> (#[trigger] r@[k])@ == self.frame.act_spec(
                        polytope.vertices@[k]@,
                    ),
                forall|k: int| 0 <= k < i ==> (#[trigger] r@[k])@.within(COORD_MAX as int),
            decreases polytope.vertices@.len() - i,
        {
            let p = polytope.vertices[i];
            proof {
                assert(vectors(polytope.vertices@)[i as int] == p@);
                lemma_reach_bounds(p@, LOCAL_MAX as int);
            }
            let w = self.frame.act(&p);
            r.push(w);
            i += 1;
        }
        r
    }

    /// How far the point of the body that now stands at `world_point` has
    /// moved since the end of the last substep.
    pub open spec fn delta_spec(&self, world_point: Vector) -> Vector {
        world_point.minus(self.past_frame.act_spec(self.frame.act_inverse_spec(world_point)))
    }

    /// How far the point of the body that now stands at `world_point` has
    /// moved since the end of the last substep: the point is taken back to
    /// the body by the pose of now, and out again by the pose of then.
    pub fn delta(&self, world_point: &Vec3) -> (r: Vec3)
        requires
            self.frame.wf(),
            self.past_frame.wf(),
            world_point@.within(COORD_MAX as int),
        ensures
            r@ == self.delta_spec(world_point@),
            r@.within(DELTA_MAX as int),
    {
        let local = self.frame.act_inverse(world_point);
        proof {
            lemma_reach_bounds(world_point@.minus(self.frame.position@), COORD_MAX + POSITION_MAX);
            lemma_reach_bounds(local@, 3 * (COORD_MAX + POSITION_MAX));
        }
        let before = self.past_frame.act(&local);
        world_point.minus(&before)
    }
}

} // verus!
