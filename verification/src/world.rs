//! The world: two bodies above the ground, of which the first falls.

use vstd::prelude::*;
use crate::collision::manifold::manifold_spec;
use crate::collision::{draws_contact, CONTACT_COLOR};
use crate::debug::{Color, DebugLines, Primitive};
use crate::frame::{Frame, Quaternion};
use crate::geometry::{Plane, PlaneView, Polytope, Shape};
use crate::limits::ONE;
use crate::rigid::Rigid;
use crate::solver::{pair_step_spec, step_pair, TIME_ONE};
use crate::vector::{Vec3, Vector};

verus! {

/// The number of substeps in a step of the world.
pub const SUBSTEPS: usize = 25;

/// The pull of the ground on a body of mass one: 9.81 units of length per
/// unit of time squared.
pub const GRAVITY: i128 = 642_908;

/// The colour of the plane that each step draws.
pub const PLANE_COLOR: Color = [0, 255, 255];

/// Two bodies with the shape of the unit cube.
#[derive(Clone, Copy, Debug)]
pub struct World {
    a: Rigid,
    b: Rigid,
}

/// The two bodies after a step of `dt` ticks.
fn advanced(first: Rigid, second: Rigid, cube: &Polytope, dt: i128) -> (r: (Rigid, Rigid))
    requires
        first.wf(),
        second.wf(),
        cube.wf(),
        0 <= dt <= TIME_ONE,
    ensures
        r == pair_step_spec(first, second, cube@, dt as int, SUBSTEPS as nat),
        r.0.wf(),
        r.1.wf(),
{
    let mut a = first;
    let mut b = second;
    step_pair(&mut a, &mut b, cube, dt, SUBSTEPS);
    (a, b)
}

impl World {
    #[verifier::type_invariant]
    spec fn wf(self) -> bool {
        self.a.wf() && self.b.wf()
    }

    /// The first body.
    pub closed spec fn first(&self) -> Rigid {
        self.a
    }

    /// The second body.
    pub closed spec fn second(&self) -> Rigid {
        self.b
    }

    /// The shape of both bodies.
    pub open spec fn shape() -> Shape {
        Polytope::cube_shape(ONE / 2)
    }

    /// The first body as the world begins: two units above the ground and
    /// 1.1 units to the side, turned by half a right angle about the first
    /// axis and then about the second, at rest, with the ground pulling on
    /// it.
    pub open spec fn initial_first() -> Rigid {
        Rigid {
            frame: Frame {
                position: Vec3 { x: 0, y: (-72_090i128), z: 131_072 },
                quaternion: Quaternion {
                    w: 916_495_974,
                    x: 379_625_062,
                    y: 379_625_062,
                    z: 157_245_850,
                },
            },
            past_frame: Frame::identity_spec(),
            velocity: Vec3 { x: 0, y: 0, z: 0 },
            angular_velocity: Vec3 { x: 0, y: 0, z: 0 },
            external_force: Vec3 { x: 0, y: 0, z: (-642_908i128) },
            mass: 1,
            color: None,
        }
    }

    /// The second body as the world begins: one unit above the ground, not
    /// turned, at rest, with no force on it.
    pub open spec fn initial_second() -> Rigid {
        Rigid {
            frame: Frame {
                position: Vec3 { x: 0, y: 0, z: 65_536 },
                quaternion: Quaternion { w: 1, x: 0, y: 0, z: 0 },
            },
            past_frame: Frame::identity_spec(),
            velocity: Vec3 { x: 0, y: 0, z: 0 },
            angular_velocity: Vec3 { x: 0, y: 0, z: 0 },
            external_force: Vec3 { x: 0, y: 0, z: 0 },
            mass: 1,
            color: None,
        }
    }

    /// The world as it begins.
    pub fn new() -> (w: World)
        ensures
            w.first() == World::initial_first(),
            w.second() == World::initial_second(),
    {
        let mut a = Rigid::new(1);
        a.frame.position.z = 2 * ONE;
        a.frame.position.y = -72_090;
        a.frame.quaternion = Quaternion {
            w: 916_495_974,
            x: 379_625_062,
            y: 379_625_062,
            z: 157_245_850,
        };
        a.external_force.z = -GRAVITY;
        let mut b = Rigid::new(1);
        b.frame.position.z = ONE;
        proof {
            crate::frame::lemma_norm_positive(a.frame.quaternion@);
        }
        World { a, b }
    }

    /// The body with the colour that tells whether it is in contact.
    pub open spec fn colored(rigid: Rigid, hit: bool) -> Rigid {
        Rigid {
            color: if hit {
                Some(CONTACT_COLOR)
            } else {
                None
            },
            ..rigid
        }
    }

    /// The plane that each step draws: it cuts each axis one unit from the
    /// origin.
    pub open spec fn drawn_plane() -> PlaneView {
        PlaneView::through(
            Vector { x: ONE as int, y: 0, z: 0 },
            Vector { x: 0, y: ONE as int, z: 0 },
            Vector { x: 0, y: 0, z: ONE as int },
        )
    }

    /// Advances the world by `dt` ticks.
    ///
    /// The two bodies make a step of `dt` ticks in `SUBSTEPS` substeps. They
    /// are then tested for contact: both get the colour of a
    /// contact where there is one, and lose their colour where there is
    /// none. The sink is given the drawing of the contact, if there is one,
    /// and then a plane.
    pub fn integrate(&mut self, dt: i128, debug: &mut DebugLines)
        requires
            0 <= dt <= TIME_ONE,
        ensures
            ({
                let (stepped, partner) = pair_step_spec(
                    old(self).first(),
                    old(self).second(),
                    World::shape(),
                    dt as int,
                    SUBSTEPS as nat,
                );
                let found = manifold_spec(&stepped, &partner, World::shape());
                &&& final(self).first() == World::colored(stepped, found is Some)
                &&& final(self).second() == World::colored(partner, found is Some)
                &&& final(debug)@.len() > 0
                &&& final(debug)@.last().1 == PLANE_COLOR
                &&& final(debug)@.last().0 matches Primitive::Plane(p)
                &&& p@ == World::drawn_plane()
                &&& match found {
                    Some(m) => draws_contact(
                        old(debug)@,
                        final(debug)@.drop_last(),
                        stepped.frame.position,
                        m,
                    ),
                    None => final(debug)@.drop_last() == old(debug)@,
                }
            }),
    {
        proof {
            use_type_invariant(&*self);
        }
        let cube = Polytope::unit_cube();
        let (mut a, mut b) = advanced(self.a, self.b, &cube, dt);
        let hit = a.sat(&b, &cube, debug);
        let ghost between = debug@;
        if hit {
            a.color = Some(CONTACT_COLOR);
            b.color = Some(CONTACT_COLOR);
        } else {
            a.color = None;
            b.color = None;
        }
        let plane = Plane::from_points(
            [Vec3 { x: ONE, y: 0, z: 0 }, Vec3 { x: 0, y: ONE, z: 0 }, Vec3 { x: 0, y: 0, z: ONE }],
        );
        debug.plane(plane, PLANE_COLOR);
        proof {
            assert(debug@.drop_last() =~= between);
        }
        self.a = a;
        self.b = b;
    }

    /// The two bodies, the first first.
    pub fn rigids(&self) -> (r: Vec<&Rigid>)
        ensures
            r@.len() == 2,
            *r@[0] == self.first(),
            *r@[1] == self.second(),
    {
        vec![&self.a, &self.b]
    }
}

} // verus!
