//! Contact constraints: a point of a body and the place where it should
//! be.

use vstd::prelude::*;
use crate::vector::{Vec3, Vector};

verus! {

/// Bound on the coordinates of the two points of a constraint.
pub const CONTACT_MAX: i128 = 0x8000_0000;

/// A constraint on a body of a store of bodies: the point `current` of the
/// world, which the body holds, should come to lie at the distance
/// `distance` from the point `target`, which another body of the store
/// holds, or which is fixed in the world where there is no other body.
pub struct ConstraintView {
    pub rigid: int,
    pub other: Option<int>,
    pub current: Vector,
    pub target: Vector,
    pub distance: int,
}

/// A constraint with machine coordinates. `rigid` and `other` are handles
/// of bodies in their store; `contacts` holds the point of the body and its
/// target.
#[derive(Clone, Copy, Debug)]
pub struct Constraint {
    pub rigid: usize,
    pub other: Option<usize>,
    pub contacts: (Vec3, Vec3),
    pub distance: i128,
}

impl View for Constraint {
    type V = ConstraintView;

    open spec fn view(&self) -> ConstraintView {
        ConstraintView {
            rigid: self.rigid as int,
            other: match self.other {
                Some(h) => Some(h as int),
                None => None,
            },
            current: self.contacts.0@,
            target: self.contacts.1@,
            distance: self.distance as int,
        }
    }
}

impl Constraint {
    /// Both points are in range.
    pub open spec fn wf(&self) -> bool {
        self.contacts.0@.within(CONTACT_MAX as int) && self.contacts.1@.within(CONTACT_MAX as int)
    }
}

/// The mathematical reading of a sequence of constraints.
pub open spec fn constraint_views(s: Seq<Constraint>) -> Seq<ConstraintView> {
    s.map_values(|c: Constraint| c@)
}

} // verus!
