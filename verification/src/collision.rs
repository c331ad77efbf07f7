//! Contact between convex bodies.
//!
//! A body is the convex hull of the corners of a shape, held in the world by
//! the frame of the body. Two bodies overlap where the origin lies in the
//! hull of their Minkowski difference, the differences of a corner of the
//! first and a corner of the second. The overlap search and the search for
//! the depth of an overlap work on that difference; the test of separating
//! axes works on the faces and edges of the two bodies, and gives the points
//! of their contact.

pub mod epa;
pub mod gjk;
pub mod manifold;
pub mod sat;
pub mod support;

use vstd::prelude::*;
use crate::collision::epa::{collision_view, epa_of, epa_spec, is_extent, Collision};
use crate::collision::epa::lemma_separated_sets_are_not_found_to_overlap;
use crate::collision::gjk::{gjk_search, gjk_spec, Tetrahedron, Verdict, VerdictView};
use crate::collision::manifold::{manifold, manifold_spec, ContactPointView, ManifoldView};
use crate::collision::sat::{
    edge_axes_spec, face_axes_spec, lemma_separating_axis_excludes_contact,
    lemma_separation_separates, sat_spec, separation, ContactKind, ContactView, AXIS_MAX,
    SEPARATION_MAX,
};
use crate::collision::support::{
    is_difference, lemma_separates_reversed, minkowski_of, minkowski_point, separates, support_of,
    support_point,
};
use crate::constraint::{constraint_views, Constraint, ConstraintView};
use crate::debug::{Color, DebugLines, Primitive};
use crate::frame::lemma_reach_bounds;
use crate::geometry::{vectors, Polytope, Shape};
use crate::limits::{COORD_MAX, DIRECTION_MAX, LOCAL_MAX, MINKOWSKI_MAX, NORMAL_MAX, ONE};
use crate::numeric::{
    lemma_round_div_bounded, lemma_scaled_fits, scaled_by_quotient, scaled_quotient,
};
use crate::rigid::Rigid;
use crate::vector::{Vec3, Vector};

verus! {

/// The constraint that keeps a corner of a body out of the ground, the
/// plane `z = 0`: none for a corner on or above the ground; for a corner
/// below, one that takes it straight up to the ground, less what the corner
/// has slid along the ground since the end of the last substep.
pub open spec fn ground_contact(rigid: &Rigid, handle: usize, local: Vector) -> Option<
    ConstraintView,
> {
    let position = rigid.frame.act_spec(local);
    let slide = rigid.delta_spec(position);
    if position.z >= 0 {
        None
    } else {
        Some(
            ConstraintView {
                rigid: handle as int,
                other: None,
                current: position,
                target: Vector { x: position.x - slide.x, y: position.y - slide.y, z: 0 },
                distance: 0,
            },
        )
    }
}

/// The ground constraints of the first `k` corners of a body, in the order
/// of the corners.
pub open spec fn ground_spec(rigid: &Rigid, handle: usize, locals: Seq<Vector>, k: int) -> Seq<
    ConstraintView,
>
    decreases k,
{
    if k <= 0 {
        Seq::empty()
    } else {
        let rest = ground_spec(rigid, handle, locals, k - 1);
        match ground_contact(rigid, handle, locals[k - 1]) {
            Some(c) => rest.push(c),
            None => rest,
        }
    }
}

/// A body with no corner below the ground has no ground constraint.
pub proof fn lemma_no_ground_contact(rigid: &Rigid, handle: usize, locals: Seq<Vector>, k: int)
    requires
        0 <= k <= locals.len(),
        forall|i: int| 0 <= i < k ==> rigid.frame.act_spec(#[trigger] locals[i]).z >= 0,
    ensures
        ground_spec(rigid, handle, locals, k) == Seq::<ConstraintView>::empty(),
    decreases k,
{
    if k > 0 {
        lemma_no_ground_contact(rigid, handle, locals, k - 1);
    }
}

/// A body with just one corner below the ground has just one ground
/// constraint: its distance is zero and its target is on the ground.
pub proof fn lemma_one_ground_contact(
    rigid: &Rigid,
    handle: usize,
    locals: Seq<Vector>,
    k: int,
    below: int,
)
    requires
        0 <= below < k <= locals.len(),
        rigid.frame.act_spec(locals[below]).z < 0,
        forall|i: int|
            0 <= i < k && i != below ==> rigid.frame.act_spec(#[trigger] locals[i]).z >= 0,
    ensures
        ground_spec(rigid, handle, locals, k).len() == 1,
        ground_spec(rigid, handle, locals, k)[0].distance == 0,
        ground_spec(rigid, handle, locals, k)[0].target.z == 0,
        ground_spec(rigid, handle, locals, k)[0].current == rigid.frame.act_spec(locals[below]),
    decreases k,
{
    if below == k - 1 {
        lemma_no_ground_contact(rigid, handle, locals, k - 1);
    } else {
        lemma_one_ground_contact(rigid, handle, locals, k - 1, below);
    }
}

/// The constraints that keep a body out of the ground, the plane `z = 0`:
/// one for each corner of the body that is below the ground, in the order
/// of the corners.
///
/// Each takes its corner straight up to the ground, less what the corner has
/// slid along the ground since the end of the last substep; its distance is
/// zero.
pub fn ground(handle: usize, rigid: &Rigid, polytope: &Polytope) -> (r: Vec<Constraint>)
    requires
        rigid.frame.wf(),
        rigid.past_frame.wf(),
        polytope.wf(),
    ensures
        constraint_views(r@) == ground_spec(
            rigid,
            handle,
            vectors(polytope.vertices@),
            polytope.vertices@.len() as int,
        ),
        r@.len() <= polytope.vertices@.len(),
        forall|i: int|
            0 <= i < r@.len() ==> {
                let c = #[trigger] r@[i];
                &&& c.wf()
                &&& c.rigid == handle
                &&& c.other is None
                &&& c.distance == 0
                &&& c.contacts.0.z < 0
                &&& c.contacts.1.z == 0
            },
{
    let ghost locals = vectors(polytope.vertices@);
    let mut constraints: Vec<Constraint> = Vec::new();
    let mut i: usize = 0;
    while i < polytope.vertices.len()
        invariant
            rigid.frame.wf(),
            rigid.past_frame.wf(),
            polytope.wf(),
            locals == vectors(polytope.vertices@),
            0 <= i <= polytope.vertices@.len(),
            constraints@.len() <= i,
            constraint_views(constraints@) == ground_spec(rigid, handle, locals, i as int),
            forall|k: int|
                0 <= k < constraints@.len() ==> {
                    let c = #[trigger] constraints@[k];
                    &&& c.wf()
                    &&& c.rigid == handle
                    &&& c.other is None
                    &&& c.distance == 0
                    &&& c.contacts.0.z < 0
                    &&& c.contacts.1.z == 0
                },
        decreases polytope.vertices@.len() - i,
    {
        let vertex = polytope.vertices[i];
        proof {
            assert(locals[i as int] == vertex@);
            lemma_reach_bounds(vertex@, LOCAL_MAX as int);
        }
        let position = rigid.frame.act(&vertex);
        if position.z < 0 {
            let slide = rigid.delta(&position);
            let target = Vec3 { x: position.x - slide.x, y: position.y - slide.y, z: 0 };
            let c = Constraint {
                rigid: handle,
                other: None,
                contacts: (position, target),
                distance: 0,
            };
            constraints.push(c);
        }
        i += 1;
    }
    constraints
}

/// The most by which a contact parts two bodies at once: 128 lattice
/// units, times `ONE`. What is left of an overlap is parted the next time,
/// so that bodies that have got deep into each other do not fly apart.
pub const PARTING_MAX: i128 = 0x80_0000;

/// The constraint that one of `count` points of contact between two bodies
/// asks for: the body that reaches into the other is to move out along the
/// axis of the contact, by as much as the point is deep, but by no more
/// than the least overlap of the bodies, and that over `count`: the points
/// of a contact share the parting among them.
///
/// The body that moves is the second, unless the axis is the normal of one
/// of its faces; the point is held by that body, and its target by the
/// other.
pub open spec fn contact_constraint(
    handles: (usize, usize),
    c: ContactView,
    p: ContactPointView,
    count: int,
) -> ConstraintView {
    let kind = c.kind;
    let least = if p.penetration <= c.overlap {
        p.penetration
    } else {
        c.overlap
    };
    let depth = if least <= PARTING_MAX {
        least
    } else {
        PARTING_MAX as int
    };
    let push = scaled_quotient(c.axis, depth, (ONE * ONE) * count);
    let (moved, held) = if kind == ContactKind::FaceOfSecond {
        (handles.0, handles.1)
    } else {
        (handles.1, handles.0)
    };
    ConstraintView {
        rigid: moved as int,
        other: Some(held as int),
        current: p.position,
        target: p.position.plus(push),
        distance: 0,
    }
}

/// The constraints between two bodies: one for each point of their contact,
/// none where they are not in contact.
pub open spec fn contacts_spec(
    handles: (usize, usize),
    first: &Rigid,
    second: &Rigid,
    shape: Shape,
) -> Seq<ConstraintView> {
    match manifold_spec(first, second, shape) {
        Some(m) => Seq::new(
            m.points.len(),
            |i: int|
                contact_constraint(handles, m.contact, m.points[i], m.points.len() as int),
        ),
        None => Seq::empty(),
    }
}

/// The constraints that part two bodies in contact: one for each point of
/// the contact that the axes of their faces and edges give, none where they
/// give no contact. `handles` are the handles of the two bodies in their
/// store.
pub fn contacts(handles: (usize, usize), pair: (&Rigid, &Rigid), polytope: &Polytope) -> (r: Vec<
    Constraint,
>)
    requires
        pair.0.frame.wf(),
        pair.1.frame.wf(),
        polytope.wf(),
    ensures
        constraint_views(r@) == contacts_spec(handles, pair.0, pair.1, polytope@),
        r@.len() <= 4,
        forall|i: int|
            0 <= i < r@.len() ==> {
                let c = #[trigger] r@[i];
                &&& c.wf()
                &&& c.distance == 0
                &&& (c.rigid == handles.0 && c.other == Some(handles.1)) || (c.rigid == handles.1
                    && c.other == Some(handles.0))
            },
{
    let m = match manifold(pair, polytope) {
        Some(m) => m,
        None => {
            return Vec::new();
        },
    };
    let (moved, held) = match m.contact.kind {
        ContactKind::FaceOfSecond => (handles.0, handles.1),
        _ => (handles.1, handles.0),
    };
    let count = m.points.len() as i128;
    let share: i128 = 0x1_0000_0000 * count;
    proof {
        assert(ONE * ONE == 0x1_0000_0000) by (nonlinear_arith)
            requires
                ONE == 0x1_0000,
        ;
    }
    let mut r: Vec<Constraint> = Vec::new();
    let mut i: usize = 0;
    while i < m.points.len()
        invariant
            0 <= i <= m.points@.len(),
            m.points@.len() <= 4,
            count == m.points@.len(),
            share == (ONE * ONE) * count,
            share == 0x1_0000_0000 * count,
            forall|k: int| 0 <= k < m.points@.len() ==> (#[trigger] m.points@[k]).in_range(),
            m.contact.axis@.within(AXIS_MAX as int),
            0 < m.contact.overlap <= SEPARATION_MAX,
            m.in_range(),
            (moved, held) == if m.contact.kind == ContactKind::FaceOfSecond {
                (handles.0, handles.1)
            } else {
                (handles.1, handles.0)
            },
            r@.len() == i,
            forall|k: int|
                0 <= k < i ==> (#[trigger] r@[k])@ == contact_constraint(
                    handles,
                    m.contact@,
                    m.points@[k]@,
                    count as int,
                ),
            forall|k: int|
                0 <= k < i ==> {
                    let c = #[trigger] r@[k];
                    &&& c.wf()
                    &&& c.distance == 0
                    &&& c.rigid == moved
                    &&& c.other == Some(held)
                },
        decreases m.points@.len() - i,
    {
        let p = m.points[i];
        let least = if p.penetration <= m.contact.overlap {
            p.penetration
        } else {
            m.contact.overlap
        };
        let depth = if least <= PARTING_MAX {
            least
        } else {
            PARTING_MAX
        };
        proof {
            lemma_scaled_fits(
                m.contact.axis@,
                depth as int,
                AXIS_MAX as int,
                SEPARATION_MAX as int,
            );
            assert(0x3600_0000 * share >= 0x3600_0000 * 0x1_0000_0000) by (nonlinear_arith)
                requires
                    share >= 0x1_0000_0000,
            ;
            lemma_round_div_bounded(m.contact.axis.x * depth, share as int, 0x3600_0000);
            lemma_round_div_bounded(m.contact.axis.y * depth, share as int, 0x3600_0000);
            lemma_round_div_bounded(m.contact.axis.z * depth, share as int, 0x3600_0000);
        }
        let push = scaled_by_quotient(&m.contact.axis, depth, share);
        let target = p.position.plus(&push);
        r.push(Constraint { rigid: moved, other: Some(held), contacts: (p.position, target), distance: 0 });
        i += 1;
    }
    proof {
        assert(constraint_views(r@) =~= contacts_spec(handles, pair.0, pair.1, polytope@)) by {
            assert forall|k: int| 0 <= k < r@.len() implies constraint_views(r@)[k]
                == contact_constraint(handles, m@.contact, m@.points[k], m@.points.len() as int) by {
                assert(r@[k]@ == contact_constraint(
                    handles,
                    m.contact@,
                    m.points@[k]@,
                    count as int,
                ));
            }
        }
    }
    r
}

/// Two bodies that are apart along the outward normal of a face of the
/// first, with room between them, are in contact by no test: the axes give
/// no contact, and the overlap search finds no tetrahedron.
pub proof fn lemma_apart_along_face_of_first(
    first: &Rigid,
    second: &Rigid,
    shape: Shape,
    k: int,
)
    requires
        shape.vertices.len() > 0,
        0 <= k < shape.normals.len(),
        face_axes_spec(first, shape)[k] != Vector::zero(),
        separation(
            first.world_points(shape),
            second.world_points(shape),
            face_axes_spec(first, shape)[k],
        ) > 0,
    ensures
        sat_spec(first, second, shape) is None,
        !(gjk_spec(first.world_points(shape), second.world_points(shape)) is Overlap),
        epa_spec(first.world_points(shape), second.world_points(shape)) is None,
{
    let a = first.world_points(shape);
    let b = second.world_points(shape);
    let axis = face_axes_spec(first, shape)[k];
    lemma_separating_axis_excludes_contact(
        a,
        b,
        face_axes_spec(first, shape),
        face_axes_spec(second, shape),
        edge_axes_spec(a, b, shape.edges),
        k,
    );
    lemma_separation_separates(a, b, axis);
    lemma_separated_sets_are_not_found_to_overlap(a, b, axis);
}

/// As `lemma_apart_along_face_of_first`, for a face of the second body.
pub proof fn lemma_apart_along_face_of_second(
    first: &Rigid,
    second: &Rigid,
    shape: Shape,
    k: int,
)
    requires
        shape.vertices.len() > 0,
        0 <= k < shape.normals.len(),
        face_axes_spec(second, shape)[k] != Vector::zero(),
        separation(
            second.world_points(shape),
            first.world_points(shape),
            face_axes_spec(second, shape)[k],
        ) > 0,
    ensures
        sat_spec(first, second, shape) is None,
        !(gjk_spec(first.world_points(shape), second.world_points(shape)) is Overlap),
        epa_spec(first.world_points(shape), second.world_points(shape)) is None,
{
    let a = first.world_points(shape);
    let b = second.world_points(shape);
    let axis = face_axes_spec(second, shape)[k];
    lemma_separating_axis_excludes_contact(
        a,
        b,
        face_axes_spec(first, shape),
        face_axes_spec(second, shape),
        edge_axes_spec(a, b, shape.edges),
        k,
    );
    lemma_separation_separates(b, a, axis);
    lemma_separates_reversed(a, b, axis);
    lemma_separated_sets_are_not_found_to_overlap(a, b, axis.negated());
}

/// The sink has been given the drawing of a contact: a line from `from`
/// along the axis of the contact, and then the points of the contact, all
/// in the colour of contacts.
pub open spec fn draws_contact(
    before: Seq<(Primitive, Color)>,
    after: Seq<(Primitive, Color)>,
    from: Vec3,
    m: ManifoldView,
) -> bool {
    &&& after.len() == before.len() + 1 + m.points.len()
    &&& after.take(before.len() as int) == before
    &&& after[before.len() as int].1 == CONTACT_COLOR
    &&& after[before.len() as int].0 matches Primitive::Line(a, b)
    &&& a == from
    &&& b@ == from@.plus(m.contact.axis)
    &&& forall|i: int|
        0 <= i < m.points.len() ==> {
            let drawn = #[trigger] after[before.len() + 1 + i];
            &&& drawn.1 == CONTACT_COLOR
            &&& drawn.0 matches Primitive::Point(p)
            &&& p@ == m.points[i].position
        }
}

/// The colour in which the axis of a contact is drawn.
pub const CONTACT_COLOR: Color = [255, 0, 0];

impl Rigid {
    /// The corner of the body farthest along `dir`, the last of those that
    /// are equally far.
    pub fn support(&self, polytope: &Polytope, dir: Vec3) -> (r: Vec3)
        requires
            self.frame.wf(),
            polytope.wf(),
            dir@.within(DIRECTION_MAX as int),
        ensures
            r@ == support_point(self.world_points(polytope@), dir@),
            r@.within(COORD_MAX as int),
    {
        let points = self.world_vertices(polytope);
        support_of(&points, &dir)
    }

    /// The support point of the Minkowski difference of this body and the
    /// other: the corner of this body farthest along the direction, less
    /// the corner of the other farthest against it.
    pub fn minkowski_support(&self, other: &Rigid, polytope: &Polytope, direction: Vec3) -> (r:
        Vec3)
        requires
            self.frame.wf(),
            other.frame.wf(),
            polytope.wf(),
            direction@.within(DIRECTION_MAX as int),
        ensures
            r@ == minkowski_point(
                self.world_points(polytope@),
                other.world_points(polytope@),
                direction@,
            ),
            r@.within(MINKOWSKI_MAX as int),
    {
        let a = self.world_vertices(polytope);
        let b = other.world_vertices(polytope);
        minkowski_of(&a, &b, &direction)
    }

    /// Searches for an overlap of this body and the other.
    ///
    /// Returns the tetrahedron that `gjk_spec` finds for the corners of the
    /// two bodies, and nothing where it finds the bodies apart or does not
    /// decide. A tetrahedron that is returned is made of differences of a
    /// corner of this body and a corner of the other and surrounds the
    /// origin, which is then a convex combination of its corners: the
    /// bodies have a point in common.
    pub fn gjk(&self, other: &Rigid, polytope: &Polytope) -> (r: Option<Tetrahedron>)
        requires
            self.frame.wf(),
            other.frame.wf(),
            polytope.wf(),
        ensures
            match gjk_spec(self.world_points(polytope@), other.world_points(polytope@)) {
                VerdictView::Overlap(t) => r matches Some(found) && found@ == t,
                VerdictView::Apart(dir) => r is None && separates(
                    self.world_points(polytope@),
                    other.world_points(polytope@),
                    dir,
                ),
                VerdictView::Undecided => r is None,
            },
            r matches Some(t) ==> {
                &&& t@.surrounds_origin()
                &&& t@.encloses_origin()
                &&& t@.within(MINKOWSKI_MAX as int)
                &&& forall|q: Vector|
                    t@.has(q) ==> is_difference(
                        self.world_points(polytope@),
                        other.world_points(polytope@),
                        q,
                    )
            },
    {
        let a = self.world_vertices(polytope);
        let b = other.world_vertices(polytope);
        match gjk_search(&a, &b) {
            Verdict::Overlap(t) => Some(t),
            Verdict::Apart(_) => None,
            Verdict::Undecided => None,
        }
    }

    /// Searches for the direction and depth of the overlap of this body and
    /// the other.
    ///
    /// Returns what `epa_spec` gives for the corners of the two bodies:
    /// nothing unless the overlap search finds a tetrahedron. The normal
    /// that is returned is not zero, and the depth is the extent along it of
    /// the Minkowski difference of the corners, which is not negative:
    /// moved back along the normal by the depth over the length of the
    /// normal, this body no longer reaches into the other.
    pub fn epa(&self, other: &Rigid, polytope: &Polytope) -> (r: Option<Collision>)
        requires
            self.frame.wf(),
            other.frame.wf(),
            polytope.wf(),
        ensures
            collision_view(r) == epa_spec(
                self.world_points(polytope@),
                other.world_points(polytope@),
            ),
            r matches Some(c) ==> {
                &&& c.normal@ != Vector::zero()
                &&& c.normal@.within(NORMAL_MAX as int)
                &&& 0 <= c.depth <= 3 * (NORMAL_MAX * MINKOWSKI_MAX)
                &&& is_extent(
                    self.world_points(polytope@),
                    other.world_points(polytope@),
                    c.normal@,
                    c.depth as int,
                )
            },
    {
        let a = self.world_vertices(polytope);
        let b = other.world_vertices(polytope);
        epa_of(&a, &b)
    }

    /// Tests this body and the other for contact along the axes of their
    /// faces and edges.
    ///
    /// Returns whether `sat_spec` gives a contact. Where it does, the sink
    /// is given a line from the position of this body along the axis of the
    /// contact, and then the points of the contact; else the sink is left
    /// as it is.
    pub fn sat(&self, other: &Rigid, polytope: &Polytope, debug: &mut DebugLines) -> (r: bool)
        requires
            self.frame.wf(),
            other.frame.wf(),
            polytope.wf(),
        ensures
            r == (sat_spec(self, other, polytope@) is Some),
            match manifold_spec(self, other, polytope@) {
                Some(m) => draws_contact(old(debug)@, final(debug)@, self.frame.position, m),
                None => final(debug)@ == old(debug)@,
            },
    {
        let m = match manifold((self, other), polytope) {
            Some(m) => m,
            None => {
                return false;
            },
        };
        let ghost before = debug@;
        let tip = self.frame.position.plus(&m.contact.axis);
        debug.line(self.frame.position, tip, CONTACT_COLOR);
        let mut k: usize = 0;
        while k < m.points.len()
            invariant
                0 <= k <= m.points@.len(),
                debug@.len() == before.len() + 1 + k,
                debug@.take(before.len() as int) == before,
                debug@[before.len() as int] == (
                    Primitive::Line(self.frame.position, tip),
                    CONTACT_COLOR,
                ),
                forall|i: int|
                    0 <= i < k ==> #[trigger] debug@[before.len() + 1 + i] == (
                        Primitive::Point(m.points@[i].position),
                        CONTACT_COLOR,
                    ),
            decreases m.points@.len() - k,
        {
            let ghost drawn = debug@;
            debug.point(m.points[k].position, CONTACT_COLOR);
            proof {
                assert forall|i: int| 0 <= i < k + 1 implies #[trigger] debug@[before.len() + 1
                    + i] == (Primitive::Point(m.points@[i].position), CONTACT_COLOR) by {}
            }
            k += 1;
        }
        proof {
            assert forall|i: int| 0 <= i < m@.points.len() implies {
                let drawn = #[trigger] debug@[before.len() + 1 + i];
                &&& drawn.1 == CONTACT_COLOR
                &&& drawn.0 matches Primitive::Point(p)
                &&& p@ == m@.points[i].position
            } by {
                assert(debug@[before.len() + 1 + i] == (
                    Primitive::Point(m.points@[i].position),
                    CONTACT_COLOR,
                ));
            }
        }
        true
    }
}

} // verus!
