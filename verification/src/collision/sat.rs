//! Separating axes: directions along which one body ends before the other
//! begins.
//!
//! The axes that are tried are the outward normals of the faces of either
//! body and the directions at right angles to an edge of each. All have
//! about the length `ONE`, so that separations along different axes can be
//! compared; a separation is a distance in lattice units times `ONE`.

use vstd::prelude::*;
use crate::collision::support::{
    lemma_support_point, separates, separates_strictly, support_index, support_of, support_point,
};
use crate::frame::lemma_reach_bounds;
use crate::geometry::{
    all_within, lemma_square_positive, unit_of, unit_vector, vectors, Polytope, Shape,
};
use crate::limits::{COORD_MAX, MINKOWSKI_MAX, ONE};
use crate::rigid::Rigid;
use crate::vector::{lemma_dot_rules, lemma_product_bound, lemma_vector_products, Vec3, Vector};

verus! {

/// Bound on the coordinates of an axis.
pub const AXIS_MAX: i128 = 0x3_0000;

/// Bound on the magnitude of a separation.
pub const SEPARATION_MAX: i128 = 0x1200_0000_0000;

/// Two edges count as parallel, and give no axis, where the square of the
/// sine of the angle between them is less than one in `PARALLEL_RATIO`.
pub const PARALLEL_RATIO: i128 = 0x1_0000;

/// How far along the axis the body `b` begins after the body `a` ends: the
/// least reach of a point of `b` less the greatest reach of a point of `a`.
/// Negative where the two overlap along the axis.
pub open spec fn separation(a: Seq<Vector>, b: Seq<Vector>, axis: Vector) -> int {
    support_point(b, axis.negated()).dot(axis) - support_point(a, axis).dot(axis)
}

/// An axis along which the separation is not negative separates the bodies,
/// and with room between them where the separation is positive.
pub proof fn lemma_separation_separates(a: Seq<Vector>, b: Seq<Vector>, axis: Vector)
    requires
        a.len() > 0,
        b.len() > 0,
    ensures
        axis != Vector::zero() && separation(a, b, axis) >= 0 ==> separates(a, b, axis),
        separation(a, b, axis) > 0 <==> separates_strictly(a, b, axis),
{
    lemma_support_point(a, axis);
    lemma_support_point(b, axis.negated());
    let ia = support_index(a, axis);
    let ib = support_index(b, axis.negated());
    lemma_dot_rules(b[ib], axis, axis);
    assert forall|i: int, j: int| 0 <= i < a.len() && 0 <= j < b.len() implies (#[trigger] a[i]).dot(
        axis,
    ) <= a[ia].dot(axis) && b[ib].dot(axis) <= (#[trigger] b[j]).dot(axis) by {
        lemma_dot_rules(b[j], axis, axis);
    }
}

/// `axes[k]` is the best of the axes: it is not zero, the separation along
/// no other axis that is not zero is greater, and it is the first such.
pub open spec fn is_best_axis(a: Seq<Vector>, b: Seq<Vector>, axes: Seq<Vector>, k: int) -> bool {
    &&& 0 <= k < axes.len()
    &&& axes[k] != Vector::zero()
    &&& forall|j: int|
        0 <= j < axes.len() && (#[trigger] axes[j]) != Vector::zero() ==> separation(
            a,
            b,
            axes[j],
        ) <= separation(a, b, axes[k])
    &&& forall|j: int|
        0 <= j < k && (#[trigger] axes[j]) != Vector::zero() ==> separation(a, b, axes[j])
            < separation(a, b, axes[k])
}

/// Some axis is not zero.
pub open spec fn has_axis(axes: Seq<Vector>) -> bool {
    exists|k: int| 0 <= k < axes.len() && (#[trigger] axes[k]) != Vector::zero()
}

/// The index of the best of the axes, if any is not zero.
pub open spec fn best_axis(a: Seq<Vector>, b: Seq<Vector>, axes: Seq<Vector>) -> Option<int> {
    if has_axis(axes) {
        Some(choose|k: int| is_best_axis(a, b, axes, k))
    } else {
        None
    }
}

/// Only one axis is the best.
pub proof fn lemma_best_axis_unique(a: Seq<Vector>, b: Seq<Vector>, axes: Seq<Vector>, k: int)
    requires
        is_best_axis(a, b, axes, k),
    ensures
        best_axis(a, b, axes) == Some(k),
{
    let c = choose|c: int| is_best_axis(a, b, axes, c);
}

/// The outcome of a query over a set of axes: the greatest separation, and
/// the axis along which it is found, with its index.
#[derive(Clone, Copy, Debug, PartialEq, Eq, Structural)]
pub struct AxisQuery {
    pub separation: i128,
    pub index: usize,
    pub axis: Vec3,
}

/// The query has found the best of the axes, or none where all are zero.
pub open spec fn answers(
    r: Option<AxisQuery>,
    a: Seq<Vector>,
    b: Seq<Vector>,
    axes: Seq<Vector>,
) -> bool {
    match r {
        Some(q) => best_axis(a, b, axes) == Some(q.index as int) && q.index < axes.len()
            && q.axis@ == axes[q.index as int] && q.separation == separation(
            a,
            b,
            axes[q.index as int],
        ),
        None => best_axis(a, b, axes) is None,
    }
}

/// The separation of two sets of points along an axis.
pub fn separation_along(a: &Vec<Vec3>, b: &Vec<Vec3>, axis: &Vec3) -> (r: i128)
    requires
        a@.len() > 0,
        b@.len() > 0,
        all_within(vectors(a@), COORD_MAX as int),
        all_within(vectors(b@), COORD_MAX as int),
        axis@.within(AXIS_MAX as int),
    ensures
        r == separation(vectors(a@), vectors(b@), axis@),
        -SEPARATION_MAX <= r <= SEPARATION_MAX,
{
    let back = axis.negated();
    let pa = support_of(a, axis);
    let pb = support_of(b, &back);
    proof {
        lemma_vector_products(pa@, axis@, COORD_MAX as int, AXIS_MAX as int);
        lemma_vector_products(pb@, axis@, COORD_MAX as int, AXIS_MAX as int);
    }
    pb.dot(axis) - pa.dot(axis)
}

/// The greatest separation of two sets of points over a set of axes, of
/// which those that are zero are passed over.
pub fn best_separation(a: &Vec<Vec3>, b: &Vec<Vec3>, axes: &Vec<Vec3>) -> (r: Option<AxisQuery>)
    requires
        a@.len() > 0,
        b@.len() > 0,
        all_within(vectors(a@), COORD_MAX as int),
        all_within(vectors(b@), COORD_MAX as int),
        all_within(vectors(axes@), AXIS_MAX as int),
    ensures
        answers(r, vectors(a@), vectors(b@), vectors(axes@)),
        r matches Some(q) ==> -SEPARATION_MAX <= q.separation <= SEPARATION_MAX,
{
    let ghost ma = vectors(a@);
    let ghost mb = vectors(b@);
    let ghost mx = vectors(axes@);
    let mut best: Option<AxisQuery> = None;
    let mut i: usize = 0;
    while i < axes.len()
        invariant
            ma == vectors(a@),
            mb == vectors(b@),
            mx == vectors(axes@),
            a@.len() > 0,
            b@.len() > 0,
            all_within(ma, COORD_MAX as int),
            all_within(mb, COORD_MAX as int),
            all_within(mx, AXIS_MAX as int),
            0 <= i <= axes@.len(),
            best is None ==> forall|j: int| 0 <= j < i ==> (#[trigger] mx[j]) == Vector::zero(),
            best matches Some(q) ==> {
                &&& q.index < i
                &&& q.axis@ == mx[q.index as int]
                &&& -SEPARATION_MAX <= q.separation <= SEPARATION_MAX
                &&& mx[q.index as int] != Vector::zero()
                &&& q.separation == separation(ma, mb, mx[q.index as int])
                &&& forall|j: int|
                    0 <= j < i && (#[trigger] mx[j]) != Vector::zero() ==> separation(
                        ma,
                        mb,
                        mx[j],
                    ) <= q.separation
                &&& forall|j: int|
                    0 <= j < q.index && (#[trigger] mx[j]) != Vector::zero() ==> separation(
                        ma,
                        mb,
                        mx[j],
                    ) < q.separation
            },
        decreases axes@.len() - i,
    {
        let axis = axes[i];
        proof {
            assert(mx[i as int] == axis@);
        }
        if !axis.is_zero() {
            let s = separation_along(a, b, &axis);
            match best {
                Some(q) => {
                    if s > q.separation {
                        best = Some(AxisQuery { separation: s, index: i, axis });
                    }
                },
                None => {
                    best = Some(AxisQuery { separation: s, index: i, axis });
                },
            }
        }
        i += 1;
    }
    proof {
        match best {
            Some(q) => {
                lemma_best_axis_unique(ma, mb, mx, q.index as int);
            },
            None => {
            },
        }
    }
    best
}

/// The outward normals of the faces of a body in the world: the normals of
/// its shape, turned as the body is turned.
pub open spec fn face_axes_spec(rigid: &Rigid, shape: Shape) -> Seq<Vector> {
    shape.normals.map_values(|n: Vector| rigid.frame.quaternion@.rotate(n))
}

/// The outward normals of the faces of a body in the world.
pub fn face_axes(rigid: &Rigid, polytope: &Polytope) -> (r: Vec<Vec3>)
    requires
        rigid.frame.wf(),
        polytope.wf(),
    ensures
        vectors(r@) == face_axes_spec(rigid, polytope@),
        r@.len() == polytope.normals@.len(),
        all_within(vectors(r@), AXIS_MAX as int),
{
    let mut r: Vec<Vec3> = Vec::new();
    let mut i: usize = 0;
    while i < polytope.normals.len()
        invariant
            rigid.frame.wf(),
            polytope.wf(),
            0 <= i <= polytope.normals@.len(),
            r@.len() == i,
            forall|k: int|
                0 <= k < i ==> (#[trigger] r@[k])@ == rigid.frame.quaternion@.rotate(
                    polytope.normals@[k]@,
                ),
            forall|k: int| 0 <= k < i ==> (#[trigger] r@[k])@.within(AXIS_MAX as int),
        decreases polytope.normals@.len() - i,
    {
        let n = polytope.normals[i];
        proof {
            assert(vectors(polytope.normals@)[i as int] == n@);
            lemma_reach_bounds(n@, ONE as int);
        }
        let axis = rigid.frame.quaternion.rotate(&n);
        r.push(axis);
        i += 1;
    }
    r
}

/// The greatest separation of the second body from the first along the
/// outward normals of the faces of the first.
pub fn face_axes_separation(pair: (&Rigid, &Rigid), polytope: &Polytope) -> (r: Option<AxisQuery>)
    requires
        pair.0.frame.wf(),
        pair.1.frame.wf(),
        polytope.wf(),
    ensures
        answers(
            r,
            pair.0.world_points(polytope@),
            pair.1.world_points(polytope@),
            face_axes_spec(pair.0, polytope@),
        ),
{
    let a = pair.0.world_vertices(polytope);
    let b = pair.1.world_vertices(polytope);
    let axes = face_axes(pair.0, polytope);
    best_separation(&a, &b, &axes)
}

/// The vector along an edge of a body in the world.
pub open spec fn edge_vector(points: Seq<Vector>, e: (usize, usize)) -> Vector {
    points[e.1 as int].minus(points[e.0 as int])
}

/// The two edges are close to parallel.
pub open spec fn nearly_parallel(u: Vector, v: Vector) -> bool {
    u.cross(v).dot(u.cross(v)) * PARALLEL_RATIO < u.dot(u) * v.dot(v)
}

/// The direction at right angles to both edges, of length `ONE`; zero where
/// the edges are close to parallel.
pub open spec fn edge_axis(u: Vector, v: Vector) -> Vector {
    let c = u.cross(v);
    if c == Vector::zero() || nearly_parallel(u, v) {
        Vector::zero()
    } else {
        unit_of(c)
    }
}

/// The axes that the first `j` edges of the second body give with one edge
/// of the first: for each, the direction at right angles to both, and its
/// opposite.
pub open spec fn edge_row(u: Vector, b: Seq<Vector>, edges: Seq<(usize, usize)>, j: int) -> Seq<
    Vector,
>
    decreases j,
{
    if j <= 0 {
        Seq::empty()
    } else {
        let axis = edge_axis(u, edge_vector(b, edges[j - 1]));
        edge_row(u, b, edges, j - 1).push(axis).push(axis.negated())
    }
}

/// The axes that the first `i` edges of the first body give with all edges
/// of the second.
pub open spec fn edge_rows(a: Seq<Vector>, b: Seq<Vector>, edges: Seq<(usize, usize)>, i: int) -> Seq<
    Vector,
>
    decreases i,
{
    if i <= 0 {
        Seq::empty()
    } else {
        edge_rows(a, b, edges, i - 1) + edge_row(
            edge_vector(a, edges[i - 1]),
            b,
            edges,
            edges.len() as int,
        )
    }
}

/// The axes at right angles to an edge of each body.
pub open spec fn edge_axes_spec(a: Seq<Vector>, b: Seq<Vector>, edges: Seq<(usize, usize)>) -> Seq<
    Vector,
> {
    edge_rows(a, b, edges, edges.len() as int)
}

/// The direction at right angles to two edges, of length `ONE`; zero where
/// the edges are close to parallel.
pub fn axis_of_edges(u: &Vec3, v: &Vec3) -> (r: Vec3)
    requires
        u@.within(MINKOWSKI_MAX as int),
        v@.within(MINKOWSKI_MAX as int),
    ensures
        r@ == edge_axis(u@, v@),
        r@.within(ONE as int),
{
    proof {
        lemma_vector_products(u@, v@, MINKOWSKI_MAX as int, MINKOWSKI_MAX as int);
        lemma_vector_products(u@, u@, MINKOWSKI_MAX as int, MINKOWSKI_MAX as int);
        lemma_vector_products(v@, v@, MINKOWSKI_MAX as int, MINKOWSKI_MAX as int);
        lemma_vector_products(
            u@.cross(v@),
            u@.cross(v@),
            0x8_0000_0000_0000,
            0x8_0000_0000_0000,
        );
    }
    let c = u.cross(v);
    if c.is_zero() {
        return Vec3::zero();
    }
    let cc = c.dot(&c);
    let uu = u.dot(u);
    let vv = v.dot(v);
    proof {
        lemma_product_bound(uu as int, vv as int, 0xc_0000_0000_0000, 0xc_0000_0000_0000);
        lemma_square_positive(c@);
    }
    if cc * PARALLEL_RATIO < uu * vv {
        return Vec3::zero();
    }
    unit_vector(&c)
}

/// The vector along an edge of a body in the world.
fn vector_of_edge(points: &Vec<Vec3>, e: (usize, usize)) -> (r: Vec3)
    requires
        all_within(vectors(points@), COORD_MAX as int),
        e.0 < points@.len(),
        e.1 < points@.len(),
    ensures
        r@ == edge_vector(vectors(points@), e),
        r@.within(MINKOWSKI_MAX as int),
{
    proof {
        assert(vectors(points@)[e.0 as int].within(COORD_MAX as int));
        assert(vectors(points@)[e.1 as int].within(COORD_MAX as int));
    }
    points[e.1].minus(&points[e.0])
}

/// The axes at right angles to an edge of each of two bodies, given by
/// their corners in the world.
pub fn edge_axes(a: &Vec<Vec3>, b: &Vec<Vec3>, polytope: &Polytope) -> (r: Vec<Vec3>)
    requires
        polytope.wf(),
        a@.len() == polytope.vertices@.len(),
        b@.len() == polytope.vertices@.len(),
        all_within(vectors(a@), COORD_MAX as int),
        all_within(vectors(b@), COORD_MAX as int),
    ensures
        vectors(r@) == edge_axes_spec(vectors(a@), vectors(b@), polytope.edges@),
        r@.len() == 2 * (polytope.edges@.len() * polytope.edges@.len()),
        all_within(vectors(r@), AXIS_MAX as int),
{
    let ghost ma = vectors(a@);
    let ghost mb = vectors(b@);
    let ghost edges = polytope.edges@;
    let n = polytope.edges.len();
    let mut r: Vec<Vec3> = Vec::new();
    let mut i: usize = 0;
    proof {
        assert(0 * n == 0) by (nonlinear_arith);
    }
    while i < n
        invariant
            polytope.wf(),
            ma == vectors(a@),
            mb == vectors(b@),
            edges == polytope.edges@,
            n == edges.len(),
            a@.len() == polytope.vertices@.len(),
            b@.len() == polytope.vertices@.len(),
            all_within(ma, COORD_MAX as int),
            all_within(mb, COORD_MAX as int),
            0 <= i <= n,
            vectors(r@) == edge_rows(ma, mb, edges, i as int),
            r@.len() == 2 * (i * n),
            all_within(vectors(r@), AXIS_MAX as int),
        decreases n - i,
    {
        let u = vector_of_edge(a, polytope.edges[i]);
        let ghost before = vectors(r@);
        let mut j: usize = 0;
        while j < n
            invariant
                polytope.wf(),
                ma == vectors(a@),
                mb == vectors(b@),
                edges == polytope.edges@,
                n == edges.len(),
                b@.len() == polytope.vertices@.len(),
                all_within(mb, COORD_MAX as int),
                0 <= i < n,
                0 <= j <= n,
                u@ == edge_vector(ma, edges[i as int]),
                u@.within(MINKOWSKI_MAX as int),
                vectors(r@) == before + edge_row(u@, mb, edges, j as int),
                r@.len() == 2 * (i * n) + 2 * j,
                all_within(vectors(r@), AXIS_MAX as int),
            decreases n - j,
        {
            let v = vector_of_edge(b, polytope.edges[j]);
            let axis = axis_of_edges(&u, &v);
            let ghost row = vectors(r@);
            r.push(axis);
            r.push(axis.negated());
            proof {
                assert(vectors(r@) =~= row.push(axis@).push(axis@.negated()));
                assert forall|k: int| 0 <= k < vectors(r@).len() implies (#[trigger] vectors(
                    r@,
                )[k]).within(AXIS_MAX as int) by {}
            }
            j += 1;
        }
        proof {
            assert((i + 1) * n == i * n + n) by (nonlinear_arith);
        }
        i += 1;
    }
    r
}

/// The greatest separation of the second body from the first along the
/// axes at right angles to an edge of each.
pub fn edge_axes_separation(pair: (&Rigid, &Rigid), polytope: &Polytope) -> (r: Option<AxisQuery>)
    requires
        pair.0.frame.wf(),
        pair.1.frame.wf(),
        polytope.wf(),
    ensures
        answers(
            r,
            pair.0.world_points(polytope@),
            pair.1.world_points(polytope@),
            edge_axes_spec(
                pair.0.world_points(polytope@),
                pair.1.world_points(polytope@),
                polytope.edges@,
            ),
        ),
{
    let a = pair.0.world_vertices(polytope);
    let b = pair.1.world_vertices(polytope);
    let axes = edge_axes(&a, &b, polytope);
    best_separation(&a, &b, &axes)
}

/// By how much the separation along an edge axis must exceed that along a
/// face axis for the contact to count as one between edges: sixteen lattice
/// units. Below that the face is preferred.
pub const FACE_BIAS: i128 = 0x10_0000;

/// Which axis two bodies in contact are nearest to parting along.
#[derive(Clone, Copy, Debug, PartialEq, Eq, Structural)]
pub enum ContactKind {
    /// The outward normal of a face of the first body.
    FaceOfFirst,
    /// The outward normal of a face of the second body.
    FaceOfSecond,
    /// A direction at right angles to an edge of each body.
    Edge,
    /// The direction that the search for the depth of the overlap settles
    /// on.
    Depth,
}

/// A contact: the axis of the contact, its index among the axes of its
/// kind, the separation along it, which is negative, and the least overlap
/// along any axis that was tried, which is positive.
pub struct ContactView {
    pub kind: ContactKind,
    pub index: int,
    pub axis: Vector,
    pub separation: int,
    pub overlap: int,
}

/// The contact between faces: the face normal, of either body, along which
/// the separation is greater; that of the first body where they are equal.
pub open spec fn contact_of_faces(
    faces_a: Seq<Vector>,
    i: int,
    s1: int,
    faces_b: Seq<Vector>,
    j: int,
    s2: int,
    overlap: int,
) -> ContactView {
    if s1 >= s2 {
        ContactView {
            kind: ContactKind::FaceOfFirst,
            index: i,
            axis: faces_a[i],
            separation: s1,
            overlap,
        }
    } else {
        ContactView {
            kind: ContactKind::FaceOfSecond,
            index: j,
            axis: faces_b[j],
            separation: s2,
            overlap,
        }
    }
}

/// The least of the overlaps along two axes with the separations `s1` and
/// `s2`.
pub open spec fn least_overlap(s1: int, s2: int) -> int {
    if s1 >= s2 {
        -s1
    } else {
        -s2
    }
}

/// The contact of two bodies with the corners `a` and `b`, given the face
/// axes of each and the edge axes of both.
///
/// There is none where a face axis or an edge axis has a separation that is
/// not negative, nor where a body has no face axis. Else the contact is one
/// between faces, unless the separation along the best edge axis exceeds
/// that along the best face axis of either body by `FACE_BIAS` or more.
pub open spec fn contact_spec(
    a: Seq<Vector>,
    b: Seq<Vector>,
    faces_a: Seq<Vector>,
    faces_b: Seq<Vector>,
    edges: Seq<Vector>,
) -> Option<ContactView> {
    match (best_axis(a, b, faces_a), best_axis(b, a, faces_b)) {
        (Some(i), Some(j)) => {
            let s1 = separation(a, b, faces_a[i]);
            let s2 = separation(b, a, faces_b[j]);
            if s1 >= 0 || s2 >= 0 {
                None
            } else {
                match best_axis(a, b, edges) {
                    Some(k) => {
                        let s3 = separation(a, b, edges[k]);
                        if s3 >= 0 {
                            None
                        } else if s1 + FACE_BIAS > s3 && s2 + FACE_BIAS > s3 {
                            Some(
                                contact_of_faces(
                                    faces_a,
                                    i,
                                    s1,
                                    faces_b,
                                    j,
                                    s2,
                                    least_overlap(-least_overlap(s1, s2), s3),
                                ),
                            )
                        } else {
                            Some(
                                ContactView {
                                    kind: ContactKind::Edge,
                                    index: k,
                                    axis: edges[k],
                                    separation: s3,
                                    overlap: least_overlap(-least_overlap(s1, s2), s3),
                                },
                            )
                        }
                    },
                    None => Some(
                        contact_of_faces(faces_a, i, s1, faces_b, j, s2, least_overlap(s1, s2)),
                    ),
                }
            }
        },
        _ => None,
    }
}

/// The contact of two bodies.
pub open spec fn sat_spec(first: &Rigid, second: &Rigid, shape: Shape) -> Option<
    ContactView,
> {
    contact_spec(
        first.world_points(shape),
        second.world_points(shape),
        face_axes_spec(first, shape),
        face_axes_spec(second, shape),
        edge_axes_spec(
            first.world_points(shape),
            second.world_points(shape),
            shape.edges,
        ),
    )
}

/// A contact with machine coordinates.
#[derive(Clone, Copy, Debug)]
pub struct Contact {
    pub kind: ContactKind,
    pub index: usize,
    pub axis: Vec3,
    pub separation: i128,
    pub overlap: i128,
}

impl View for Contact {
    type V = ContactView;

    open spec fn view(&self) -> ContactView {
        ContactView {
            kind: self.kind,
            index: self.index as int,
            axis: self.axis@,
            separation: self.separation as int,
            overlap: self.overlap as int,
        }
    }
}

/// The mathematical reading of what the contact query returns.
pub open spec fn contact_view(r: Option<Contact>) -> Option<ContactView> {
    match r {
        Some(c) => Some(c@),
        None => None,
    }
}

/// Where a face axis or an edge axis that is not zero has a separation that
/// is not negative, there is no contact.
pub proof fn lemma_separating_axis_excludes_contact(
    a: Seq<Vector>,
    b: Seq<Vector>,
    faces_a: Seq<Vector>,
    faces_b: Seq<Vector>,
    edges: Seq<Vector>,
    k: int,
)
    ensures
        0 <= k < faces_a.len() && faces_a[k] != Vector::zero() && separation(a, b, faces_a[k]) >= 0
            ==> contact_spec(a, b, faces_a, faces_b, edges) is None,
        0 <= k < faces_b.len() && faces_b[k] != Vector::zero() && separation(b, a, faces_b[k]) >= 0
            ==> contact_spec(a, b, faces_a, faces_b, edges) is None,
        0 <= k < edges.len() && edges[k] != Vector::zero() && separation(a, b, edges[k]) >= 0
            ==> contact_spec(a, b, faces_a, faces_b, edges) is None,
{
    lemma_best_axis(a, b, faces_a);
    lemma_best_axis(b, a, faces_b);
    lemma_best_axis(a, b, edges);
}

/// The axis parts the two bodies, one way or the other.
pub open spec fn parts(a: Seq<Vector>, b: Seq<Vector>, axis: Vector) -> bool {
    separates(a, b, axis) || separates(b, a, axis)
}

/// Two bodies that have face axes and are found without contact are apart:
/// one of the axes parts them.
pub proof fn lemma_no_contact_is_apart(
    a: Seq<Vector>,
    b: Seq<Vector>,
    faces_a: Seq<Vector>,
    faces_b: Seq<Vector>,
    edges: Seq<Vector>,
)
    requires
        a.len() > 0,
        b.len() > 0,
        has_axis(faces_a),
        has_axis(faces_b),
        contact_spec(a, b, faces_a, faces_b, edges) is None,
    ensures
        exists|axis: Vector| #[trigger] parts(a, b, axis),
{
    lemma_best_axis(a, b, faces_a);
    lemma_best_axis(b, a, faces_b);
    lemma_best_axis(a, b, edges);
    let i = best_axis(a, b, faces_a)->Some_0;
    let j = best_axis(b, a, faces_b)->Some_0;
    lemma_separation_separates(a, b, faces_a[i]);
    lemma_separation_separates(b, a, faces_b[j]);
    if separation(a, b, faces_a[i]) >= 0 {
        assert(parts(a, b, faces_a[i]));
    } else if separation(b, a, faces_b[j]) >= 0 {
        assert(parts(a, b, faces_b[j]));
    } else {
        let k = best_axis(a, b, edges)->Some_0;
        lemma_separation_separates(a, b, edges[k]);
        assert(parts(a, b, edges[k]));
    }
}

/// Where some axis is not zero, one of the axes is the best.
pub proof fn lemma_best_axis(a: Seq<Vector>, b: Seq<Vector>, axes: Seq<Vector>)
    ensures
        match best_axis(a, b, axes) {
            Some(k) => is_best_axis(a, b, axes, k),
            None => forall|j: int| 0 <= j < axes.len() ==> (#[trigger] axes[j]) == Vector::zero(),
        },
{
    if has_axis(axes) {
        assert(axes.take(axes.len() as int) =~= axes);
        let k = lemma_best_axis_exists(a, b, axes, axes.len() as int);
        lemma_best_axis_unique(a, b, axes, k);
    } else {
        assert forall|j: int| 0 <= j < axes.len() implies (#[trigger] axes[j])
            == Vector::zero() by {}
    }
}

/// Among the first `n` axes, if one is not zero, one is the best.
proof fn lemma_best_axis_exists(a: Seq<Vector>, b: Seq<Vector>, axes: Seq<Vector>, n: int) -> (k:
    int)
    requires
        0 <= n <= axes.len(),
        has_axis(axes.take(n)),
    ensures
        is_best_axis(a, b, axes.take(n), k),
    decreases n,
{
    let head = axes.take(n);
    let w = choose|w: int| 0 <= w < head.len() && (#[trigger] head[w]) != Vector::zero();
    let before = axes.take(n - 1);
    if exists|j: int| 0 <= j < n - 1 && (#[trigger] before[j]) != Vector::zero() {
        let k = lemma_best_axis_exists(a, b, axes, n - 1);
        if head[n - 1] != Vector::zero() && separation(a, b, head[n - 1]) > separation(
            a,
            b,
            head[k],
        ) {
            assert forall|j: int|
                0 <= j < head.len() && (#[trigger] head[j]) != Vector::zero() implies separation(
                a,
                b,
                head[j],
            ) <= separation(a, b, head[n - 1]) by {}
            assert forall|j: int|
                0 <= j < n - 1 && (#[trigger] head[j]) != Vector::zero() implies separation(
                a,
                b,
                head[j],
            ) < separation(a, b, head[n - 1]) by {}
            n - 1
        } else {
            assert forall|j: int|
                0 <= j < head.len() && (#[trigger] head[j]) != Vector::zero() implies separation(
                a,
                b,
                head[j],
            ) <= separation(a, b, head[k]) by {}
            assert forall|j: int|
                0 <= j < k && (#[trigger] head[j]) != Vector::zero() implies separation(
                a,
                b,
                head[j],
            ) < separation(a, b, head[k]) by {}
            k
        }
    } else {
        assert(w == n - 1) by {}
        assert forall|j: int| 0 <= j < n - 1 implies (#[trigger] head[j]) == Vector::zero() by {}
        n - 1
    }
}

/// The contact of two bodies given by their corners and axes.
fn contact_from(
    first: Option<AxisQuery>,
    second: Option<AxisQuery>,
    edge: Option<AxisQuery>,
    faces_a: &Vec<Vec3>,
    faces_b: &Vec<Vec3>,
    edges: &Vec<Vec3>,
    Ghost(a): Ghost<Seq<Vector>>,
    Ghost(b): Ghost<Seq<Vector>>,
) -> (r: Option<Contact>)
    requires
        answers(first, a, b, vectors(faces_a@)),
        answers(second, b, a, vectors(faces_b@)),
        answers(edge, a, b, vectors(edges@)),
        first matches Some(q) ==> -SEPARATION_MAX <= q.separation < 0,
        second matches Some(q) ==> -SEPARATION_MAX <= q.separation < 0,
        edge matches Some(q) ==> -SEPARATION_MAX <= q.separation,
        all_within(vectors(faces_a@), AXIS_MAX as int),
        all_within(vectors(faces_b@), AXIS_MAX as int),
        all_within(vectors(edges@), AXIS_MAX as int),
    ensures
        contact_view(r) == contact_spec(a, b, vectors(faces_a@), vectors(faces_b@), vectors(edges@)),
        r matches Some(c) ==> {
            &&& c.axis@.within(AXIS_MAX as int)
            &&& c.axis@ != Vector::zero()
            &&& -SEPARATION_MAX <= c.separation < 0
            &&& 0 < c.overlap <= -c.separation
            &&& c.kind == ContactKind::FaceOfFirst ==> c.index < faces_a@.len()
            &&& c.kind == ContactKind::FaceOfSecond ==> c.index < faces_b@.len()
            &&& c.kind == ContactKind::Edge ==> c.index < edges@.len()
        },
{
    let (q1, q2) = match (first, second) {
        (Some(q1), Some(q2)) => (q1, q2),
        _ => {
            return None;
        },
    };
    proof {
        lemma_best_axis(a, b, vectors(faces_a@));
        lemma_best_axis(b, a, vectors(faces_b@));
        lemma_best_axis(a, b, vectors(edges@));
    }
    let best_face = if q1.separation >= q2.separation {
        q1.separation
    } else {
        q2.separation
    };
    let best = match edge {
        Some(q3) => if best_face >= q3.separation {
            best_face
        } else {
            q3.separation
        },
        None => best_face,
    };
    let face = if q1.separation >= q2.separation {
        Contact {
            kind: ContactKind::FaceOfFirst,
            index: q1.index,
            axis: q1.axis,
            separation: q1.separation,
            overlap: -best,
        }
    } else {
        Contact {
            kind: ContactKind::FaceOfSecond,
            index: q2.index,
            axis: q2.axis,
            separation: q2.separation,
            overlap: -best,
        }
    };
    match edge {
        Some(q3) => {
            if q3.separation >= 0 {
                None
            } else if q1.separation + FACE_BIAS > q3.separation && q2.separation + FACE_BIAS
                > q3.separation {
                Some(face)
            } else {
                Some(
                    Contact {
                        kind: ContactKind::Edge,
                        index: q3.index,
                        axis: q3.axis,
                        separation: q3.separation,
                        overlap: -best,
                    },
                )
            }
        },
        None => Some(face),
    }
}

/// Tests two bodies for contact along the axes of their faces and edges.
///
/// Returns the contact that `sat_spec` describes. The axis of a contact is
/// not zero and the separation along it is negative.
pub fn contact(pair: (&Rigid, &Rigid), polytope: &Polytope) -> (r: Option<Contact>)
    requires
        pair.0.frame.wf(),
        pair.1.frame.wf(),
        polytope.wf(),
    ensures
        contact_view(r) == sat_spec(pair.0, pair.1, polytope@),
        r matches Some(c) ==> {
            &&& c.axis@.within(AXIS_MAX as int)
            &&& c.axis@ != Vector::zero()
            &&& -SEPARATION_MAX <= c.separation < 0
            &&& 0 < c.overlap <= -c.separation
            &&& c.kind != ContactKind::Edge ==> c.index < polytope.normals@.len()
            &&& c.kind == ContactKind::Edge ==> c.index < 2 * (polytope.edges@.len()
                * polytope.edges@.len())
        },
{
    let a = pair.0.world_vertices(polytope);
    let b = pair.1.world_vertices(polytope);
    let faces_a = face_axes(pair.0, polytope);
    let first = best_separation(&a, &b, &faces_a);
    proof {
        lemma_best_axis(vectors(a@), vectors(b@), vectors(faces_a@));
    }
    match first {
        Some(q) => {
            if q.separation >= 0 {
                return None;
            }
        },
        None => {
            return None;
        },
    }
    let faces_b = face_axes(pair.1, polytope);
    let second = best_separation(&b, &a, &faces_b);
    proof {
        lemma_best_axis(vectors(b@), vectors(a@), vectors(faces_b@));
    }
    match second {
        Some(q) => {
            if q.separation >= 0 {
                return None;
            }
        },
        None => {
            return None;
        },
    }
    let edges = edge_axes(&a, &b, polytope);
    let edge = best_separation(&a, &b, &edges);
    contact_from(first, second, edge, &faces_a, &faces_b, &edges, Ghost(vectors(a@)), Ghost(vectors(b@)))
}

} // verus!
