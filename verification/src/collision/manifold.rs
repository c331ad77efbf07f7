//! Contact points: where two bodies in contact touch, and how deep.
//!
//! Between faces, the face of the one body that looks most towards the
//! reference face of the other is cut down to what lies over the reference
//! face; what is left of its outline, as far as it is in the reference
//! body, gives the points. Between edges, the point is halfway between the
//! nearest points of the two edges.

use vstd::prelude::*;
use crate::collision::epa::{epa_of, epa_spec};
use crate::collision::sat::{
    contact, face_axes, face_axes_spec, sat_spec, separation, separation_along, AxisQuery,
    Contact, ContactKind, ContactView, AXIS_MAX, SEPARATION_MAX,
};
use crate::collision::support::{lemma_support_point, support_of, support_point};
use crate::geometry::{all_within, unit_of, unit_vector, vectors, Polytope, Shape};
use crate::limits::{COORD_MAX, MINKOWSKI_MAX, ONE};
use crate::numeric::{
    lemma_divides_between, lemma_round_div_bounded, lemma_round_div_sign, lemma_scaled_fits,
    round_div, rounded_quotient, scaled_by_quotient, scaled_quotient,
};
use crate::rigid::Rigid;
use crate::vector::{lemma_product_bound, lemma_vector_products, Vec3, Vector};

verus! {

/// Bound on the coordinates of the normal of a side plane.
pub const SIDE_MAX: i128 = 0xc00_0000_0000;

/// How far the point `p` is inside the plane through `at` whose normal
/// `side` points inwards, times the length of the normal.
pub open spec fn inside_by(side: Vector, at: Vector, p: Vector) -> int {
    side.dot(p.minus(at))
}

/// The point where the way from `inner`, which is inside the plane or on
/// it, to `outer`, which is outside, crosses the plane, rounded to the
/// lattice.
pub open spec fn crossing(side: Vector, at: Vector, inner: Vector, outer: Vector) -> Vector {
    let din = inside_by(side, at, inner);
    let dout = inside_by(side, at, outer);
    inner.plus(scaled_quotient(outer.minus(inner), din, din - dout))
}

/// What the side of a polygon from `prev` to `cur` leaves of itself inside
/// the plane: the point where it comes in or goes out, and its end `cur` if
/// that is inside.
pub open spec fn clip_piece(side: Vector, at: Vector, prev: Vector, cur: Vector) -> Seq<Vector> {
    let dp = inside_by(side, at, prev);
    let dc = inside_by(side, at, cur);
    if dc >= 0 {
        if dp >= 0 {
            seq![cur]
        } else {
            seq![crossing(side, at, cur, prev), cur]
        }
    } else if dp >= 0 {
        seq![crossing(side, at, prev, cur)]
    } else {
        Seq::empty()
    }
}

/// The corner of a polygon before the corner `k`, going round.
pub open spec fn corner_before(polygon: Seq<Vector>, k: int) -> Vector {
    if k == 0 {
        polygon[polygon.len() - 1]
    } else {
        polygon[k - 1]
    }
}

/// What the first `k` sides of a polygon leave of themselves inside the
/// plane, the side `i` being the one that ends in the corner `i`.
pub open spec fn clip_upto(polygon: Seq<Vector>, side: Vector, at: Vector, k: int) -> Seq<Vector>
    decreases k,
{
    if k <= 0 {
        Seq::empty()
    } else {
        clip_upto(polygon, side, at, k - 1) + clip_piece(
            side,
            at,
            corner_before(polygon, k - 1),
            polygon[k - 1],
        )
    }
}

/// The polygon cut down to what lies inside the plane.
pub open spec fn clipped(polygon: Seq<Vector>, side: Vector, at: Vector) -> Seq<Vector> {
    clip_upto(polygon, side, at, polygon.len() as int)
}

/// Crossing points lie between the two points, coordinate by coordinate.
proof fn lemma_crossing_within(side: Vector, at: Vector, inner: Vector, outer: Vector)
    requires
        inside_by(side, at, inner) >= 0,
        inside_by(side, at, outer) < 0,
        inner.within(COORD_MAX as int),
        outer.within(COORD_MAX as int),
    ensures
        crossing(side, at, inner, outer).within(COORD_MAX as int),
{
    let din = inside_by(side, at, inner);
    let dout = inside_by(side, at, outer);
    lemma_divides_between(inner.x, outer.x, din, -dout);
    lemma_divides_between(inner.y, outer.y, din, -dout);
    lemma_divides_between(inner.z, outer.z, din, -dout);
}

/// How far the point is inside the plane.
fn inside_of(side: &Vec3, at: &Vec3, p: &Vec3) -> (r: i128)
    requires
        side@.within(SIDE_MAX as int),
        at@.within(COORD_MAX as int),
        p@.within(COORD_MAX as int),
    ensures
        r == inside_by(side@, at@, p@),
        -0x48_0000_0000_0000_0000 <= r <= 0x48_0000_0000_0000_0000,
{
    let way = p.minus(at);
    proof {
        lemma_vector_products(side@, way@, SIDE_MAX as int, MINKOWSKI_MAX as int);
    }
    side.dot(&way)
}

/// The point where the way from an inner point to an outer point crosses
/// the plane.
fn crossing_of(side: &Vec3, at: &Vec3, inner: &Vec3, outer: &Vec3) -> (r: Vec3)
    requires
        side@.within(SIDE_MAX as int),
        at@.within(COORD_MAX as int),
        inner@.within(COORD_MAX as int),
        outer@.within(COORD_MAX as int),
        inside_by(side@, at@, inner@) >= 0,
        inside_by(side@, at@, outer@) < 0,
    ensures
        r@ == crossing(side@, at@, inner@, outer@),
        r@.within(COORD_MAX as int),
{
    let din = inside_of(side, at, inner);
    let dout = inside_of(side, at, outer);
    let way = outer.minus(inner);
    proof {
        lemma_scaled_fits(way@, din as int, MINKOWSKI_MAX as int, 0x48_0000_0000_0000_0000);
        lemma_crossing_within(side@, at@, inner@, outer@);
    }
    let step = scaled_by_quotient(&way, din, din - dout);
    inner.plus(&step)
}

/// Cuts a polygon down to what lies inside the plane through `at` whose
/// normal `side` points inwards.
///
/// The corners that are inside stay, in their order, and where a side of the
/// polygon crosses the plane the crossing point is put in.
pub fn clip(polygon: &Vec<Vec3>, side: &Vec3, at: &Vec3) -> (r: Vec<Vec3>)
    requires
        all_within(vectors(polygon@), COORD_MAX as int),
        side@.within(SIDE_MAX as int),
        at@.within(COORD_MAX as int),
    ensures
        vectors(r@) == clipped(vectors(polygon@), side@, at@),
        all_within(vectors(r@), COORD_MAX as int),
{
    let ghost model = vectors(polygon@);
    let mut r: Vec<Vec3> = Vec::new();
    let n = polygon.len();
    let mut i: usize = 0;
    while i < n
        invariant
            model == vectors(polygon@),
            n == polygon@.len(),
            all_within(model, COORD_MAX as int),
            side@.within(SIDE_MAX as int),
            at@.within(COORD_MAX as int),
            0 <= i <= n,
            vectors(r@) == clip_upto(model, side@, at@, i as int),
            all_within(vectors(r@), COORD_MAX as int),
        decreases n - i,
    {
        let cur = polygon[i];
        let prev = if i == 0 {
            polygon[n - 1]
        } else {
            polygon[i - 1]
        };
        proof {
            assert(model[i as int] == cur@);
            assert(corner_before(model, i as int) == prev@);
        }
        let dp = inside_of(side, at, &prev);
        let dc = inside_of(side, at, &cur);
        let ghost before = vectors(r@);
        if dc >= 0 {
            if dp < 0 {
                let x = crossing_of(side, at, &cur, &prev);
                r.push(x);
            }
            r.push(cur);
        } else if dp >= 0 {
            let x = crossing_of(side, at, &prev, &cur);
            r.push(x);
        }
        proof {
            let piece = clip_piece(side@, at@, prev@, cur@);
            assert(vectors(r@) =~= before + piece);
            assert forall|k: int| 0 <= k < vectors(r@).len() implies (#[trigger] vectors(
                r@,
            )[k]).within(COORD_MAX as int) by {}
        }
        i += 1;
    }
    r
}

/// Bound on the coordinates of a point of contact.
pub const POINT_MAX: i128 = 0x400_0000;

/// A point of contact: where, and how deep in the reference body, times
/// the length of the normal.
pub struct ContactPointView {
    pub position: Vector,
    pub penetration: int,
}

/// A point of contact with machine coordinates.
#[derive(Clone, Copy, Debug, PartialEq, Eq, Structural)]
pub struct ContactPoint {
    pub position: Vec3,
    pub penetration: i128,
}

impl ContactPoint {
    /// The point is in range and is not in front of the reference body.
    pub open spec fn in_range(&self) -> bool {
        &&& self.position@.within(POINT_MAX as int)
        &&& 0 <= self.penetration <= SEPARATION_MAX
    }
}

impl View for ContactPoint {
    type V = ContactPointView;

    open spec fn view(&self) -> ContactPointView {
        ContactPointView { position: self.position@, penetration: self.penetration as int }
    }
}

/// The mathematical reading of a sequence of contact points.
pub open spec fn point_views(s: Seq<ContactPoint>) -> Seq<ContactPointView> {
    s.map_values(|c: ContactPoint| c@)
}

/// `axes[j]` looks most against the direction `n`: its product with `n` is
/// the least, and it is the first such.
pub open spec fn is_most_opposed(axes: Seq<Vector>, n: Vector, j: int) -> bool {
    &&& 0 <= j < axes.len()
    &&& forall|k: int| 0 <= k < axes.len() ==> axes[j].dot(n) <= (#[trigger] axes[k]).dot(n)
    &&& forall|k: int| 0 <= k < j ==> axes[j].dot(n) < (#[trigger] axes[k]).dot(n)
}

/// The index of the axis that looks most against `n`.
pub open spec fn most_opposed(axes: Seq<Vector>, n: Vector) -> int {
    choose|j: int| is_most_opposed(axes, n, j)
}

/// Only one axis looks most against `n`.
pub proof fn lemma_most_opposed_unique(axes: Seq<Vector>, n: Vector, j: int)
    requires
        is_most_opposed(axes, n, j),
    ensures
        most_opposed(axes, n) == j,
{
    let c = most_opposed(axes, n);
    if c < j {
        assert(axes[j].dot(n) < axes[c].dot(n));
    }
    if j < c {
        assert(axes[c].dot(n) < axes[j].dot(n));
    }
}

/// The four corners of a face in the world.
pub open spec fn face_corners(points: Seq<Vector>, face: [usize; 4]) -> Seq<Vector> {
    seq![
        points[face[0] as int],
        points[face[1] as int],
        points[face[2] as int],
        points[face[3] as int],
    ]
}

/// The normal of the side plane of a face that stands on the edge from
/// `from` to `to`; it points into the face, whose outward normal is `n` and
/// whose corners go round counterclockwise.
pub open spec fn side_normal(n: Vector, from: Vector, to: Vector) -> Vector {
    n.cross(to.minus(from))
}

/// The polygon cut down by the first `k` side planes of the face with the
/// given corners and outward normal.
pub open spec fn trimmed(polygon: Seq<Vector>, n: Vector, corners: Seq<Vector>, k: int) -> Seq<
    Vector,
>
    decreases k,
{
    if k <= 0 {
        polygon
    } else {
        let from = corners[k - 1];
        let to = corners[if k == corners.len() {
            0
        } else {
            k
        }];
        clipped(trimmed(polygon, n, corners, k - 1), side_normal(n, from, to), from)
    }
}

/// How deep the point is behind the plane through `at` with the outward
/// normal `n`, times the length of the normal.
pub open spec fn depth_behind(n: Vector, at: Vector, p: Vector) -> int {
    n.dot(at) - n.dot(p)
}

/// Those of the first `k` points that are not in front of the plane, each
/// with its depth.
pub open spec fn touching(points: Seq<Vector>, n: Vector, at: Vector, k: int) -> Seq<
    ContactPointView,
>
    decreases k,
{
    if k <= 0 {
        Seq::empty()
    } else {
        let rest = touching(points, n, at, k - 1);
        let p = points[k - 1];
        if depth_behind(n, at, p) >= 0 {
            rest.push(ContactPointView { position: p, penetration: depth_behind(n, at, p) })
        } else {
            rest
        }
    }
}

/// At most four of the points: all of them, or the first and those a
/// quarter, a half and three quarters of the way round.
pub open spec fn thinned(points: Seq<ContactPointView>) -> Seq<ContactPointView> {
    if points.len() <= 4 {
        points
    } else {
        let n = points.len() as int;
        let last = n - n / 4;
        seq![points[0], points[n / 4], points[n / 2], points[last]]
    }
}

/// The points of contact between the face `face` of the reference body,
/// whose outward normal in the world is `n`, and the incident body.
///
/// The face of the incident body that looks most against `n` is cut down by
/// the four side planes of the reference face; of what is left of its
/// outline the points that are not in front of the reference face are
/// taken, and of those at most four.
pub open spec fn face_points(
    reference: Seq<Vector>,
    incident: Seq<Vector>,
    incident_axes: Seq<Vector>,
    shape: Shape,
    face: int,
    n: Vector,
) -> Seq<ContactPointView> {
    let opposed = shape.faces[most_opposed(incident_axes, n)];
    let corners = face_corners(reference, shape.faces[face]);
    let outline = trimmed(face_corners(incident, opposed), n, corners, 4);
    thinned(touching(outline, n, corners[0], outline.len() as int))
}

/// The index of the axis that looks most against `n`.
pub fn most_opposed_of(axes: &Vec<Vec3>, n: &Vec3) -> (r: usize)
    requires
        axes@.len() > 0,
        all_within(vectors(axes@), AXIS_MAX as int),
        n@.within(AXIS_MAX as int),
    ensures
        r == most_opposed(vectors(axes@), n@),
        r < axes@.len(),
{
    let ghost model = vectors(axes@);
    proof {
        lemma_vector_products(model[0], n@, AXIS_MAX as int, AXIS_MAX as int);
    }
    let mut best: usize = 0;
    let mut least: i128 = axes[0].dot(n);
    let mut i: usize = 1;
    while i < axes.len()
        invariant
            model == vectors(axes@),
            all_within(model, AXIS_MAX as int),
            n@.within(AXIS_MAX as int),
            1 <= i <= axes@.len(),
            0 <= best < i,
            least == model[best as int].dot(n@),
            forall|k: int| 0 <= k < i ==> least <= (#[trigger] model[k]).dot(n@),
            forall|k: int| 0 <= k < best ==> least < (#[trigger] model[k]).dot(n@),
        decreases axes@.len() - i,
    {
        proof {
            lemma_vector_products(model[i as int], n@, AXIS_MAX as int, AXIS_MAX as int);
        }
        let d = axes[i].dot(n);
        if d < least {
            best = i;
            least = d;
        }
        i += 1;
    }
    proof {
        lemma_most_opposed_unique(model, n@, best as int);
    }
    best
}

/// The four corners of a face in the world.
pub fn corners_of(points: &Vec<Vec3>, face: &[usize; 4]) -> (r: Vec<Vec3>)
    requires
        all_within(vectors(points@), COORD_MAX as int),
        forall|k: int| 0 <= k < 4 ==> (#[trigger] face[k]) < points@.len(),
    ensures
        vectors(r@) == face_corners(vectors(points@), *face),
        r@.len() == 4,
        all_within(vectors(r@), COORD_MAX as int),
{
    let ghost model = vectors(points@);
    proof {
        assert(face[0] < points@.len() && face[1] < points@.len() && face[2] < points@.len()
            && face[3] < points@.len());
        assert(model[face[0] as int].within(COORD_MAX as int));
        assert(model[face[1] as int].within(COORD_MAX as int));
        assert(model[face[2] as int].within(COORD_MAX as int));
        assert(model[face[3] as int].within(COORD_MAX as int));
    }
    let r = vec![points[face[0]], points[face[1]], points[face[2]], points[face[3]]];
    r
}

/// Cuts a polygon down by the four side planes of a face.
pub fn trim(polygon: Vec<Vec3>, n: &Vec3, corners: &Vec<Vec3>) -> (r: Vec<Vec3>)
    requires
        all_within(vectors(polygon@), COORD_MAX as int),
        n@.within(AXIS_MAX as int),
        corners@.len() == 4,
        all_within(vectors(corners@), COORD_MAX as int),
    ensures
        vectors(r@) == trimmed(vectors(polygon@), n@, vectors(corners@), 4),
        all_within(vectors(r@), COORD_MAX as int),
{
    let ghost start = vectors(polygon@);
    let ghost cs = vectors(corners@);
    let mut outline = polygon;
    let mut k: usize = 0;
    while k < 4
        invariant
            0 <= k <= 4,
            corners@.len() == 4,
            cs == vectors(corners@),
            all_within(cs, COORD_MAX as int),
            n@.within(AXIS_MAX as int),
            vectors(outline@) == trimmed(start, n@, cs, k as int),
            all_within(vectors(outline@), COORD_MAX as int),
        decreases 4 - k,
    {
        let from = corners[k];
        let to = corners[if k == 3 {
            0
        } else {
            k + 1
        }];
        proof {
            assert(cs[k as int] == from@);
            assert(cs[if k == 3 {
                0int
            } else {
                k + 1
            }].within(COORD_MAX as int));
            lemma_vector_products(n@, to@.minus(from@), AXIS_MAX as int, MINKOWSKI_MAX as int);
        }
        let side = n.cross(&to.minus(&from));
        outline = clip(&outline, &side, &from);
        k += 1;
    }
    outline
}

/// Those of the points that are not in front of the plane through `at`
/// with the outward normal `n`, each with its depth, thinned to four at
/// most.
pub fn points_behind(outline: &Vec<Vec3>, n: &Vec3, at: &Vec3) -> (r: Vec<ContactPoint>)
    requires
        all_within(vectors(outline@), COORD_MAX as int),
        n@.within(AXIS_MAX as int),
        at@.within(COORD_MAX as int),
    ensures
        point_views(r@) == thinned(
            touching(vectors(outline@), n@, at@, outline@.len() as int),
        ),
        r@.len() <= 4,
        forall|i: int| 0 <= i < r@.len() ==> (#[trigger] r@[i]).in_range(),
{
    let ghost model = vectors(outline@);
    proof {
        lemma_vector_products(n@, at@, AXIS_MAX as int, COORD_MAX as int);
    }
    let level = n.dot(at);
    let mut all: Vec<ContactPoint> = Vec::new();
    let mut i: usize = 0;
    while i < outline.len()
        invariant
            model == vectors(outline@),
            all_within(model, COORD_MAX as int),
            n@.within(AXIS_MAX as int),
            level == n@.dot(at@),
            -0x9_0000_0000_00 <= level <= 0x9_0000_0000_00,
            0 <= i <= outline@.len(),
            point_views(all@) == touching(model, n@, at@, i as int),
            forall|k: int| 0 <= k < all@.len() ==> (#[trigger] all@[k]).in_range(),
        decreases outline@.len() - i,
    {
        let p = outline[i];
        proof {
            assert(model[i as int] == p@);
            lemma_vector_products(n@, p@, AXIS_MAX as int, COORD_MAX as int);
        }
        let depth = level - n.dot(&p);
        if depth >= 0 {
            let c = ContactPoint { position: p, penetration: depth };
            all.push(c);
        }
        i += 1;
    }
    let n_all = all.len();
    if n_all <= 4 {
        all
    } else {
        let last = n_all - n_all / 4;
        let r = vec![all[0], all[n_all / 4], all[n_all / 2], all[last]];
        r
    }
}

/// The points of contact between faces, given the best face axis of each
/// body: the body whose axis shows the greater separation is the reference,
/// the first where they are equal.
pub open spec fn face_contact_spec(
    first: &Rigid,
    second: &Rigid,
    shape: Shape,
    q1: AxisQuery,
    q2: AxisQuery,
) -> Seq<ContactPointView> {
    if q1.separation >= q2.separation {
        face_points(
            first.world_points(shape),
            second.world_points(shape),
            face_axes_spec(second, shape),
            shape,
            q1.index as int,
            face_axes_spec(first, shape)[q1.index as int],
        )
    } else {
        face_points(
            second.world_points(shape),
            first.world_points(shape),
            face_axes_spec(first, shape),
            shape,
            q2.index as int,
            face_axes_spec(second, shape)[q2.index as int],
        )
    }
}

/// The points of contact between a face of the reference body and the
/// incident body.
fn points_of_faces(reference: &Rigid, incident: &Rigid, polytope: &Polytope, face: usize) -> (r:
    Vec<ContactPoint>)
    requires
        reference.frame.wf(),
        incident.frame.wf(),
        polytope.wf(),
        face < polytope.normals@.len(),
    ensures
        point_views(r@) == face_points(
            reference.world_points(polytope@),
            incident.world_points(polytope@),
            face_axes_spec(incident, polytope@),
            polytope@,
            face as int,
            face_axes_spec(reference, polytope@)[face as int],
        ),
        r@.len() <= 4,
        forall|i: int| 0 <= i < r@.len() ==> (#[trigger] r@[i]).in_range(),
{
    let rp = reference.world_vertices(polytope);
    let ip = incident.world_vertices(polytope);
    let axes = face_axes(reference, polytope);
    let incident_axes = face_axes(incident, polytope);
    let n = axes[face];
    proof {
        assert(vectors(axes@)[face as int] == n@);
    }
    let opposed = most_opposed_of(&incident_axes, &n);
    proof {
        assert forall|k: int| 0 <= k < 4 implies (#[trigger] polytope.faces@[opposed as int][k])
            < ip@.len() by {}
        assert forall|k: int| 0 <= k < 4 implies (#[trigger] polytope.faces@[face as int][k])
            < rp@.len() by {}
    }
    let corners = corners_of(&rp, &polytope.faces[face]);
    let outline = trim(corners_of(&ip, &polytope.faces[opposed]), &n, &corners);
    let at = corners[0];
    points_behind(&outline, &n, &at)
}

/// The points of contact between faces, given the best face axis of each
/// body: at most four.
pub fn face_contact(pair: (&Rigid, &Rigid), polytope: &Polytope, queries: (AxisQuery, AxisQuery)) -> (r:
    Vec<ContactPoint>)
    requires
        pair.0.frame.wf(),
        pair.1.frame.wf(),
        polytope.wf(),
        queries.0.index < polytope.normals@.len(),
        queries.1.index < polytope.normals@.len(),
    ensures
        point_views(r@) == face_contact_spec(pair.0, pair.1, polytope@, queries.0, queries.1),
        r@.len() <= 4,
        forall|i: int| 0 <= i < r@.len() ==> (#[trigger] r@[i]).in_range(),
{
    if queries.0.separation >= queries.1.separation {
        points_of_faces(pair.0, pair.1, polytope, queries.0.index)
    } else {
        points_of_faces(pair.1, pair.0, polytope, queries.1.index)
    }
}

/// The number held between nothing and `ONE`.
pub open spec fn unit_clamp(x: int) -> int {
    if x < 0 {
        0
    } else if x > ONE {
        ONE as int
    } else {
        x
    }
}

/// The fraction `num / den` as a number between nothing and `ONE`; nothing
/// where `den` is not positive.
pub open spec fn fraction(num: int, den: int) -> int {
    if den <= 0 {
        0
    } else {
        unit_clamp(round_div(num * ONE, den))
    }
}

/// Where on two segments the points nearest to each other lie: for each
/// segment the fraction of the way along it, between nothing and `ONE`.
/// `d1` and `d2` lead along the two segments, and `r` from the start of the
/// second to the start of the first.
pub open spec fn nearest_fractions(d1: Vector, d2: Vector, r: Vector) -> (int, int) {
    let a = d1.dot(d1);
    let e = d2.dot(d2);
    let b = d1.dot(d2);
    let c = d1.dot(r);
    let f = d2.dot(r);
    let s = fraction(b * f - c * e, a * e - b * b);
    let t = b * s + f * ONE;
    if e <= 0 || t < 0 {
        (fraction(-c, a), 0)
    } else if t > e * ONE {
        (fraction(b - c, a), ONE as int)
    } else {
        (s, round_div(t, e))
    }
}

/// The point the fraction `s` of the way along the segment that starts at
/// `p` and leads along `d`.
pub open spec fn point_along(p: Vector, d: Vector, s: int) -> Vector {
    p.plus(scaled_quotient(d, s, ONE as int))
}

/// The point halfway between the nearest points of two segments.
pub open spec fn between_segments(p1: Vector, d1: Vector, p2: Vector, d2: Vector) -> Vector {
    let (s, t) = nearest_fractions(d1, d2, p1.minus(p2));
    scaled_quotient(point_along(p1, d1, s).plus(point_along(p2, d2, t)), 1, 2)
}

/// How far the edge reaches along the axis: the sum over its two ends.
pub open spec fn edge_reach(points: Seq<Vector>, e: (usize, usize), axis: Vector) -> int {
    points[e.0 as int].dot(axis) + points[e.1 as int].dot(axis)
}

/// `edges[i]` is the edge that reaches farthest along the axis, the first
/// of those that reach equally far.
pub open spec fn is_outermost(
    points: Seq<Vector>,
    edges: Seq<(usize, usize)>,
    axis: Vector,
    i: int,
) -> bool {
    &&& 0 <= i < edges.len()
    &&& forall|k: int|
        0 <= k < edges.len() ==> edge_reach(points, #[trigger] edges[k], axis) <= edge_reach(
            points,
            edges[i],
            axis,
        )
    &&& forall|k: int|
        0 <= k < i ==> edge_reach(points, #[trigger] edges[k], axis) < edge_reach(
            points,
            edges[i],
            axis,
        )
}

/// The index of the edge that reaches farthest along the axis.
pub open spec fn outermost(points: Seq<Vector>, edges: Seq<(usize, usize)>, axis: Vector) -> int {
    choose|i: int| is_outermost(points, edges, axis, i)
}

/// Only one edge is the outermost.
pub proof fn lemma_outermost_unique(
    points: Seq<Vector>,
    edges: Seq<(usize, usize)>,
    axis: Vector,
    i: int,
)
    requires
        is_outermost(points, edges, axis, i),
    ensures
        outermost(points, edges, axis) == i,
{
    let c = outermost(points, edges, axis);
    if c < i {
        assert(edge_reach(points, edges[c], axis) < edge_reach(points, edges[i], axis));
    }
    if i < c {
        assert(edge_reach(points, edges[i], axis) < edge_reach(points, edges[c], axis));
    }
}

/// The point of contact between edges, given the axis of the contact and
/// the separation along it: halfway between the nearest points of the edge
/// of the first body that reaches farthest along the axis and the edge of
/// the second that reaches farthest against it, as deep as the separation
/// is negative.
pub open spec fn edge_contact_spec(
    first: &Rigid,
    second: &Rigid,
    shape: Shape,
    axis: Vector,
    separation: int,
) -> ContactPointView {
    let a = first.world_points(shape);
    let b = second.world_points(shape);
    let ea = shape.edges[outermost(a, shape.edges, axis)];
    let eb = shape.edges[outermost(b, shape.edges, axis.negated())];
    let p1 = a[ea.0 as int];
    let p2 = b[eb.0 as int];
    ContactPointView {
        position: between_segments(
            p1,
            a[ea.1 as int].minus(p1),
            p2,
            b[eb.1 as int].minus(p2),
        ),
        penetration: -separation,
    }
}

/// The fraction `num / den` as a number between nothing and `ONE`.
fn fraction_of(num: i128, den: i128) -> (r: i128)
    requires
        -0x120_0000_0000_0000_0000_0000_0000 <= num <= 0x120_0000_0000_0000_0000_0000_0000,
        den <= 0x120_0000_0000_0000_0000_0000_0000,
    ensures
        r == fraction(num as int, den as int),
        0 <= r <= ONE,
{
    if den <= 0 {
        return 0;
    }
    proof {
        lemma_product_bound(
            num as int,
            ONE as int,
            0x120_0000_0000_0000_0000_0000_0000,
            ONE as int,
        );
    }
    let q = rounded_quotient(num * ONE, den);
    if q < 0 {
        0
    } else if q > ONE {
        ONE
    } else {
        q
    }
}

/// Where on two segments the points nearest to each other lie.
fn nearest_of(d1: &Vec3, d2: &Vec3, r: &Vec3) -> (st: (i128, i128))
    requires
        d1@.within(MINKOWSKI_MAX as int),
        d2@.within(MINKOWSKI_MAX as int),
        r@.within(MINKOWSKI_MAX as int),
    ensures
        st.0 == nearest_fractions(d1@, d2@, r@).0,
        st.1 == nearest_fractions(d1@, d2@, r@).1,
        0 <= st.0 <= ONE,
        0 <= st.1 <= ONE,
{
    proof {
        let m = MINKOWSKI_MAX as int;
        lemma_vector_products(d1@, d1@, m, m);
        lemma_vector_products(d2@, d2@, m, m);
        lemma_vector_products(d1@, d2@, m, m);
        lemma_vector_products(d1@, r@, m, m);
        lemma_vector_products(d2@, r@, m, m);
    }
    let a = d1.dot(d1);
    let e = d2.dot(d2);
    let b = d1.dot(d2);
    let c = d1.dot(r);
    let f = d2.dot(r);
    proof {
        let q = 0xc_0000_0000_0000int;
        lemma_product_bound(b as int, f as int, q, q);
        lemma_product_bound(c as int, e as int, q, q);
        lemma_product_bound(a as int, e as int, q, q);
        lemma_product_bound(b as int, b as int, q, q);
        lemma_product_bound(f as int, ONE as int, q, ONE as int);
        lemma_product_bound(e as int, ONE as int, q, ONE as int);
    }
    let s = fraction_of(b * f - c * e, a * e - b * b);
    proof {
        lemma_product_bound(b as int, s as int, 0xc_0000_0000_0000, ONE as int);
    }
    let t = b * s + f * ONE;
    if e <= 0 || t < 0 {
        (fraction_of(-c, a), 0)
    } else if t > e * ONE {
        (fraction_of(b - c, a), ONE)
    } else {
        proof {
            assert(ONE * e == e * ONE) by (nonlinear_arith);
            lemma_round_div_bounded(t as int, e as int, ONE as int);
            lemma_round_div_sign(t as int, e as int);
        }
        (s, rounded_quotient(t, e))
    }
}

/// The point the fraction `s` of the way along a segment.
fn along(p: &Vec3, d: &Vec3, s: i128) -> (r: Vec3)
    requires
        p@.within(COORD_MAX as int),
        d@.within(MINKOWSKI_MAX as int),
        0 <= s <= ONE,
    ensures
        r@ == point_along(p@, d@, s as int),
        r@.within(COORD_MAX + MINKOWSKI_MAX),
{
    proof {
        lemma_scaled_fits(d@, s as int, MINKOWSKI_MAX as int, ONE as int);
        assert(MINKOWSKI_MAX * ONE == ONE * MINKOWSKI_MAX) by (nonlinear_arith);
        lemma_round_div_bounded(d.x * s, ONE as int, MINKOWSKI_MAX as int);
        lemma_round_div_bounded(d.y * s, ONE as int, MINKOWSKI_MAX as int);
        lemma_round_div_bounded(d.z * s, ONE as int, MINKOWSKI_MAX as int);
    }
    p.plus(&scaled_by_quotient(d, s, ONE))
}

/// The point halfway between the nearest points of two segments.
pub fn halfway_between(p1: &Vec3, d1: &Vec3, p2: &Vec3, d2: &Vec3) -> (r: Vec3)
    requires
        p1@.within(COORD_MAX as int),
        p2@.within(COORD_MAX as int),
        d1@.within(MINKOWSKI_MAX as int),
        d2@.within(MINKOWSKI_MAX as int),
    ensures
        r@ == between_segments(p1@, d1@, p2@, d2@),
        r@.within(POINT_MAX as int),
{
    let (s, t) = nearest_of(d1, d2, &p1.minus(p2));
    let x = along(p1, d1, s);
    let y = along(p2, d2, t);
    let sum = x.plus(&y);
    proof {
        lemma_round_div_bounded(sum@.x * 1, 2, COORD_MAX + MINKOWSKI_MAX);
        lemma_round_div_bounded(sum@.y * 1, 2, COORD_MAX + MINKOWSKI_MAX);
        lemma_round_div_bounded(sum@.z * 1, 2, COORD_MAX + MINKOWSKI_MAX);
    }
    scaled_by_quotient(&sum, 1, 2)
}

/// The index of the edge that reaches farthest along the axis.
pub fn outermost_of(points: &Vec<Vec3>, polytope: &Polytope, axis: &Vec3) -> (r: usize)
    requires
        polytope.wf(),
        polytope.edges@.len() > 0,
        points@.len() == polytope.vertices@.len(),
        all_within(vectors(points@), COORD_MAX as int),
        axis@.within(AXIS_MAX as int),
    ensures
        r == outermost(vectors(points@), polytope.edges@, axis@),
        r < polytope.edges@.len(),
{
    let ghost model = vectors(points@);
    let ghost edges = polytope.edges@;
    let mut best: usize = 0;
    let mut most: i128 = reach_of(points, polytope.edges[0], axis);
    let mut i: usize = 1;
    while i < polytope.edges.len()
        invariant
            polytope.wf(),
            model == vectors(points@),
            edges == polytope.edges@,
            points@.len() == polytope.vertices@.len(),
            all_within(model, COORD_MAX as int),
            axis@.within(AXIS_MAX as int),
            1 <= i <= edges.len(),
            0 <= best < i,
            most == edge_reach(model, edges[best as int], axis@),
            forall|k: int| 0 <= k < i ==> edge_reach(model, #[trigger] edges[k], axis@) <= most,
            forall|k: int| 0 <= k < best ==> edge_reach(model, #[trigger] edges[k], axis@) < most,
        decreases edges.len() - i,
    {
        let reach = reach_of(points, polytope.edges[i], axis);
        if reach > most {
            best = i;
            most = reach;
        }
        i += 1;
    }
    proof {
        lemma_outermost_unique(model, edges, axis@, best as int);
    }
    best
}

/// How far an edge reaches along the axis.
fn reach_of(points: &Vec<Vec3>, e: (usize, usize), axis: &Vec3) -> (r: i128)
    requires
        all_within(vectors(points@), COORD_MAX as int),
        e.0 < points@.len(),
        e.1 < points@.len(),
        axis@.within(AXIS_MAX as int),
    ensures
        r == edge_reach(vectors(points@), e, axis@),
{
    proof {
        let model = vectors(points@);
        lemma_vector_products(model[e.0 as int], axis@, COORD_MAX as int, AXIS_MAX as int);
        lemma_vector_products(model[e.1 as int], axis@, COORD_MAX as int, AXIS_MAX as int);
    }
    points[e.0].dot(axis) + points[e.1].dot(axis)
}

/// The point of contact between edges, given the best edge axis.
pub fn edge_contact(pair: (&Rigid, &Rigid), polytope: &Polytope, query: AxisQuery) -> (r:
    ContactPoint)
    requires
        pair.0.frame.wf(),
        pair.1.frame.wf(),
        polytope.wf(),
        polytope.edges@.len() > 0,
        query.axis@.within(AXIS_MAX as int),
        -SEPARATION_MAX <= query.separation <= 0,
    ensures
        r.in_range(),
        r@ == edge_contact_spec(
            pair.0,
            pair.1,
            polytope@,
            query.axis@,
            query.separation as int,
        ),
{
    let a = pair.0.world_vertices(polytope);
    let b = pair.1.world_vertices(polytope);
    let ghost ma = vectors(a@);
    let ghost mb = vectors(b@);
    let back = query.axis.negated();
    let ea = polytope.edges[outermost_of(&a, polytope, &query.axis)];
    let eb = polytope.edges[outermost_of(&b, polytope, &back)];
    proof {
        assert(ma[ea.0 as int].within(COORD_MAX as int));
        assert(ma[ea.1 as int].within(COORD_MAX as int));
        assert(mb[eb.0 as int].within(COORD_MAX as int));
        assert(mb[eb.1 as int].within(COORD_MAX as int));
    }
    let p1 = a[ea.0];
    let p2 = b[eb.0];
    let d1 = a[ea.1].minus(&p1);
    let d2 = b[eb.1].minus(&p2);
    ContactPoint { position: halfway_between(&p1, &d1, &p2, &d2), penetration: -query.separation }
}

/// A contact and the points at which the bodies touch.
pub struct ManifoldView {
    pub contact: ContactView,
    pub points: Seq<ContactPointView>,
}

/// A contact and its points, with machine coordinates.
#[derive(Debug)]
pub struct Manifold {
    pub contact: Contact,
    pub points: Vec<ContactPoint>,
}

impl Manifold {
    /// There are at most four points, all in range; the axis is in range
    /// and not zero, the separation along it is negative, and the least
    /// overlap is positive.
    pub open spec fn in_range(&self) -> bool {
        &&& self.points@.len() <= 4
        &&& forall|i: int| 0 <= i < self.points@.len() ==> (#[trigger] self.points@[i]).in_range()
        &&& self.contact.axis@.within(AXIS_MAX as int)
        &&& self.contact.axis@ != Vector::zero()
        &&& self.contact.separation < 0
        &&& 0 < self.contact.overlap <= SEPARATION_MAX
    }
}

impl View for Manifold {
    type V = ManifoldView;

    open spec fn view(&self) -> ManifoldView {
        ManifoldView { contact: self.contact@, points: point_views(self.points@) }
    }
}

/// The points of a contact: for a contact between faces, those between the
/// face of the contact and the other body; for a contact between edges, the
/// one between the two edges of the contact.
pub open spec fn points_spec(first: &Rigid, second: &Rigid, shape: Shape, c: ContactView) -> Seq<
    ContactPointView,
> {
    match c.kind {
        ContactKind::FaceOfFirst => face_points(
            first.world_points(shape),
            second.world_points(shape),
            face_axes_spec(second, shape),
            shape,
            c.index,
            c.axis,
        ),
        ContactKind::FaceOfSecond => face_points(
            second.world_points(shape),
            first.world_points(shape),
            face_axes_spec(first, shape),
            shape,
            c.index,
            c.axis,
        ),
        ContactKind::Edge => seq![edge_contact_spec(first, second, shape, c.axis, c.separation)],
        ContactKind::Depth => seq![depth_point(first, second, shape, c.axis, c.separation)],
    }
}

/// The point of contact for an axis of any kind: halfway between the
/// corner of the first body farthest along the axis and the corner of the
/// second farthest against it, as deep as the separation is negative.
pub open spec fn depth_point(
    first: &Rigid,
    second: &Rigid,
    shape: Shape,
    axis: Vector,
    separation: int,
) -> ContactPointView {
    let a = support_point(first.world_points(shape), axis);
    let b = support_point(second.world_points(shape), axis.negated());
    ContactPointView { position: scaled_quotient(a.plus(b), 1, 2), penetration: -separation }
}

/// The contact of two bodies as the search for the depth of their overlap
/// gives it: the axis is the normal that the search settles on, brought to
/// the length `ONE`, and there is one point. There is no contact where the
/// search finds no overlap, nor where the bodies do not overlap along the
/// axis as it is rounded.
pub open spec fn depth_manifold_spec(first: &Rigid, second: &Rigid, shape: Shape) -> Option<
    ManifoldView,
> {
    let a = first.world_points(shape);
    let b = second.world_points(shape);
    match epa_spec(a, b) {
        Some(c) => {
            let axis = unit_of(c.normal);
            let s = separation(a, b, axis);
            if s >= 0 {
                None
            } else {
                Some(
                    ManifoldView {
                        contact: ContactView {
                            kind: ContactKind::Depth,
                            index: 0,
                            axis,
                            separation: s,
                            overlap: -s,
                        },
                        points: seq![depth_point(first, second, shape, axis, s)],
                    },
                )
            }
        },
        None => None,
    }
}

/// The contact of two bodies with its points, if they are in contact.
pub open spec fn manifold_spec(first: &Rigid, second: &Rigid, shape: Shape) -> Option<
    ManifoldView,
> {
    match sat_spec(first, second, shape) {
        Some(c) => Some(ManifoldView { contact: c, points: points_spec(first, second, shape, c) }),
        None => None,
    }
}

/// The mathematical reading of what the manifold query returns.
pub open spec fn manifold_view(r: Option<Manifold>) -> Option<ManifoldView> {
    match r {
        Some(m) => Some(m@),
        None => None,
    }
}

/// Tests two bodies for contact and finds the points at which they touch.
///
/// Returns what `manifold_spec` describes: nothing where `sat_spec` gives no
/// contact, else that contact with at most four points.
pub fn manifold(pair: (&Rigid, &Rigid), polytope: &Polytope) -> (r: Option<Manifold>)
    requires
        pair.0.frame.wf(),
        pair.1.frame.wf(),
        polytope.wf(),
    ensures
        manifold_view(r) == manifold_spec(pair.0, pair.1, polytope@),
        r matches Some(m) ==> m.in_range(),
{
    let c = match contact(pair, polytope) {
        Some(c) => c,
        None => {
            return None;
        },
    };
    let points = match c.kind {
        ContactKind::FaceOfFirst => points_of_faces(pair.0, pair.1, polytope, c.index),
        ContactKind::FaceOfSecond => points_of_faces(pair.1, pair.0, polytope, c.index),
        ContactKind::Edge => {
            let p = edge_contact(
                pair,
                polytope,
                AxisQuery { separation: c.separation, index: c.index, axis: c.axis },
            );
            let v = vec![p];
            proof {
                assert(point_views(v@) =~= seq![p@]);
            }
            v
        },
        ContactKind::Depth => {
            let p = point_of_depth(pair, polytope, &c.axis, c.separation);
            let v = vec![p];
            proof {
                assert(point_views(v@) =~= seq![p@]);
            }
            v
        },
    };
    Some(Manifold { contact: c, points })
}

/// The point of contact for an axis of any kind.
fn point_of_depth(pair: (&Rigid, &Rigid), polytope: &Polytope, axis: &Vec3, separation: i128) -> (r:
    ContactPoint)
    requires
        pair.0.frame.wf(),
        pair.1.frame.wf(),
        polytope.wf(),
        axis@.within(AXIS_MAX as int),
        -SEPARATION_MAX <= separation <= 0,
    ensures
        r@ == depth_point(pair.0, pair.1, polytope@, axis@, separation as int),
        r.in_range(),
{
    let a = pair.0.world_vertices(polytope);
    let b = pair.1.world_vertices(polytope);
    let pa = support_of(&a, axis);
    let pb = support_of(&b, &axis.negated());
    let sum = pa.plus(&pb);
    proof {
        lemma_round_div_bounded(sum@.x * 1, 2, COORD_MAX as int);
        lemma_round_div_bounded(sum@.y * 1, 2, COORD_MAX as int);
        lemma_round_div_bounded(sum@.z * 1, 2, COORD_MAX as int);
    }
    ContactPoint { position: scaled_by_quotient(&sum, 1, 2), penetration: -separation }
}

/// Tests two bodies for contact by the search for the depth of their
/// overlap.
///
/// Returns what `depth_manifold_spec` describes: a contact with one point
/// where the search finds an overlap and the bodies overlap along the
/// normal that it settles on.
pub fn depth_manifold(pair: (&Rigid, &Rigid), polytope: &Polytope) -> (r: Option<Manifold>)
    requires
        pair.0.frame.wf(),
        pair.1.frame.wf(),
        polytope.wf(),
    ensures
        manifold_view(r) == depth_manifold_spec(pair.0, pair.1, polytope@),
        r matches Some(m) ==> m.in_range(),
{
    let a = pair.0.world_vertices(polytope);
    let b = pair.1.world_vertices(polytope);
    let c = match epa_of(&a, &b) {
        Some(c) => c,
        None => {
            return None;
        },
    };
    let axis = unit_vector(&c.normal);
    let s = separation_along(&a, &b, &axis);
    if s >= 0 {
        return None;
    }
    proof {
        if axis@ == Vector::zero() {
            lemma_support_point(vectors(a@), axis@);
            lemma_support_point(vectors(b@), axis@.negated());
            crate::collision::gjk::lemma_zero_products(
                axis@,
                support_point(vectors(a@), axis@),
            );
            crate::collision::gjk::lemma_zero_products(
                axis@,
                support_point(vectors(b@), axis@.negated()),
            );
        }
    }
    let p = point_of_depth(pair, polytope, &axis, s);
    let points = vec![p];
    proof {
        assert(point_views(points@) =~= seq![p@]);
    }
    Some(
        Manifold {
            contact: Contact { kind: ContactKind::Depth, index: 0, axis, separation: s, overlap: -s },
            points,
        },
    )
}

/// The ways of finding the contact of two bodies.
#[derive(Clone, Copy, Debug, PartialEq, Eq, Structural)]
pub enum NarrowPhase {
    /// By the axes of the faces and edges of the bodies.
    SeparatingAxes,
    /// By the search for the depth of the overlap.
    Depth,
}

/// The contact of two bodies, found in the given way.
pub open spec fn narrow_phase_spec(
    strategy: NarrowPhase,
    first: &Rigid,
    second: &Rigid,
    shape: Shape,
) -> Option<ManifoldView> {
    match strategy {
        NarrowPhase::SeparatingAxes => manifold_spec(first, second, shape),
        NarrowPhase::Depth => depth_manifold_spec(first, second, shape),
    }
}

/// Finds the contact of two bodies in the given way.
pub fn narrow_phase(strategy: NarrowPhase, pair: (&Rigid, &Rigid), polytope: &Polytope) -> (r:
    Option<Manifold>)
    requires
        pair.0.frame.wf(),
        pair.1.frame.wf(),
        polytope.wf(),
    ensures
        manifold_view(r) == narrow_phase_spec(strategy, pair.0, pair.1, polytope@),
        r matches Some(m) ==> m.in_range(),
{
    match strategy {
        NarrowPhase::SeparatingAxes => manifold(pair, polytope),
        NarrowPhase::Depth => depth_manifold(pair, polytope),
    }
}

} // verus!
