//! The search for the depth of an overlap, and the expanding polytope that
//! it works on: a closed surface of triangles between points of the
//! Minkowski difference, around the origin, that grows towards the boundary
//! of the difference.

use vstd::prelude::*;
use crate::collision::gjk::{
    gjk_search, gjk_spec, lemma_base_normal, lemma_search_certified,
    lemma_separated_sets_have_no_tetrahedron, lemma_surrounded_is_enclosed,
    lemma_weight_of_first_corner, lemma_zero_products, search, SimplexView, Tetrahedron,
    TetrahedronView, Verdict, VerdictView, GJK_ROUNDS,
};
use crate::collision::support::{
    is_difference, lemma_difference_within_reach, lemma_minkowski_point, lemma_support_point,
    minkowski_of, minkowski_point, separates_strictly, support_index,
};
use crate::geometry::{all_within, vectors, Plane, PlaneView};
use crate::numeric::{floor_sqrt, round_div};
use crate::limits::{COORD_MAX, MINKOWSKI_MAX, NORMAL_MAX};
use crate::vector::{
    lemma_cross_reversed, lemma_dot_rules, lemma_triple_rules, lemma_vector_products, Vec3, Vector,
};

verus! {

/// A triangle between three corners of a polytope, given by their indices.
/// Seen from outside, the corners follow each other counterclockwise.
#[derive(Clone, Copy, Debug, PartialEq, Eq, Structural)]
pub struct Face {
    pub a: usize,
    pub b: usize,
    pub c: usize,
}

impl Face {
    /// The face runs from the corner `u` straight to the corner `v`.
    pub open spec fn has_edge(self, u: int, v: int) -> bool {
        (self.a == u && self.b == v) || (self.b == u && self.c == v) || (self.c == u && self.a
            == v)
    }

    /// The three corners are among the first `n`.
    pub open spec fn in_range(self, n: int) -> bool {
        self.a < n && self.b < n && self.c < n
    }

    /// The plane of the face, its normal pointing outwards.
    pub open spec fn plane(self, vertices: Seq<Vector>) -> PlaneView {
        PlaneView::through(
            vertices[self.a as int],
            vertices[self.b as int],
            vertices[self.c as int],
        )
    }

    /// The point is strictly in front of the face.
    pub open spec fn sees(self, vertices: Seq<Vector>, p: Vector) -> bool {
        self.plane(vertices).height(p) > 0
    }
}

/// The number of faces that run from the corner `u` straight to `v`.
pub open spec fn edge_count(faces: Seq<Face>, u: int, v: int) -> nat
    decreases faces.len(),
{
    if faces.len() == 0 {
        0
    } else {
        edge_count(faces.drop_last(), u, v) + if faces.last().has_edge(u, v) {
            1nat
        } else {
            0nat
        }
    }
}

/// One face runs from `u` to `v` and one from `v` to `u`.
pub open spec fn edge_paired(faces: Seq<Face>, u: int, v: int) -> bool {
    edge_count(faces, u, v) == 1 && edge_count(faces, v, u) == 1
}

/// The faces make a closed surface with one orientation: each edge of each
/// face belongs to that face and to one other, which runs along it the
/// other way.
pub open spec fn closed(faces: Seq<Face>) -> bool {
    forall|i: int|
        0 <= i < faces.len() ==> {
            let f = #[trigger] faces[i];
            &&& edge_paired(faces, f.a as int, f.b as int)
            &&& edge_paired(faces, f.b as int, f.c as int)
            &&& edge_paired(faces, f.c as int, f.a as int)
        }
}

/// The face joins corners that exist, has a normal, and does not have the
/// origin in front of it.
pub open spec fn face_sound(vertices: Seq<Vector>, f: Face) -> bool {
    &&& f.in_range(vertices.len() as int)
    &&& f.plane(vertices).normal != Vector::zero()
    &&& f.plane(vertices).displacement >= 0
}

/// The polytope has a face, its corners are in range, every face is sound,
/// and the faces make a closed surface with one orientation.
pub open spec fn sound(vertices: Seq<Vector>, faces: Seq<Face>) -> bool {
    &&& faces.len() > 0
    &&& all_within(vertices, MINKOWSKI_MAX as int)
    &&& forall|i: int| 0 <= i < faces.len() ==> face_sound(vertices, #[trigger] faces[i])
    &&& closed(faces)
}

fn face_has_edge(f: &Face, u: usize, v: usize) -> (r: bool)
    ensures
        r == f.has_edge(u as int, v as int),
{
    (f.a == u && f.b == v) || (f.b == u && f.c == v) || (f.c == u && f.a == v)
}

/// Whether just one face runs from `u` to `v`.
fn runs_once(faces: &Vec<Face>, u: usize, v: usize) -> (r: bool)
    ensures
        r == (edge_count(faces@, u as int, v as int) == 1),
{
    let mut found: usize = 0;
    let mut i: usize = 0;
    while i < faces.len()
        invariant
            0 <= i <= faces@.len(),
            found <= 2,
            found < 2 ==> found == edge_count(faces@.take(i as int), u as int, v as int),
            found == 2 ==> edge_count(faces@.take(i as int), u as int, v as int) >= 2,
        decreases faces@.len() - i,
    {
        proof {
            assert(faces@.take(i + 1).drop_last() =~= faces@.take(i as int));
        }
        if face_has_edge(&faces[i], u, v) && found < 2 {
            found += 1;
        }
        i += 1;
    }
    proof {
        assert(faces@.take(faces@.len() as int) =~= faces@);
    }
    found == 1
}

fn edge_is_paired(faces: &Vec<Face>, u: usize, v: usize) -> (r: bool)
    ensures
        r == edge_paired(faces@, u as int, v as int),
{
    runs_once(faces, u, v) && runs_once(faces, v, u)
}

/// Whether the faces make a closed surface with one orientation.
pub fn is_closed(faces: &Vec<Face>) -> (r: bool)
    ensures
        r == closed(faces@),
{
    let mut i: usize = 0;
    while i < faces.len()
        invariant
            0 <= i <= faces@.len(),
            forall|k: int|
                0 <= k < i ==> {
                    let f = #[trigger] faces@[k];
                    &&& edge_paired(faces@, f.a as int, f.b as int)
                    &&& edge_paired(faces@, f.b as int, f.c as int)
                    &&& edge_paired(faces@, f.c as int, f.a as int)
                },
        decreases faces@.len() - i,
    {
        let f = faces[i];
        if !(edge_is_paired(faces, f.a, f.b) && edge_is_paired(faces, f.b, f.c) && edge_is_paired(
            faces,
            f.c,
            f.a,
        )) {
            proof {
                let g = faces@[i as int];
                assert(!(edge_paired(faces@, g.a as int, g.b as int) && edge_paired(
                    faces@,
                    g.b as int,
                    g.c as int,
                ) && edge_paired(faces@, g.c as int, g.a as int)));
            }
            return false;
        }
        i += 1;
    }
    true
}

/// Whether the face joins corners that exist, has a normal, and does not
/// have the origin in front of it.
fn is_face_sound(vertices: &Vec<Vec3>, f: &Face) -> (r: bool)
    requires
        all_within(vectors(vertices@), MINKOWSKI_MAX as int),
    ensures
        r == face_sound(vectors(vertices@), *f),
{
    let n = vertices.len();
    if !(f.a < n && f.b < n && f.c < n) {
        return false;
    }
    proof {
        let m = vectors(vertices@);
        assert(m[f.a as int].within(MINKOWSKI_MAX as int));
        assert(m[f.b as int].within(MINKOWSKI_MAX as int));
        assert(m[f.c as int].within(MINKOWSKI_MAX as int));
    }
    let plane = Plane::from_points([vertices[f.a], vertices[f.b], vertices[f.c]]);
    !plane.normal.is_zero() && plane.displacement >= 0
}

/// Whether corners and faces make a sound polytope.
pub fn is_sound(vertices: &Vec<Vec3>, faces: &Vec<Face>) -> (r: bool)
    requires
        all_within(vectors(vertices@), MINKOWSKI_MAX as int),
    ensures
        r == sound(vectors(vertices@), faces@),
{
    if faces.len() == 0 {
        return false;
    }
    let mut i: usize = 0;
    while i < faces.len()
        invariant
            0 <= i <= faces@.len(),
            all_within(vectors(vertices@), MINKOWSKI_MAX as int),
            forall|k: int| 0 <= k < i ==> face_sound(vectors(vertices@), #[trigger] faces@[k]),
        decreases faces@.len() - i,
    {
        if !is_face_sound(vertices, &faces[i]) {
            return false;
        }
        i += 1;
    }
    is_closed(faces)
}

/// The faces of a tetrahedron with the corners 0 to 3, wound so that they
/// face outwards: which way depends on the sign of the volume.
pub open spec fn initial_faces(volume: int) -> Seq<Face> {
    if volume < 0 {
        seq![
            Face { a: 0, b: 1, c: 2 },
            Face { a: 0, b: 2, c: 3 },
            Face { a: 0, b: 3, c: 1 },
            Face { a: 1, b: 3, c: 2 },
        ]
    } else {
        seq![
            Face { a: 0, b: 2, c: 1 },
            Face { a: 0, b: 3, c: 2 },
            Face { a: 0, b: 1, c: 3 },
            Face { a: 1, b: 2, c: 3 },
        ]
    }
}

/// The corners of a tetrahedron in their order.
pub open spec fn initial_vertices(t: TetrahedronView) -> Seq<Vector> {
    seq![t.a, t.b, t.c, t.d]
}

/// The distance of a face from the origin, in lattice units.
pub open spec fn face_distance(vertices: Seq<Vector>, f: Face) -> int {
    f.plane(vertices).distance()
}

/// `faces[i]` is the face nearest the origin, the first of those that are
/// equally near.
pub open spec fn is_minimal_face(vertices: Seq<Vector>, faces: Seq<Face>, i: int) -> bool {
    &&& 0 <= i < faces.len()
    &&& forall|j: int|
        0 <= j < faces.len() ==> face_distance(vertices, faces[i]) <= face_distance(
            vertices,
            #[trigger] faces[j],
        )
    &&& forall|j: int|
        0 <= j < i ==> face_distance(vertices, faces[i]) < face_distance(
            vertices,
            #[trigger] faces[j],
        )
}

/// The index of the face nearest the origin.
pub open spec fn minimal_face_index(vertices: Seq<Vector>, faces: Seq<Face>) -> int {
    choose|i: int| is_minimal_face(vertices, faces, i)
}

/// Only one face is the nearest.
pub proof fn lemma_minimal_face_unique(vertices: Seq<Vector>, faces: Seq<Face>, i: int)
    requires
        is_minimal_face(vertices, faces, i),
    ensures
        minimal_face_index(vertices, faces) == i,
{
    let k = minimal_face_index(vertices, faces);
    if k < i {
        assert(face_distance(vertices, faces[i]) < face_distance(vertices, faces[k]));
    }
    if i < k {
        assert(face_distance(vertices, faces[k]) < face_distance(vertices, faces[i]));
    }
}

/// The edges of four faces are counted face by face.
proof fn lemma_count_in_four(f0: Face, f1: Face, f2: Face, f3: Face, u: int, v: int)
    ensures
        edge_count(seq![f0, f1, f2, f3], u, v) == (if f0.has_edge(u, v) {
            1nat
        } else {
            0nat
        }) + (if f1.has_edge(u, v) {
            1nat
        } else {
            0nat
        }) + (if f2.has_edge(u, v) {
            1nat
        } else {
            0nat
        }) + (if f3.has_edge(u, v) {
            1nat
        } else {
            0nat
        }),
{
    let s4 = seq![f0, f1, f2, f3];
    let s3 = seq![f0, f1, f2];
    let s2 = seq![f0, f1];
    let s1 = seq![f0];
    assert(s4.drop_last() =~= s3);
    assert(s3.drop_last() =~= s2);
    assert(s2.drop_last() =~= s1);
    assert(edge_count(s1, u, v) == edge_count(s1.drop_last(), u, v) + if f0.has_edge(u, v) {
        1nat
    } else {
        0nat
    });
    assert(edge_count(s2, u, v) == edge_count(s2.drop_last(), u, v) + if f1.has_edge(u, v) {
        1nat
    } else {
        0nat
    });
    assert(edge_count(s3, u, v) == edge_count(s3.drop_last(), u, v) + if f2.has_edge(u, v) {
        1nat
    } else {
        0nat
    });
}

/// The four faces of a tetrahedron make a closed surface, whichever way
/// they are wound.
pub proof fn lemma_initial_faces_closed(volume: int)
    ensures
        closed(initial_faces(volume)),
{
    let faces = initial_faces(volume);
    assert forall|i: int| 0 <= i < faces.len() implies {
        let f = #[trigger] faces[i];
        &&& edge_paired(faces, f.a as int, f.b as int)
        &&& edge_paired(faces, f.b as int, f.c as int)
        &&& edge_paired(faces, f.c as int, f.a as int)
    } by {
        let f = faces[i];
        lemma_count_in_four(faces[0], faces[1], faces[2], faces[3], f.a as int, f.b as int);
        lemma_count_in_four(faces[0], faces[1], faces[2], faces[3], f.b as int, f.a as int);
        lemma_count_in_four(faces[0], faces[1], faces[2], faces[3], f.b as int, f.c as int);
        lemma_count_in_four(faces[0], faces[1], faces[2], faces[3], f.c as int, f.b as int);
        lemma_count_in_four(faces[0], faces[1], faces[2], faces[3], f.c as int, f.a as int);
        lemma_count_in_four(faces[0], faces[1], faces[2], faces[3], f.a as int, f.c as int);
    }
}

/// The plane through `p`, `q`, `r` and the plane through `p`, `r`, `q` are
/// the same with opposite normals; the normal measures a fourth point by a
/// triple product, and the origin by the displacement.
proof fn lemma_face_plane(p: Vector, q: Vector, r: Vector, s: Vector)
    ensures
        PlaneView::through(p, q, r).normal == q.minus(p).cross(r.minus(p)),
        PlaneView::through(p, q, r).displacement == -q.minus(p).triple(r.minus(p), p.negated()),
        PlaneView::through(p, r, q).normal == PlaneView::through(p, q, r).normal.negated(),
        PlaneView::through(p, r, q).displacement == -PlaneView::through(p, q, r).displacement,
        PlaneView::through(p, q, r).normal.dot(s.minus(p)) == q.minus(p).triple(
            r.minus(p),
            s.minus(p),
        ),
{
    let n = q.minus(p).cross(r.minus(p));
    lemma_dot_rules(n, p, p);
    lemma_cross_reversed(r.minus(p), q.minus(p));
}

/// The faces of a tetrahedron that surrounds the origin are sound.
pub proof fn lemma_initial_faces_sound(t: TetrahedronView)
    requires
        t.surrounds_origin(),
        t.within(MINKOWSKI_MAX as int),
    ensures
        sound(initial_vertices(t), initial_faces(t.volume())),
{
    let vs = initial_vertices(t);
    let faces = initial_faces(t.volume());
    let ab = t.b.minus(t.a);
    let ac = t.c.minus(t.a);
    let ad = t.d.minus(t.a);
    lemma_initial_faces_closed(t.volume());
    // the three faces at the corner a
    lemma_face_plane(t.a, t.b, t.c, t.d);
    lemma_face_plane(t.a, t.c, t.d, t.b);
    lemma_face_plane(t.a, t.d, t.b, t.c);
    lemma_triple_rules(ab, ac, ad);
    lemma_triple_rules(ac, ad, ab);
    // the face across from a
    lemma_face_plane(t.b, t.d, t.c, t.a);
    lemma_weight_of_first_corner(t);
    lemma_base_normal(ab, ad, ac);
    lemma_triple_rules(ab, ad, ac);
    lemma_triple_rules(ad, ab, ac);
    let n0 = PlaneView::through(t.a, t.b, t.c).normal;
    let n1 = PlaneView::through(t.a, t.c, t.d).normal;
    let n2 = PlaneView::through(t.a, t.d, t.b).normal;
    let n3 = PlaneView::through(t.b, t.d, t.c).normal;
    assert(n0 != Vector::zero()) by {
        if n0 == Vector::zero() {
            lemma_zero_products(n0, ad);
        }
    }
    assert(n1 != Vector::zero()) by {
        if n1 == Vector::zero() {
            lemma_zero_products(n1, ab);
        }
    }
    assert(n2 != Vector::zero()) by {
        if n2 == Vector::zero() {
            lemma_zero_products(n2, ac);
        }
    }
    assert(n3 != Vector::zero()) by {
        if n3 == Vector::zero() {
            lemma_zero_products(n3, ab.negated());
        }
    }
    assert forall|i: int| 0 <= i < faces.len() implies face_sound(vs, #[trigger] faces[i]) by {}
}

/// Some face that sees the point `p` runs from `v` to `u`: the edge from
/// `u` to `v` lies inside what `p` sees.
pub open spec fn reverse_seen(
    vertices: Seq<Vector>,
    faces: Seq<Face>,
    p: Vector,
    u: int,
    v: int,
) -> bool {
    exists|j: int|
        0 <= j < faces.len() && (#[trigger] faces[j]).sees(vertices, p) && faces[j].has_edge(
            v,
            u,
        )
}

/// The face that joins the edge from `u` to `v` to the new corner, where
/// that edge is on the rim of what the point `p` sees; else nothing.
pub open spec fn rim_face(
    vertices: Seq<Vector>,
    faces: Seq<Face>,
    p: Vector,
    u: usize,
    v: usize,
) -> Seq<Face> {
    if reverse_seen(vertices, faces, p, u as int, v as int) {
        Seq::empty()
    } else {
        seq![Face { a: u, b: v, c: vertices.len() as usize }]
    }
}

/// The new faces over the edges of the face `f` that are on the rim.
pub open spec fn rim(vertices: Seq<Vector>, faces: Seq<Face>, p: Vector, f: Face) -> Seq<Face> {
    rim_face(vertices, faces, p, f.a, f.b) + rim_face(vertices, faces, p, f.b, f.c) + rim_face(
        vertices,
        faces,
        p,
        f.c,
        f.a,
    )
}

/// Those of the first `k` faces that do not see the point `p`, in their
/// order.
pub open spec fn kept_faces(vertices: Seq<Vector>, faces: Seq<Face>, p: Vector, k: int) -> Seq<
    Face,
>
    decreases k,
{
    if k <= 0 {
        Seq::empty()
    } else {
        let rest = kept_faces(vertices, faces, p, k - 1);
        if faces[k - 1].sees(vertices, p) {
            rest
        } else {
            rest.push(faces[k - 1])
        }
    }
}

/// The new faces over the rim, as far as the first `k` faces give them, in
/// the order of those faces and of their edges.
pub open spec fn horizon_faces(
    vertices: Seq<Vector>,
    faces: Seq<Face>,
    p: Vector,
    k: int,
) -> Seq<Face>
    decreases k,
{
    if k <= 0 {
        Seq::empty()
    } else {
        let rest = horizon_faces(vertices, faces, p, k - 1);
        if faces[k - 1].sees(vertices, p) {
            rest + rim(vertices, faces, p, faces[k - 1])
        } else {
            rest
        }
    }
}

/// The faces of the polytope grown by the point `p`: the faces that do not
/// see `p`, then a face from each edge of the rim to `p`.
pub open spec fn expanded_faces(vertices: Seq<Vector>, faces: Seq<Face>, p: Vector) -> Seq<Face> {
    kept_faces(vertices, faces, p, faces.len() as int) + horizon_faces(
        vertices,
        faces,
        p,
        faces.len() as int,
    )
}

/// Whether a face marked as seen runs from `v` to `u`.
fn reverse_is_seen(faces: &Vec<Face>, seen: &Vec<bool>, u: usize, v: usize) -> (r: bool)
    requires
        seen@.len() == faces@.len(),
    ensures
        r == exists|j: int|
            0 <= j < faces@.len() && #[trigger] seen@[j] && faces@[j].has_edge(v as int, u as int),
{
    let mut j: usize = 0;
    while j < faces.len()
        invariant
            seen@.len() == faces@.len(),
            0 <= j <= faces@.len(),
            forall|k: int|
                0 <= k < j ==> !(#[trigger] seen@[k] && faces@[k].has_edge(v as int, u as int)),
        decreases faces@.len() - j,
    {
        if seen[j] && face_has_edge(&faces[j], v, u) {
            return true;
        }
        j += 1;
    }
    false
}

/// A polytope with machine coordinates.
#[derive(Debug)]
pub struct Polytope {
    pub vertices: Vec<Vec3>,
    pub faces: Vec<Face>,
}

impl Polytope {
    /// The polytope is sound.
    pub open spec fn wf(&self) -> bool {
        sound(vectors(self.vertices@), self.faces@)
    }

    /// The polytope that is the tetrahedron.
    pub fn new(simplex: Tetrahedron) -> (p: Polytope)
        requires
            simplex@.within(MINKOWSKI_MAX as int),
            simplex@.surrounds_origin(),
        ensures
            p.wf(),
            vectors(p.vertices@) == initial_vertices(simplex@),
            p.faces@ == initial_faces(simplex@.volume()),
    {
        let vertices = vec![simplex.a, simplex.b, simplex.c, simplex.d];
        let plane = Plane::from_points([simplex.a, simplex.b, simplex.c]);
        let ad = simplex.d.minus(&simplex.a);
        proof {
            crate::vector::lemma_vector_products(
                plane.normal@,
                ad@,
                crate::limits::NORMAL_MAX as int,
                crate::limits::EDGE_MAX as int,
            );
        }
        let volume = plane.normal.dot(&ad);
        let faces = if volume < 0 {
            vec![
                Face { a: 0, b: 1, c: 2 },
                Face { a: 0, b: 2, c: 3 },
                Face { a: 0, b: 3, c: 1 },
                Face { a: 1, b: 3, c: 2 },
            ]
        } else {
            vec![
                Face { a: 0, b: 2, c: 1 },
                Face { a: 0, b: 3, c: 2 },
                Face { a: 0, b: 1, c: 3 },
                Face { a: 1, b: 2, c: 3 },
            ]
        };
        proof {
            lemma_initial_faces_sound(simplex@);
        }
        Polytope { vertices, faces }
    }

    /// The three corners of a face.
    pub fn face_vertices(&self, face: usize) -> (r: [Vec3; 3])
        requires
            self.wf(),
            face < self.faces@.len(),
        ensures
            r[0] == self.vertices@[self.faces@[face as int].a as int],
            r[1] == self.vertices@[self.faces@[face as int].b as int],
            r[2] == self.vertices@[self.faces@[face as int].c as int],
            r[0]@.within(MINKOWSKI_MAX as int),
            r[1]@.within(MINKOWSKI_MAX as int),
            r[2]@.within(MINKOWSKI_MAX as int),
            Plane::from_points_spec(r) == self.faces@[face as int].plane(vectors(self.vertices@)),
    {
        let f = self.faces[face];
        [self.vertices[f.a], self.vertices[f.b], self.vertices[f.c]]
    }

    /// The plane of a face.
    pub fn face_plane(&self, face: usize) -> (p: Plane)
        requires
            self.wf(),
            face < self.faces@.len(),
        ensures
            p@ == self.faces@[face as int].plane(vectors(self.vertices@)),
            p.wf(),
            p.displacement >= 0,
    {
        Plane::from_points(self.face_vertices(face))
    }

    /// The face nearest the origin, the first of those that are equally
    /// near.
    pub fn minimal_face(&self) -> (r: usize)
        requires
            self.wf(),
        ensures
            r == minimal_face_index(vectors(self.vertices@), self.faces@),
            r < self.faces@.len(),
    {
        let ghost vs = vectors(self.vertices@);
        let mut best: usize = 0;
        let mut best_distance: i128 = self.face_plane(0).distance();
        let mut i: usize = 1;
        while i < self.faces.len()
            invariant
                self.wf(),
                vs == vectors(self.vertices@),
                1 <= i <= self.faces@.len(),
                0 <= best < i,
                best_distance == face_distance(vs, self.faces@[best as int]),
                forall|j: int|
                    0 <= j < i ==> best_distance <= face_distance(vs, #[trigger] self.faces@[j]),
                forall|j: int|
                    0 <= j < best ==> best_distance < face_distance(vs, #[trigger] self.faces@[j]),
            decreases self.faces@.len() - i,
        {
            let distance = self.face_plane(i).distance();
            if distance < best_distance {
                best = i;
                best_distance = distance;
            }
            i += 1;
        }
        proof {
            lemma_minimal_face_unique(vs, self.faces@, best as int);
        }
        best
    }
}

impl Polytope {
    /// Whether the point is strictly in front of the face.
    pub fn face_sees(&self, face: usize, p: &Vec3) -> (r: bool)
        requires
            self.wf(),
            face < self.faces@.len(),
            p@.within(MINKOWSKI_MAX as int),
        ensures
            r == self.faces@[face as int].sees(vectors(self.vertices@), p@),
    {
        let plane = self.face_plane(face);
        proof {
            crate::vector::lemma_vector_products(
                plane.normal@,
                p@,
                crate::limits::NORMAL_MAX as int,
                MINKOWSKI_MAX as int,
            );
        }
        plane.normal.dot(p) - plane.displacement > 0
    }

    /// Grows the polytope by a point: the faces that see the point go, and
    /// each edge on the rim of what is gone is joined to the point by a new
    /// face.
    ///
    /// The polytope changes only if it is sound afterwards; the result says
    /// whether it has changed.
    pub fn expand(&mut self, support: Vec3) -> (r: bool)
        requires
            old(self).wf(),
            support@.within(MINKOWSKI_MAX as int),
            old(self).vertices@.len() < usize::MAX,
        ensures
            r == sound(
                vectors(old(self).vertices@).push(support@),
                expanded_faces(vectors(old(self).vertices@), old(self).faces@, support@),
            ),
            r ==> vectors(final(self).vertices@) == vectors(old(self).vertices@).push(support@),
            r ==> final(self).faces@ == expanded_faces(
                vectors(old(self).vertices@),
                old(self).faces@,
                support@,
            ),
            !r ==> final(self).vertices@ == old(self).vertices@,
            !r ==> final(self).faces@ == old(self).faces@,
            final(self).wf(),
    {
        let ghost vs = vectors(self.vertices@);
        let ghost fs = self.faces@;
        let ghost p = support@;
        let mut seen: Vec<bool> = Vec::new();
        let mut i: usize = 0;
        while i < self.faces.len()
            invariant
                self.wf(),
                vs == vectors(self.vertices@),
                fs == self.faces@,
                p == support@,
                p.within(MINKOWSKI_MAX as int),
                0 <= i <= fs.len(),
                seen@.len() == i,
                forall|k: int| 0 <= k < i ==> #[trigger] seen@[k] == fs[k].sees(vs, p),
            decreases fs.len() - i,
        {
            let s = self.face_sees(i, &support);
            seen.push(s);
            i += 1;
        }
        let apex = self.vertices.len();
        let mut faces: Vec<Face> = Vec::new();
        let mut horizon: Vec<Face> = Vec::new();
        i = 0;
        while i < self.faces.len()
            invariant
                vs == vectors(self.vertices@),
                fs == self.faces@,
                apex == vs.len(),
                0 <= i <= fs.len(),
                seen@.len() == fs.len(),
                forall|k: int| 0 <= k < fs.len() ==> #[trigger] seen@[k] == fs[k].sees(vs, p),
                faces@ == kept_faces(vs, fs, p, i as int),
                horizon@ == horizon_faces(vs, fs, p, i as int),
            decreases fs.len() - i,
        {
            let f = self.faces[i];
            if seen[i] {
                if !reverse_is_seen(&self.faces, &seen, f.a, f.b) {
                    horizon.push(Face { a: f.a, b: f.b, c: apex });
                }
                if !reverse_is_seen(&self.faces, &seen, f.b, f.c) {
                    horizon.push(Face { a: f.b, b: f.c, c: apex });
                }
                if !reverse_is_seen(&self.faces, &seen, f.c, f.a) {
                    horizon.push(Face { a: f.c, b: f.a, c: apex });
                }
                proof {
                    lemma_reverse_seen(vs, fs, p, seen@, f.a as int, f.b as int);
                    lemma_reverse_seen(vs, fs, p, seen@, f.b as int, f.c as int);
                    lemma_reverse_seen(vs, fs, p, seen@, f.c as int, f.a as int);
                }
            } else {
                faces.push(f);
            }
            i += 1;
        }
        let mut k: usize = 0;
        let ghost kept = faces@;
        while k < horizon.len()
            invariant
                0 <= k <= horizon@.len(),
                faces@ == kept + horizon@.take(k as int),
            decreases horizon@.len() - k,
        {
            faces.push(horizon[k]);
            k += 1;
        }
        proof {
            assert(horizon@.take(horizon@.len() as int) =~= horizon@);
        }
        self.vertices.push(support);
        proof {
            assert(vectors(self.vertices@) =~= vs.push(p));
            assert forall|k: int| 0 <= k < vs.push(p).len() implies (#[trigger] vs.push(
                p,
            )[k]).within(MINKOWSKI_MAX as int) by {}
        }
        if is_sound(&self.vertices, &faces) {
            self.faces = faces;
            true
        } else {
            self.vertices.pop();
            false
        }
    }
}

/// The marks of the faces that see a point tell whether an edge lies inside
/// what the point sees.
proof fn lemma_reverse_seen(
    vertices: Seq<Vector>,
    faces: Seq<Face>,
    p: Vector,
    seen: Seq<bool>,
    u: int,
    v: int,
)
    requires
        seen.len() == faces.len(),
        forall|k: int| 0 <= k < faces.len() ==> #[trigger] seen[k] == faces[k].sees(vertices, p),
    ensures
        reverse_seen(vertices, faces, p, u, v) == exists|j: int|
            0 <= j < faces.len() && #[trigger] seen[j] && faces[j].has_edge(v, u),
{
    if reverse_seen(vertices, faces, p, u, v) {
        let j = choose|j: int|
            0 <= j < faces.len() && (#[trigger] faces[j]).sees(vertices, p) && faces[j].has_edge(
                v,
                u,
            );
        assert(seen[j] && faces[j].has_edge(v, u));
    }
    if exists|j: int| 0 <= j < faces.len() && #[trigger] seen[j] && faces[j].has_edge(v, u) {
        let j = choose|j: int|
            0 <= j < faces.len() && #[trigger] seen[j] && faces[j].has_edge(v, u);
    }
}

/// Two sets of points that some direction separates with room between them
/// are not found to overlap.
pub proof fn lemma_separated_sets_are_not_found_to_overlap(
    a: Seq<Vector>,
    b: Seq<Vector>,
    dir: Vector,
)
    requires
        a.len() > 0,
        b.len() > 0,
        separates_strictly(a, b, dir),
    ensures
        !(gjk_spec(a, b) is Overlap),
        epa_spec(a, b) is None,
{
    let first = minkowski_point(a, b, Vector::unit_x());
    lemma_minkowski_point(a, b, Vector::unit_x());
    if first != Vector::zero() {
        let start = SimplexView::Point(first);
        lemma_search_certified(a, b, start, first.negated(), GJK_ROUNDS as nat);
        if let VerdictView::Overlap(t) = search(a, b, start, first.negated(), GJK_ROUNDS as nat) {
            lemma_surrounded_is_enclosed(t);
            lemma_separated_sets_have_no_tetrahedron(a, b, dir, t);
        }
    }
}

/// The number of points by which the polytope grows before the search for
/// the depth settles for what it has.
pub const EPA_ROUNDS: usize = 64;

/// How two bodies that overlap are to be parted: a direction, of any
/// length, and how far the Minkowski difference reaches along it, times
/// that length.
pub struct CollisionView {
    pub normal: Vector,
    pub depth: int,
}

/// `depth` is how far the Minkowski difference of `a` and `b` reaches along
/// `normal`: no difference of a point of `a` and a point of `b` is farther
/// along it, and one is just as far.
pub open spec fn is_extent(a: Seq<Vector>, b: Seq<Vector>, normal: Vector, depth: int) -> bool {
    &&& forall|i: int, j: int|
        0 <= i < a.len() && 0 <= j < b.len() ==> (#[trigger] a[i]).dot(normal) - (#[trigger] b[j]).dot(
            normal,
        ) <= depth
    &&& exists|i: int, j: int|
        0 <= i < a.len() && 0 <= j < b.len() && (#[trigger] a[i]).dot(normal) - (#[trigger] b[j]).dot(
            normal,
        ) == depth
}

/// What the polytope has to say when it grows no more: the normal of its
/// face nearest the origin, and the reach of the Minkowski difference along
/// that normal.
pub open spec fn settle(
    a: Seq<Vector>,
    b: Seq<Vector>,
    vertices: Seq<Vector>,
    faces: Seq<Face>,
) -> CollisionView {
    let normal = faces[minimal_face_index(vertices, faces)].plane(vertices).normal;
    CollisionView { normal, depth: normal.dot(minkowski_point(a, b, normal)) }
}

/// Grows the polytope towards the boundary of the Minkowski difference, for
/// at most `rounds` points. The support point along the normal of the face
/// nearest the origin is added, unless it is a corner already, or is not in
/// front of that face, or would leave the polytope unsound.
pub open spec fn refine(
    a: Seq<Vector>,
    b: Seq<Vector>,
    vertices: Seq<Vector>,
    faces: Seq<Face>,
    rounds: nat,
) -> CollisionView
    decreases rounds,
{
    let plane = faces[minimal_face_index(vertices, faces)].plane(vertices);
    let p = minkowski_point(a, b, plane.normal);
    let grown = vertices.push(p);
    let grown_faces = expanded_faces(vertices, faces, p);
    if rounds == 0 || vertices.contains(p) || plane.height(p) <= 0 || !sound(
        grown,
        grown_faces,
    ) {
        settle(a, b, vertices, faces)
    } else {
        refine(a, b, grown, grown_faces, (rounds - 1) as nat)
    }
}

/// The depth and direction of an overlap: where the overlap search finds a
/// tetrahedron, what the polytope grown from it settles on.
pub open spec fn epa_spec(a: Seq<Vector>, b: Seq<Vector>) -> Option<CollisionView> {
    match gjk_spec(a, b) {
        VerdictView::Overlap(t) => Some(
            refine(a, b, initial_vertices(t), initial_faces(t.volume()), EPA_ROUNDS as nat),
        ),
        _ => None,
    }
}

/// How two bodies that overlap are to be parted, with machine coordinates.
#[derive(Clone, Copy, Debug)]
pub struct Collision {
    pub normal: Vec3,
    pub depth: i128,
}

impl View for Collision {
    type V = CollisionView;

    open spec fn view(&self) -> CollisionView {
        CollisionView { normal: self.normal@, depth: self.depth as int }
    }
}

impl Collision {
    /// The depth in lattice units: the depth over the length of the normal,
    /// the length rounded down and the quotient to the nearest integer.
    pub open spec fn penetration_spec(&self) -> int {
        round_div(
            self.depth as int,
            floor_sqrt(self.normal@.dot(self.normal@)),
        )
    }

    /// The depth in lattice units.
    pub fn penetration(&self) -> (r: i128)
        requires
            self.normal@.within(NORMAL_MAX as int),
            self.normal@ != Vector::zero(),
            -3 * (NORMAL_MAX * MINKOWSKI_MAX) <= self.depth <= 3 * (NORMAL_MAX * MINKOWSKI_MAX),
        ensures
            r == self.penetration_spec(),
    {
        let plane = Plane { normal: self.normal, displacement: self.depth };
        plane.distance()
    }
}

/// The mathematical reading of what the search for the depth returns.
pub open spec fn collision_view(r: Option<Collision>) -> Option<CollisionView> {
    match r {
        Some(c) => Some(c@),
        None => None,
    }
}

/// Whether the point is among the points.
pub fn contains_point(points: &Vec<Vec3>, p: &Vec3) -> (r: bool)
    ensures
        r == vectors(points@).contains(p@),
{
    let mut i: usize = 0;
    while i < points.len()
        invariant
            0 <= i <= points@.len(),
            forall|k: int| 0 <= k < i ==> (#[trigger] vectors(points@)[k]) != p@,
        decreases points@.len() - i,
    {
        let q = points[i];
        if q.x == p.x && q.y == p.y && q.z == p.z {
            proof {
                assert(vectors(points@)[i as int] == p@);
            }
            return true;
        }
        i += 1;
    }
    false
}

/// The reach of the Minkowski difference along a direction is its extent.
pub proof fn lemma_reach_is_extent(a: Seq<Vector>, b: Seq<Vector>, normal: Vector)
    requires
        a.len() > 0,
        b.len() > 0,
    ensures
        is_extent(a, b, normal, normal.dot(minkowski_point(a, b, normal))),
{
    lemma_minkowski_point(a, b, normal);
    lemma_support_point(a, normal);
    lemma_support_point(b, normal.negated());
    let i = support_index(a, normal);
    let j = support_index(b, normal.negated());
    lemma_dot_rules(a[i], b[j], normal);
    lemma_dot_rules(a[i], normal, normal);
    lemma_dot_rules(b[j], normal, normal);
}

/// Searches for the direction and depth of the overlap of two sets of
/// points.
///
/// Returns what `epa_spec` gives: nothing unless the overlap search finds a
/// tetrahedron. The normal that is returned is not zero, and the depth is
/// the extent of the Minkowski difference along it, which is not negative.
pub fn epa_of(a: &Vec<Vec3>, b: &Vec<Vec3>) -> (r: Option<Collision>)
    requires
        a@.len() > 0,
        b@.len() > 0,
        all_within(vectors(a@), COORD_MAX as int),
        all_within(vectors(b@), COORD_MAX as int),
    ensures
        collision_view(r) == epa_spec(vectors(a@), vectors(b@)),
        r matches Some(c) ==> {
            &&& c.normal@ != Vector::zero()
            &&& c.normal@.within(NORMAL_MAX as int)
            &&& 0 <= c.depth <= 3 * (NORMAL_MAX * MINKOWSKI_MAX)
            &&& is_extent(vectors(a@), vectors(b@), c.normal@, c.depth as int)
        },
{
    let ghost ma = vectors(a@);
    let ghost mb = vectors(b@);
    let simplex = match gjk_search(a, b) {
        Verdict::Overlap(t) => t,
        _ => {
            return None;
        },
    };
    let mut polytope = Polytope::new(simplex);
    proof {
        let vs = vectors(polytope.vertices@);
        assert forall|k: int| 0 <= k < vs.len() implies is_difference(ma, mb, #[trigger] vs[k]) by {
            assert(simplex@.has(vs[k]));
        }
    }
    let mut round: usize = 0;
    loop
        invariant
            ma == vectors(a@),
            mb == vectors(b@),
            a@.len() > 0,
            b@.len() > 0,
            all_within(ma, COORD_MAX as int),
            all_within(mb, COORD_MAX as int),
            0 <= round <= EPA_ROUNDS,
            polytope.wf(),
            polytope.vertices@.len() == 4 + round,
            forall|k: int|
                0 <= k < polytope.vertices@.len() ==> is_difference(
                    ma,
                    mb,
                    #[trigger] vectors(polytope.vertices@)[k],
                ),
            Some(
                refine(
                    ma,
                    mb,
                    vectors(polytope.vertices@),
                    polytope.faces@,
                    (EPA_ROUNDS - round) as nat,
                ),
            ) == epa_spec(ma, mb),
        decreases EPA_ROUNDS - round,
    {
        let ghost vs = vectors(polytope.vertices@);
        let face = polytope.minimal_face();
        let plane = polytope.face_plane(face);
        let support = minkowski_of(a, b, &plane.normal);
        proof {
            lemma_vector_products(plane.normal@, support@, NORMAL_MAX as int, MINKOWSKI_MAX as int);
            lemma_minkowski_point(ma, mb, plane.normal@);
            lemma_reach_is_extent(ma, mb, plane.normal@);
            let corner = vs[polytope.faces@[face as int].a as int];
            lemma_difference_within_reach(ma, mb, plane.normal@, corner);
        }
        let depth = plane.normal.dot(&support);
        let settled = Collision { normal: plane.normal, depth };
        if round >= EPA_ROUNDS || contains_point(&polytope.vertices, &support) || depth
            - plane.displacement <= 0 {
            return Some(settled);
        }
        if !polytope.expand(support) {
            return Some(settled);
        }
        proof {
            let grown = vectors(polytope.vertices@);
            assert forall|k: int| 0 <= k < grown.len() implies is_difference(
                ma,
                mb,
                #[trigger] grown[k],
            ) by {}
        }
        round += 1;
    }
}

} // verus!
