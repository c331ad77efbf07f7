//! Shapes and planes.

use vstd::prelude::*;
use crate::limits::{EDGE_MAX, LOCAL_MAX, MINKOWSKI_MAX, NORMAL_MAX, ONE};
use crate::numeric::{
    floor_sqrt, integer_sqrt, lemma_round_div_bounded, round_div, rounded_quotient,
};
use crate::vector::{lemma_vector_products, Vec3, Vector};

verus! {

/// The mathematical reading of a sequence of machine vectors.
pub open spec fn vectors(s: Seq<Vec3>) -> Seq<Vector> {
    s.map_values(|v: Vec3| v@)
}

/// Every vector of the sequence lies within the bound.
pub open spec fn all_within(s: Seq<Vector>, bound: int) -> bool {
    forall|i: int| 0 <= i < s.len() ==> (#[trigger] s[i]).within(bound)
}

/// Bound on the number of corners of a shape.
pub const VERTICES_MAX: usize = 1024;

/// Bound on the number of edges of a shape.
pub const EDGES_MAX: usize = 1024;

/// A convex shape in its own frame, shared by every body that has it: its
/// corners; its faces, each by its four corners, counterclockwise seen from
/// outside; the outward normals of the faces, each of length `ONE`; and its
/// edges as pairs of corners.
#[derive(Debug)]
pub struct Polytope {
    pub vertices: Vec<Vec3>,
    pub faces: Vec<[usize; 4]>,
    pub normals: Vec<Vec3>,
    pub edges: Vec<(usize, usize)>,
}

/// The mathematical reading of a shape.
pub struct Shape {
    pub vertices: Seq<Vector>,
    pub faces: Seq<[usize; 4]>,
    pub normals: Seq<Vector>,
    pub edges: Seq<(usize, usize)>,
}

impl View for Polytope {
    type V = Shape;

    open spec fn view(&self) -> Shape {
        Shape {
            vertices: vectors(self.vertices@),
            faces: self.faces@,
            normals: vectors(self.normals@),
            edges: self.edges@,
        }
    }
}

impl Polytope {
    /// The shape has a corner and not too many, its corners and normals are
    /// in range, each face has a normal, and its faces and edges join
    /// corners that exist.
    pub open spec fn wf(&self) -> bool {
        &&& 0 < self.vertices@.len() <= VERTICES_MAX
        &&& all_within(vectors(self.vertices@), LOCAL_MAX as int)
        &&& all_within(vectors(self.normals@), ONE as int)
        &&& self.faces@.len() == self.normals@.len()
        &&& forall|i: int, k: int|
            0 <= i < self.faces@.len() && 0 <= k < 4 ==> (#[trigger] self.faces@[i][k])
                < self.vertices@.len()
        &&& self.edges@.len() <= EDGES_MAX
        &&& forall|i: int|
            0 <= i < self.edges@.len() ==> (#[trigger] self.edges@[i]).0 < self.vertices@.len()
                && self.edges@[i].1 < self.vertices@.len()
    }

    /// The corners of the cube with the given half side, from the corner
    /// with the least coordinates on, `z` changing first.
    pub open spec fn cube_corners(h: int) -> Seq<Vector> {
        let l = -h;
        seq![
            Vector { x: l, y: l, z: l },
            Vector { x: l, y: l, z: h },
            Vector { x: l, y: h, z: l },
            Vector { x: l, y: h, z: h },
            Vector { x: h, y: l, z: l },
            Vector { x: h, y: l, z: h },
            Vector { x: h, y: h, z: l },
            Vector { x: h, y: h, z: h },
        ]
    }

    /// The outward normals of the faces of a cube, of length `ONE`.
    pub open spec fn cube_normals() -> Seq<Vector> {
        let one = ONE as int;
        let back = -(ONE as int);
        seq![
            Vector { x: back, y: 0, z: 0 },
            Vector { x: one, y: 0, z: 0 },
            Vector { x: 0, y: back, z: 0 },
            Vector { x: 0, y: one, z: 0 },
            Vector { x: 0, y: 0, z: back },
            Vector { x: 0, y: 0, z: one },
        ]
    }

    /// The faces of a cube, in the order of their normals.
    pub open spec fn cube_faces() -> Seq<[usize; 4]> {
        seq![
            [0usize, 1usize, 3usize, 2usize],
            [4usize, 6usize, 7usize, 5usize],
            [0usize, 4usize, 5usize, 1usize],
            [2usize, 3usize, 7usize, 6usize],
            [0usize, 2usize, 6usize, 4usize],
            [1usize, 5usize, 7usize, 3usize],
        ]
    }

    /// The edges of a cube: four along `z`, four along `y`, four along `x`.
    pub open spec fn cube_edges() -> Seq<(usize, usize)> {
        seq![
            (0usize, 1usize),
            (2usize, 3usize),
            (4usize, 5usize),
            (6usize, 7usize),
            (0usize, 2usize),
            (1usize, 3usize),
            (4usize, 6usize),
            (5usize, 7usize),
            (0usize, 4usize),
            (1usize, 5usize),
            (2usize, 6usize),
            (3usize, 7usize),
        ]
    }

    /// The cube with the given half side, its sides along the axes, centred
    /// at the origin.
    pub open spec fn cube_shape(h: int) -> Shape {
        Shape {
            vertices: Polytope::cube_corners(h),
            faces: Polytope::cube_faces(),
            normals: Polytope::cube_normals(),
            edges: Polytope::cube_edges(),
        }
    }

    /// The cube with sides along the axes, centred at the origin.
    pub fn cube(half_side: i128) -> (p: Polytope)
        requires
            0 < half_side <= LOCAL_MAX,
        ensures
            p.wf(),
            p@ == Polytope::cube_shape(half_side as int),
    {
        let h = half_side;
        let l = -half_side;
        let vertices = vec![
            Vec3 { x: l, y: l, z: l },
            Vec3 { x: l, y: l, z: h },
            Vec3 { x: l, y: h, z: l },
            Vec3 { x: l, y: h, z: h },
            Vec3 { x: h, y: l, z: l },
            Vec3 { x: h, y: l, z: h },
            Vec3 { x: h, y: h, z: l },
            Vec3 { x: h, y: h, z: h },
        ];
        let back = -ONE;
        let normals = vec![
            Vec3 { x: back, y: 0, z: 0 },
            Vec3 { x: ONE, y: 0, z: 0 },
            Vec3 { x: 0, y: back, z: 0 },
            Vec3 { x: 0, y: ONE, z: 0 },
            Vec3 { x: 0, y: 0, z: back },
            Vec3 { x: 0, y: 0, z: ONE },
        ];
        let edges: Vec<(usize, usize)> = vec![
            (0, 1),
            (2, 3),
            (4, 5),
            (6, 7),
            (0, 2),
            (1, 3),
            (4, 6),
            (5, 7),
            (0, 4),
            (1, 5),
            (2, 6),
            (3, 7),
        ];
        let faces: Vec<[usize; 4]> = vec![
            [0, 1, 3, 2],
            [4, 6, 7, 5],
            [0, 4, 5, 1],
            [2, 3, 7, 6],
            [0, 2, 6, 4],
            [1, 5, 7, 3],
        ];
        let p = Polytope { vertices, faces, normals, edges };
        proof {
            assert(vectors(p.vertices@) =~= Polytope::cube_corners(half_side as int));
            assert(vectors(p.normals@) =~= Polytope::cube_normals());
        }
        p
    }

    /// The cube whose side is the unit of length.
    pub fn unit_cube() -> (p: Polytope)
        ensures
            p.wf(),
            p@ == Polytope::cube_shape(ONE / 2),
    {
        Polytope::cube(ONE / 2)
    }
}

/// A plane: the points `p` with `normal . p == displacement`. The normal has
/// any length, and the displacement is the distance from the origin times
/// that length.
pub struct PlaneView {
    pub normal: Vector,
    pub displacement: int,
}

impl PlaneView {
    /// The plane through three points, its normal by the right-hand rule.
    pub open spec fn through(a: Vector, b: Vector, c: Vector) -> PlaneView {
        let n = b.minus(a).cross(c.minus(a));
        PlaneView { normal: n, displacement: n.dot(a) }
    }

    /// How far the point is in front of the plane, times the length of the
    /// normal.
    pub open spec fn height(self, p: Vector) -> int {
        self.normal.dot(p) - self.displacement
    }

    /// The length of the normal, rounded down.
    pub open spec fn normal_length(self) -> int {
        floor_sqrt(self.normal.dot(self.normal))
    }

    /// The distance of the plane from the origin in lattice units, negative
    /// where the origin is in front of the plane: the displacement divided
    /// by the rounded length of the normal, rounded to the nearest integer.
    pub open spec fn distance(self) -> int {
        round_div(self.displacement, self.normal_length())
    }
}

/// A plane with machine coordinates.
#[derive(Clone, Copy, Debug)]
pub struct Plane {
    pub normal: Vec3,
    pub displacement: i128,
}

impl View for Plane {
    type V = PlaneView;

    open spec fn view(&self) -> PlaneView {
        PlaneView { normal: self.normal@, displacement: self.displacement as int }
    }
}

impl Plane {
    /// The normal is one that three points of a Minkowski difference can
    /// span, and is not zero; the displacement is that of a point of a
    /// Minkowski difference.
    pub open spec fn wf(&self) -> bool {
        &&& self.normal@.within(NORMAL_MAX as int)
        &&& self.normal@ != Vector::zero()
        &&& -3 * (NORMAL_MAX * MINKOWSKI_MAX) <= self.displacement <= 3 * (NORMAL_MAX
            * MINKOWSKI_MAX)
    }

    /// The plane through three points, its normal by the right-hand rule.
    pub open spec fn from_points_spec(points: [Vec3; 3]) -> PlaneView {
        PlaneView::through(points[0]@, points[1]@, points[2]@)
    }

    /// The plane through three points, its normal by the right-hand rule.
    pub fn from_points(points: [Vec3; 3]) -> (p: Plane)
        requires
            points[0]@.within(MINKOWSKI_MAX as int),
            points[1]@.within(MINKOWSKI_MAX as int),
            points[2]@.within(MINKOWSKI_MAX as int),
        ensures
            p@ == Plane::from_points_spec(points),
            p.normal@.within(NORMAL_MAX as int),
            -3 * (NORMAL_MAX * MINKOWSKI_MAX) <= p.displacement <= 3 * (NORMAL_MAX
                * MINKOWSKI_MAX),
    {
        let a = points[0];
        let b = points[1];
        let c = points[2];
        let ab = b.minus(&a);
        let ac = c.minus(&a);
        proof {
            lemma_vector_products(ab@, ac@, EDGE_MAX as int, EDGE_MAX as int);
            lemma_vector_products(ab@.cross(ac@), a@, NORMAL_MAX as int, MINKOWSKI_MAX as int);
        }
        let normal = ab.cross(&ac);
        Plane { normal, displacement: normal.dot(&a) }
    }

    /// The length of the normal, rounded down.
    pub fn normal_length(&self) -> (r: i128)
        requires
            self.wf(),
        ensures
            r == self@.normal_length(),
            0 < r < 0x1000_0000_0000_0000,
    {
        proof {
            lemma_vector_products(self.normal@, self.normal@, NORMAL_MAX as int, NORMAL_MAX as int);
            lemma_square_positive(self.normal@);
        }
        let r = integer_sqrt(self.normal.dot(&self.normal));
        proof {
            let n = self.normal@.dot(self.normal@);
            assert(r != 0) by (nonlinear_arith)
                requires
                    n >= 1,
                    n < (r + 1) * (r + 1),
            ;
        }
        r
    }

    /// The distance of the plane from the origin in lattice units.
    pub fn distance(&self) -> (r: i128)
        requires
            self.wf(),
        ensures
            r == self@.distance(),
    {
        let len = self.normal_length();
        rounded_quotient(self.displacement, len)
    }
}

/// A vector that is not zero has a positive square.
pub proof fn lemma_square_positive(v: Vector)
    requires
        v != Vector::zero(),
    ensures
        v.dot(v) >= 1,
{
    assert(v.x * v.x >= 0 && (v.x != 0 ==> v.x * v.x >= 1)) by (nonlinear_arith);
    assert(v.y * v.y >= 0 && (v.y != 0 ==> v.y * v.y >= 1)) by (nonlinear_arith);
    assert(v.z * v.z >= 0 && (v.z != 0 ==> v.z * v.z >= 1)) by (nonlinear_arith);
}

/// The vector brought to the length `ONE`: each coordinate times `ONE` over
/// the length of the vector, the length rounded down and the quotient to
/// the nearest integer. The vector is not zero.
pub open spec fn unit_of(v: Vector) -> Vector {
    let len = floor_sqrt(v.dot(v));
    Vector {
        x: round_div(v.x * ONE, len),
        y: round_div(v.y * ONE, len),
        z: round_div(v.z * ONE, len),
    }
}

/// The coordinates of a vector do not exceed its length.
proof fn lemma_coordinates_below_length(c: Vector, len: int)
    requires
        len >= 0,
        c.dot(c) < (len + 1) * (len + 1),
    ensures
        c.within(len),
{
    assert(c.y * c.y >= 0 && c.x * c.x >= 0 && c.z * c.z >= 0) by (nonlinear_arith);
    lemma_square_below(c.x, c.y * c.y + c.z * c.z, len);
    lemma_square_below(c.y, c.x * c.x + c.z * c.z, len);
    lemma_square_below(c.z, c.x * c.x + c.y * c.y, len);
}

proof fn lemma_square_below(x: int, rest: int, len: int)
    by (nonlinear_arith)
    requires
        len >= 0,
        rest >= 0,
        x * x + rest < (len + 1) * (len + 1),
    ensures
        -len <= x <= len,
        -(ONE * len) <= x * ONE <= ONE * len,
{
}

/// The vector brought to the length `ONE`.
pub fn unit_vector(v: &Vec3) -> (r: Vec3)
    requires
        v@.within(NORMAL_MAX as int),
        v@ != Vector::zero(),
    ensures
        r@ == unit_of(v@),
        r@.within(ONE as int),
{
    proof {
        lemma_vector_products(v@, v@, NORMAL_MAX as int, NORMAL_MAX as int);
        lemma_square_positive(v@);
    }
    let vv = v.dot(v);
    let len = integer_sqrt(vv);
    proof {
        assert(len != 0) by (nonlinear_arith)
            requires
                vv >= 1,
                vv < (len + 1) * (len + 1),
        ;
        assert(v.y * v.y >= 0 && v.x * v.x >= 0 && v.z * v.z >= 0) by (nonlinear_arith);
        lemma_coordinates_below_length(v@, len as int);
        lemma_square_below(v.x as int, v.y * v.y + v.z * v.z, len as int);
        lemma_square_below(v.y as int, v.x * v.x + v.z * v.z, len as int);
        lemma_square_below(v.z as int, v.x * v.x + v.y * v.y, len as int);
        lemma_round_div_bounded(v.x * ONE, len as int, ONE as int);
        lemma_round_div_bounded(v.y * ONE, len as int, ONE as int);
        lemma_round_div_bounded(v.z * ONE, len as int, ONE as int);
    }
    Vec3 {
        x: rounded_quotient(v.x * ONE, len),
        y: rounded_quotient(v.y * ONE, len),
        z: rounded_quotient(v.z * ONE, len),
    }
}

} // verus!
