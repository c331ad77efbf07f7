//! The overlap search: the simplex that it carries, the rule that encloses
//! a new point into the simplex, and the search itself.
//!
//! All points are points of a Minkowski difference on the integer lattice, so
//! every orientation test is exact: no tolerance is involved.

use vstd::prelude::*;
use crate::collision::support::{
    is_difference, lemma_difference_behind, lemma_minkowski_point,
    lemma_unreached_origin_separates, minkowski_of, minkowski_point, separates,
    separates_strictly,
};
use crate::geometry::{all_within, vectors};
use crate::limits::{COORD_MAX, DIRECTION_MAX, EDGE_MAX, MINKOWSKI_MAX, NORMAL_MAX};
use crate::vector::{
    lemma_cramer, lemma_cross_of_differences, lemma_dot_rules, lemma_dot_scaled,
    lemma_triple_rules, lemma_vector_products, Vec3, Vector,
};

verus! {

/// One to three points, the most recently added first.
pub enum SimplexView {
    Point(Vector),
    Line(Vector, Vector),
    Triangle(Vector, Vector, Vector),
}

impl SimplexView {
    /// The point that was added last.
    pub open spec fn newest(self) -> Vector {
        match self {
            SimplexView::Point(a) => a,
            SimplexView::Line(a, _) => a,
            SimplexView::Triangle(a, _, _) => a,
        }
    }

    pub open spec fn has(self, p: Vector) -> bool {
        match self {
            SimplexView::Point(a) => p == a,
            SimplexView::Line(a, b) => p == a || p == b,
            SimplexView::Triangle(a, b, c) => p == a || p == b || p == c,
        }
    }

    pub open spec fn within(self, bound: int) -> bool {
        match self {
            SimplexView::Point(a) => a.within(bound),
            SimplexView::Line(a, b) => a.within(bound) && b.within(bound),
            SimplexView::Triangle(a, b, c) => a.within(bound) && b.within(bound) && c.within(
                bound,
            ),
        }
    }
}

/// Four points.
pub struct TetrahedronView {
    pub a: Vector,
    pub b: Vector,
    pub c: Vector,
    pub d: Vector,
}

/// One weight for each corner of a tetrahedron.
pub struct Weights {
    pub a: int,
    pub b: int,
    pub c: int,
    pub d: int,
}

impl TetrahedronView {
    pub open spec fn has(self, p: Vector) -> bool {
        p == self.a || p == self.b || p == self.c || p == self.d
    }

    pub open spec fn within(self, bound: int) -> bool {
        self.a.within(bound) && self.b.within(bound) && self.c.within(bound) && self.d.within(
            bound,
        )
    }

    /// Six times the signed volume.
    pub open spec fn volume(self) -> int {
        self.b.minus(self.a).triple(self.c.minus(self.a), self.d.minus(self.a))
    }

    /// The weight of the corner `b`: six times the signed volume of the
    /// tetrahedron with the origin in place of `b`.
    pub open spec fn weight_b(self) -> int {
        self.c.minus(self.a).triple(self.d.minus(self.a), self.a.negated())
    }

    /// The weight of the corner `c`.
    pub open spec fn weight_c(self) -> int {
        self.d.minus(self.a).triple(self.b.minus(self.a), self.a.negated())
    }

    /// The weight of the corner `d`.
    pub open spec fn weight_d(self) -> int {
        self.b.minus(self.a).triple(self.c.minus(self.a), self.a.negated())
    }

    /// The weight of the corner `a`: the four weights add up to the volume.
    pub open spec fn weight_a(self) -> int {
        self.volume() - self.weight_b() - self.weight_c() - self.weight_d()
    }

    /// The tetrahedron has volume and the origin is beyond none of its
    /// faces: no weight has the sign opposite to the volume.
    pub open spec fn surrounds_origin(self) -> bool {
        &&& self.volume() != 0
        &&& !opposes(self.volume(), self.weight_a())
        &&& !opposes(self.volume(), self.weight_b())
        &&& !opposes(self.volume(), self.weight_c())
        &&& !opposes(self.volume(), self.weight_d())
    }

    /// The weights are not negative, not all zero, and the corners weighted
    /// by them add up to the origin.
    pub open spec fn balanced_by(self, w: Weights) -> bool {
        &&& w.a >= 0 && w.b >= 0 && w.c >= 0 && w.d >= 0
        &&& w.a + w.b + w.c + w.d > 0
        &&& self.a.scaled(w.a).plus(self.b.scaled(w.b)).plus(self.c.scaled(w.c)).plus(
            self.d.scaled(w.d),
        ) == Vector::zero()
    }

    /// The origin is a convex combination of the corners: it lies in the
    /// closed tetrahedron.
    pub open spec fn encloses_origin(self) -> bool {
        exists|w: Weights| self.balanced_by(w)
    }
}

/// What enclosing a point yields: the tetrahedron that holds the origin, or
/// the simplex to go on with and the direction to search next.
pub enum Step {
    Enclosed(TetrahedronView),
    Next(SimplexView, Vector),
}

/// Some vector at a right angle to `v`; not zero unless `v` is.
pub open spec fn perpendicular(v: Vector) -> Vector {
    if v.x != 0 || v.y != 0 {
        Vector { x: -v.y, y: v.x, z: 0 }
    } else {
        Vector { x: 0, y: -v.z, z: v.y }
    }
}

/// The direction at a right angle to the line along `ab` that points from the
/// line to the origin, `ao` leading from a point of the line to the origin.
/// Where the origin is on the line, some direction at a right angle to it.
pub open spec fn toward_origin(ab: Vector, ao: Vector) -> Vector {
    let t = ab.cross(ao).cross(ab);
    if t == Vector::zero() {
        perpendicular(ab)
    } else {
        t
    }
}

/// The part of the segment from `a` to `b` nearest the origin, `a` being the
/// newer point, and the direction from it to the origin.
pub open spec fn line_step(a: Vector, b: Vector) -> (SimplexView, Vector) {
    let ab = b.minus(a);
    let ao = a.negated();
    if ab.dot(ao) > 0 {
        (SimplexView::Line(a, b), toward_origin(ab, ao))
    } else {
        (SimplexView::Point(a), ao)
    }
}

/// The part of the triangle `a`, `b`, `c` in whose region the origin lies,
/// `a` being the newest point, and the direction from it to the origin. A
/// triangle that is kept is wound so that its normal is that direction.
pub open spec fn triangle_step(a: Vector, b: Vector, c: Vector) -> (SimplexView, Vector) {
    let ab = b.minus(a);
    let ac = c.minus(a);
    let ao = a.negated();
    let abc = ab.cross(ac);
    if abc == Vector::zero() {
        line_step(a, b)
    } else if abc.cross(ac).dot(ao) > 0 {
        if ac.dot(ao) > 0 {
            (SimplexView::Line(a, c), toward_origin(ac, ao))
        } else {
            line_step(a, b)
        }
    } else if ab.cross(abc).dot(ao) > 0 {
        line_step(a, b)
    } else if abc.dot(ao) < 0 {
        (SimplexView::Triangle(a, c, b), abc.negated())
    } else {
        (SimplexView::Triangle(a, b, c), abc)
    }
}

/// The weight `w` of a corner has the sign opposite to the volume: the origin
/// is strictly beyond the face across from that corner.
pub open spec fn opposes(volume: int, w: int) -> bool {
    (volume > 0 && w < 0) || (volume < 0 && w > 0)
}

/// The tetrahedron `a`, `b`, `c`, `d`, if it has volume and the origin is
/// beyond none of its faces; else the face beyond which the origin lies,
/// handled as a triangle.
pub open spec fn tetrahedron_step(a: Vector, b: Vector, c: Vector, d: Vector) -> Step {
    let ab = b.minus(a);
    let ac = c.minus(a);
    let ad = d.minus(a);
    let ao = a.negated();
    let volume = ab.triple(ac, ad);
    let wd = ab.triple(ac, ao);
    let wb = ac.triple(ad, ao);
    let wc = ad.triple(ab, ao);
    let wa = volume - wb - wc - wd;
    if volume == 0 || opposes(volume, wd) {
        let (s, dir) = triangle_step(a, b, c);
        Step::Next(s, dir)
    } else if opposes(volume, wb) {
        let (s, dir) = triangle_step(a, c, d);
        Step::Next(s, dir)
    } else if opposes(volume, wc) {
        let (s, dir) = triangle_step(a, d, b);
        Step::Next(s, dir)
    } else if opposes(volume, wa) {
        let n = c.minus(b).cross(d.minus(b));
        Step::Next(SimplexView::Triangle(b, c, d), if volume > 0 { n } else { n.negated() })
    } else {
        Step::Enclosed(TetrahedronView { a, b, c, d })
    }
}

/// Encloses the point `p` into the simplex `s`.
pub open spec fn enclose_spec(s: SimplexView, p: Vector) -> Step {
    match s {
        SimplexView::Point(b) => {
            let (s, dir) = line_step(p, b);
            Step::Next(s, dir)
        },
        SimplexView::Line(b, c) => {
            let (s, dir) = triangle_step(p, b, c);
            Step::Next(s, dir)
        },
        SimplexView::Triangle(b, c, d) => tetrahedron_step(p, b, c, d),
    }
}

/// The normal of the face across from a corner measures that corner by the
/// volume: with `u`, `v`, `w` the edges leaving the corner, the normal of the
/// far face, taken at the end of `u`, gives minus the determinant.
pub proof fn lemma_base_normal(u: Vector, v: Vector, w: Vector)
    ensures
        v.minus(u).cross(w.minus(u)).dot(u.negated()) == -u.triple(v, w),
{
    let p = v.cross(w);
    let q = v.cross(u);
    let r = u.cross(w);
    lemma_cross_of_differences(u, v, w);
    lemma_triple_rules(v, u, w);
    lemma_triple_rules(u, w, v);
    lemma_triple_rules(v, w, u);
    lemma_dot_rules(p.minus(q).minus(r), u, u);
    lemma_dot_rules(p.minus(q), r, u);
    lemma_dot_rules(p, q, u);
}

/// Moves a weighted sum of differences from a corner `a` to the points
/// themselves.
proof fn lemma_rebase(wb: int, wc: int, wd: int, volume: int, a: int, b: int, c: int, d: int)
    requires
        wb * (b - a) + wc * (c - a) + wd * (d - a) == volume * (-a),
    ensures
        (volume - wb - wc - wd) * a + wb * b + wc * c + wd * d == 0,
        (-(volume - wb - wc - wd)) * a + (-wb) * b + (-wc) * c + (-wd) * d == 0,
{
    use_mul_rules(wb, b, a);
    use_mul_rules(wc, c, a);
    use_mul_rules(wd, d, a);
    use_mul_rules(volume, a, a);
    use_mul_rules(wb, b, b);
    use_mul_rules(wc, c, c);
    use_mul_rules(wd, d, d);
    let rest = volume - wb - wc - wd;
    use_mul_rules(rest, a, a);
    assert(rest * a == volume * a - wb * a - wc * a - wd * a) by (nonlinear_arith)
        requires
            rest == volume - wb - wc - wd,
    ;
}

/// The rules of sign and of differences for one product.
proof fn use_mul_rules(x: int, y: int, z: int)
    by (nonlinear_arith)
    ensures
        x * (y - z) == x * y - x * z,
        x * (-y) == -(x * y),
        (-x) * y == -(x * y),
{
}

/// A tetrahedron that `tetrahedron_step` accepts surrounds the origin.
pub proof fn lemma_enclosed_surrounds_origin(a: Vector, b: Vector, c: Vector, d: Vector)
    ensures
        tetrahedron_step(a, b, c, d) is Enclosed <==> (TetrahedronView {
            a,
            b,
            c,
            d,
        }).surrounds_origin(),
{
}

/// A tetrahedron that surrounds the origin holds it: the weights of its
/// corners, with the sign of the volume, make the origin a convex
/// combination of the corners.
pub proof fn lemma_surrounded_is_enclosed(t: TetrahedronView)
    requires
        t.surrounds_origin(),
    ensures
        t.encloses_origin(),
{
    let ab = t.b.minus(t.a);
    let ac = t.c.minus(t.a);
    let ad = t.d.minus(t.a);
    let ao = t.a.negated();
    let volume = t.volume();
    let wd = t.weight_d();
    let wb = t.weight_b();
    let wc = t.weight_c();
    let wa = t.weight_a();
    lemma_cramer(ab, ac, ad, ao);
    lemma_rebase(wb, wc, wd, volume, t.a.x, t.b.x, t.c.x, t.d.x);
    lemma_rebase(wb, wc, wd, volume, t.a.y, t.b.y, t.c.y, t.d.y);
    lemma_rebase(wb, wc, wd, volume, t.a.z, t.b.z, t.c.z, t.d.z);
    let w = if volume > 0 {
        Weights { a: wa, b: wb, c: wc, d: wd }
    } else {
        Weights { a: -wa, b: -wb, c: -wc, d: -wd }
    };
    assert(t.balanced_by(w));
}

/// The weight of the corner `a` is the volume of the tetrahedron with the
/// origin in place of `a`: the normal of the face `b`, `d`, `c` measures the
/// origin by it.
pub proof fn lemma_weight_of_first_corner(t: TetrahedronView)
    ensures
        t.d.minus(t.b).cross(t.c.minus(t.b)).dot(t.b.negated()) == t.weight_a(),
{
    let u = t.b.minus(t.a);
    let v = t.c.minus(t.a);
    let w = t.d.minus(t.a);
    let o = t.a.negated();
    let n = w.minus(u).cross(v.minus(u));
    lemma_cross_of_differences(u, w, v);
    let p = w.cross(v);
    let q = w.cross(u);
    let r = u.cross(v);
    lemma_dot_rules(o, u, n);
    lemma_dot_rules(p.minus(q), r, o);
    lemma_dot_rules(p, q, o);
    lemma_dot_rules(p.minus(q), r, u);
    lemma_dot_rules(p, q, u);
    lemma_triple_rules(w, v, o);
    lemma_triple_rules(w, u, u);
    lemma_triple_rules(u, v, u);
    lemma_triple_rules(w, v, u);
    lemma_triple_rules(v, u, w);
    lemma_triple_rules(u, v, w);
}

proof fn lemma_weighted_negative(w: int, x: int)
    by (nonlinear_arith)
    requires
        w >= 0,
        x < 0,
    ensures
        w * x <= 0,
        w > 0 ==> w * x < 0,
{
}

/// A convex combination of points strictly behind a plane through the
/// origin cannot be the origin: a tetrahedron that holds the origin has no
/// direction in which all four corners are strictly behind.
pub proof fn lemma_enclosing_meets_every_side(t: TetrahedronView, n: Vector)
    requires
        t.encloses_origin(),
    ensures
        n.dot(t.a) >= 0 || n.dot(t.b) >= 0 || n.dot(t.c) >= 0 || n.dot(t.d) >= 0,
{
    let w = choose|w: Weights| t.balanced_by(w);
    let sa = t.a.scaled(w.a);
    let sb = t.b.scaled(w.b);
    let sc = t.c.scaled(w.c);
    let sd = t.d.scaled(w.d);
    lemma_dot_rules(sa.plus(sb).plus(sc), sd, n);
    lemma_dot_rules(sa.plus(sb), sc, n);
    lemma_dot_rules(sa, sb, n);
    lemma_dot_scaled(t.a, w.a, n);
    lemma_dot_scaled(t.b, w.b, n);
    lemma_dot_scaled(t.c, w.c, n);
    lemma_dot_scaled(t.d, w.d, n);
    if n.dot(t.a) < 0 && n.dot(t.b) < 0 && n.dot(t.c) < 0 && n.dot(t.d) < 0 {
        lemma_weighted_negative(w.a, n.dot(t.a));
        lemma_weighted_negative(w.b, n.dot(t.b));
        lemma_weighted_negative(w.c, n.dot(t.c));
        lemma_weighted_negative(w.d, n.dot(t.d));
    }
}

/// Enclosing a point makes a simplex or a tetrahedron out of that point and
/// points of the simplex, and accepts a tetrahedron only if it surrounds the
/// origin.
pub proof fn lemma_enclose_spec(s: SimplexView, p: Vector)
    ensures
        match enclose_spec(s, p) {
            Step::Enclosed(t) => t.surrounds_origin() && forall|q: Vector|
                t.has(q) ==> q == p || s.has(q),
            Step::Next(next, _) => forall|q: Vector| next.has(q) ==> q == p || s.has(q),
        },
{
    match s {
        SimplexView::Point(b) => {},
        SimplexView::Line(b, c) => {},
        SimplexView::Triangle(b, c, d) => {
            lemma_enclosed_surrounds_origin(p, b, c, d);
        },
    }
}

/// A simplex of the search: one to three points of the Minkowski difference,
/// the most recently added first.
#[derive(Clone, Copy, Debug)]
pub enum Simplex {
    Point(Vec3),
    Line(Vec3, Vec3),
    Triangle(Vec3, Vec3, Vec3),
}

impl View for Simplex {
    type V = SimplexView;

    open spec fn view(&self) -> SimplexView {
        match *self {
            Simplex::Point(a) => SimplexView::Point(a@),
            Simplex::Line(a, b) => SimplexView::Line(a@, b@),
            Simplex::Triangle(a, b, c) => SimplexView::Triangle(a@, b@, c@),
        }
    }
}

/// Four points of the Minkowski difference around the origin: the
/// certificate of an overlap.
#[derive(Clone, Copy, Debug)]
pub struct Tetrahedron {
    pub a: Vec3,
    pub b: Vec3,
    pub c: Vec3,
    pub d: Vec3,
}

impl View for Tetrahedron {
    type V = TetrahedronView;

    open spec fn view(&self) -> TetrahedronView {
        TetrahedronView { a: self.a@, b: self.b@, c: self.c@, d: self.d@ }
    }
}

/// The mathematical reading of what `Simplex::enclose` returns.
pub open spec fn step_of(r: Result<Tetrahedron, (Simplex, Vec3)>) -> Step {
    match r {
        Ok(t) => Step::Enclosed(t@),
        Err((s, dir)) => Step::Next(s@, dir@),
    }
}

/// The zero vector gives zero in every product.
pub proof fn lemma_zero_products(a: Vector, b: Vector)
    requires
        a == Vector::zero(),
    ensures
        a.dot(b) == 0,
        b.dot(a) == 0,
        a.cross(b) == Vector::zero(),
        b.cross(a) == Vector::zero(),
{
}

fn perpendicular_to(v: &Vec3) -> (r: Vec3)
    requires
        v@.within(EDGE_MAX as int),
    ensures
        r@ == perpendicular(v@),
        r@.within(EDGE_MAX as int),
        v@ != Vector::zero() ==> r@ != Vector::zero(),
{
    if v.x != 0 || v.y != 0 {
        Vec3 { x: -v.y, y: v.x, z: 0 }
    } else {
        Vec3 { x: 0, y: -v.z, z: v.y }
    }
}

fn direction_toward_origin(ab: &Vec3, ao: &Vec3) -> (r: Vec3)
    requires
        ab@.within(EDGE_MAX as int),
        ao@.within(MINKOWSKI_MAX as int),
    ensures
        r@ == toward_origin(ab@, ao@),
        r@.within(DIRECTION_MAX as int),
        ab@ != Vector::zero() ==> r@ != Vector::zero(),
{
    proof {
        lemma_vector_products(ab@, ao@, EDGE_MAX as int, MINKOWSKI_MAX as int);
    }
    let n = ab.cross(ao);
    proof {
        lemma_vector_products(n@, ab@, 0x10_0000_0000_0000, EDGE_MAX as int);
    }
    let t = n.cross(ab);
    if t.is_zero() {
        perpendicular_to(ab)
    } else {
        t
    }
}

fn enclose_in_line(a: Vec3, b: Vec3) -> (r: (Simplex, Vec3))
    requires
        a@.within(MINKOWSKI_MAX as int),
        b@.within(MINKOWSKI_MAX as int),
    ensures
        (r.0@, r.1@) == line_step(a@, b@),
        r.0@.within(MINKOWSKI_MAX as int),
        r.1@.within(DIRECTION_MAX as int),
        a@ != Vector::zero() ==> r.1@ != Vector::zero(),
        forall|q: Vector| r.0@.has(q) ==> q == a@ || q == b@,
{
    let ab = b.minus(&a);
    let ao = a.negated();
    proof {
        lemma_vector_products(ab@, ao@, EDGE_MAX as int, MINKOWSKI_MAX as int);
        if ab@ == Vector::zero() {
            lemma_zero_products(ab@, ao@);
        }
    }
    if ab.dot(&ao) > 0 {
        let dir = direction_toward_origin(&ab, &ao);
        (Simplex::Line(a, b), dir)
    } else {
        (Simplex::Point(a), ao)
    }
}

fn enclose_in_triangle(a: Vec3, b: Vec3, c: Vec3) -> (r: (Simplex, Vec3))
    requires
        a@.within(MINKOWSKI_MAX as int),
        b@.within(MINKOWSKI_MAX as int),
        c@.within(MINKOWSKI_MAX as int),
    ensures
        (r.0@, r.1@) == triangle_step(a@, b@, c@),
        r.0@.within(MINKOWSKI_MAX as int),
        r.1@.within(DIRECTION_MAX as int),
        a@ != Vector::zero() ==> r.1@ != Vector::zero(),
        forall|q: Vector| r.0@.has(q) ==> q == a@ || q == b@ || q == c@,
{
    let ab = b.minus(&a);
    let ac = c.minus(&a);
    let ao = a.negated();
    proof {
        lemma_vector_products(ab@, ac@, EDGE_MAX as int, EDGE_MAX as int);
    }
    let abc = ab.cross(&ac);
    if abc.is_zero() {
        return enclose_in_line(a, b);
    }
    proof {
        lemma_vector_products(abc@, ac@, NORMAL_MAX as int, EDGE_MAX as int);
        lemma_vector_products(ab@, abc@, EDGE_MAX as int, NORMAL_MAX as int);
        lemma_vector_products(abc@.cross(ac@), ao@, 0x1_0000_0000_0000_0000_0000, MINKOWSKI_MAX as int);
        lemma_vector_products(ab@.cross(abc@), ao@, 0x1_0000_0000_0000_0000_0000, MINKOWSKI_MAX as int);
        lemma_vector_products(ac@, ao@, EDGE_MAX as int, MINKOWSKI_MAX as int);
        lemma_vector_products(abc@, ao@, NORMAL_MAX as int, MINKOWSKI_MAX as int);
        if ac@ == Vector::zero() {
            lemma_zero_products(ac@, ao@);
        }
    }
    if abc.cross(&ac).dot(&ao) > 0 {
        if ac.dot(&ao) > 0 {
            let dir = direction_toward_origin(&ac, &ao);
            (Simplex::Line(a, c), dir)
        } else {
            enclose_in_line(a, b)
        }
    } else if ab.cross(&abc).dot(&ao) > 0 {
        enclose_in_line(a, b)
    } else if abc.dot(&ao) < 0 {
        (Simplex::Triangle(a, c, b), abc.negated())
    } else {
        (Simplex::Triangle(a, b, c), abc)
    }
}

fn sign_opposes(volume: i128, w: i128) -> (r: bool)
    ensures
        r == opposes(volume as int, w as int),
{
    (volume > 0 && w < 0) || (volume < 0 && w > 0)
}

fn enclose_in_tetrahedron(a: Vec3, b: Vec3, c: Vec3, d: Vec3) -> (r: Result<
    Tetrahedron,
    (Simplex, Vec3),
>)
    requires
        a@.within(MINKOWSKI_MAX as int),
        b@.within(MINKOWSKI_MAX as int),
        c@.within(MINKOWSKI_MAX as int),
        d@.within(MINKOWSKI_MAX as int),
    ensures
        step_of(r) == tetrahedron_step(a@, b@, c@, d@),
        r matches Ok(t) ==> t@ == (TetrahedronView { a: a@, b: b@, c: c@, d: d@ }),
        r matches Err((s, dir)) ==> {
            &&& s@.within(MINKOWSKI_MAX as int)
            &&& dir@.within(DIRECTION_MAX as int)
            &&& (a@ != Vector::zero() ==> dir@ != Vector::zero())
            &&& forall|q: Vector| s@.has(q) ==> q == a@ || q == b@ || q == c@ || q == d@
        },
{
    let ab = b.minus(&a);
    let ac = c.minus(&a);
    let ad = d.minus(&a);
    let ao = a.negated();
    proof {
        lemma_vector_products(ab@, ac@, EDGE_MAX as int, EDGE_MAX as int);
        lemma_vector_products(ac@, ad@, EDGE_MAX as int, EDGE_MAX as int);
        lemma_vector_products(ad@, ab@, EDGE_MAX as int, EDGE_MAX as int);
        lemma_vector_products(ab@.cross(ac@), ad@, NORMAL_MAX as int, EDGE_MAX as int);
        lemma_vector_products(ab@.cross(ac@), ao@, NORMAL_MAX as int, MINKOWSKI_MAX as int);
        lemma_vector_products(ac@.cross(ad@), ao@, NORMAL_MAX as int, MINKOWSKI_MAX as int);
        lemma_vector_products(ad@.cross(ab@), ao@, NORMAL_MAX as int, MINKOWSKI_MAX as int);
    }
    let abc = ab.cross(&ac);
    let volume = abc.dot(&ad);
    let wd = abc.dot(&ao);
    if volume == 0 || sign_opposes(volume, wd) {
        return Err(enclose_in_triangle(a, b, c));
    }
    let wb = ac.cross(&ad).dot(&ao);
    if sign_opposes(volume, wb) {
        return Err(enclose_in_triangle(a, c, d));
    }
    let wc = ad.cross(&ab).dot(&ao);
    if sign_opposes(volume, wc) {
        return Err(enclose_in_triangle(a, d, b));
    }
    let wa = volume - wb - wc - wd;
    if sign_opposes(volume, wa) {
        let bc = c.minus(&b);
        let bd = d.minus(&b);
        proof {
            lemma_vector_products(bc@, bd@, EDGE_MAX as int, EDGE_MAX as int);
            lemma_base_normal(ab@, ac@, ad@);
            if bc@.cross(bd@) == Vector::zero() {
                lemma_zero_products(bc@.cross(bd@), ab@.negated());
            }
        }
        let n = bc.cross(&bd);
        let dir = if volume > 0 {
            n
        } else {
            n.negated()
        };
        return Err((Simplex::Triangle(b, c, d), dir));
    }
    Ok(Tetrahedron { a, b, c, d })
}

impl Simplex {
    /// Encloses a new point of the Minkowski difference into the simplex.
    ///
    /// Returns the tetrahedron made of the new point and the simplex, if the
    /// simplex is a triangle and that tetrahedron holds the origin; else the
    /// part of the enlarged simplex nearest the origin together with the
    /// direction in which to search next, which is zero only if `support` is.
    /// The new point comes first in what is returned, unless the simplex is
    /// a triangle and is returned as it is.
    pub fn enclose(self, support: Vec3) -> (r: Result<Tetrahedron, (Simplex, Vec3)>)
        requires
            self@.within(MINKOWSKI_MAX as int),
            support@.within(MINKOWSKI_MAX as int),
        ensures
            step_of(r) == enclose_spec(self@, support@),
            r matches Ok(t) ==> {
                &&& t@.surrounds_origin()
                &&& t@.encloses_origin()
                &&& t@.within(MINKOWSKI_MAX as int)
                &&& forall|q: Vector| t@.has(q) ==> q == support@ || self@.has(q)
            },
            r matches Err((s, dir)) ==> {
                &&& s@.within(MINKOWSKI_MAX as int)
                &&& dir@.within(DIRECTION_MAX as int)
                &&& (support@ != Vector::zero() ==> dir@ != Vector::zero())
                &&& forall|q: Vector| s@.has(q) ==> q == support@ || self@.has(q)
                &&& s@.newest() == support@ || (self@ is Triangle && s@ == self@)
            },
            r matches Ok(t) ==> t.a == support,
    {
        match self {
            Simplex::Point(b) => Err(enclose_in_line(support, b)),
            Simplex::Line(b, c) => Err(enclose_in_triangle(support, b, c)),
            Simplex::Triangle(b, c, d) => {
                let r = enclose_in_tetrahedron(support, b, c, d);
                proof {
                    lemma_enclosed_surrounds_origin(support@, b@, c@, d@);
                    if r is Ok {
                        lemma_surrounded_is_enclosed(r->Ok_0@);
                    }
                }
                r
            },
        }
    }
}

/// The number of points that the overlap search tries before it gives up.
pub const GJK_ROUNDS: usize = 64;

/// The outcome of the overlap search.
pub enum VerdictView {
    /// Four points of the Minkowski difference around the origin.
    Overlap(TetrahedronView),
    /// A direction along which the first body ends where the second begins,
    /// or before.
    Apart(Vector),
    /// The search has used up its rounds.
    Undecided,
}

/// The search from a simplex and a direction on, for at most `rounds` more
/// points: the support point of the Minkowski difference in the direction
/// either shows that the origin is out of reach, or is enclosed into the
/// simplex.
pub open spec fn search(
    a: Seq<Vector>,
    b: Seq<Vector>,
    simplex: SimplexView,
    dir: Vector,
    rounds: nat,
) -> VerdictView
    decreases rounds,
{
    if rounds == 0 {
        VerdictView::Undecided
    } else {
        let p = minkowski_point(a, b, dir);
        if dir.dot(p) <= 0 {
            VerdictView::Apart(dir)
        } else {
            match enclose_spec(simplex, p) {
                Step::Enclosed(t) => VerdictView::Overlap(t),
                Step::Next(s, d) => search(a, b, s, d, (rounds - 1) as nat),
            }
        }
    }
}

/// The whole search: it starts at the support point along the first axis.
pub open spec fn gjk_spec(a: Seq<Vector>, b: Seq<Vector>) -> VerdictView {
    let first = minkowski_point(a, b, Vector::unit_x());
    if first == Vector::zero() {
        VerdictView::Apart(Vector::unit_x())
    } else {
        search(a, b, SimplexView::Point(first), first.negated(), GJK_ROUNDS as nat)
    }
}

/// Two sets that a direction separates with room between them have no
/// tetrahedron of differences around the origin.
pub proof fn lemma_separated_sets_have_no_tetrahedron(
    a: Seq<Vector>,
    b: Seq<Vector>,
    dir: Vector,
    t: TetrahedronView,
)
    requires
        separates_strictly(a, b, dir),
        is_difference(a, b, t.a),
        is_difference(a, b, t.b),
        is_difference(a, b, t.c),
        is_difference(a, b, t.d),
    ensures
        !t.encloses_origin(),
{
    if t.encloses_origin() {
        lemma_enclosing_meets_every_side(t, dir);
        lemma_difference_behind(a, b, dir, t.a);
        lemma_difference_behind(a, b, dir, t.b);
        lemma_difference_behind(a, b, dir, t.c);
        lemma_difference_behind(a, b, dir, t.d);
    }
}

/// A tetrahedron that the search finds surrounds the origin and is made of
/// differences of the two sets.
pub proof fn lemma_search_certified(
    a: Seq<Vector>,
    b: Seq<Vector>,
    simplex: SimplexView,
    dir: Vector,
    rounds: nat,
)
    requires
        a.len() > 0,
        b.len() > 0,
        forall|q: Vector| simplex.has(q) ==> is_difference(a, b, q),
    ensures
        search(a, b, simplex, dir, rounds) matches VerdictView::Overlap(t) ==> t.surrounds_origin()
            && is_difference(a, b, t.a) && is_difference(a, b, t.b) && is_difference(a, b, t.c)
            && is_difference(a, b, t.d),
    decreases rounds,
{
    if rounds > 0 {
        let p = minkowski_point(a, b, dir);
        lemma_minkowski_point(a, b, dir);
        lemma_enclose_spec(simplex, p);
        if dir.dot(p) > 0 {
            match enclose_spec(simplex, p) {
                Step::Enclosed(t) => {
                    assert(t.has(t.a) && t.has(t.b) && t.has(t.c) && t.has(t.d));
                },
                Step::Next(s, d) => {
                    lemma_search_certified(a, b, s, d, (rounds - 1) as nat);
                },
            }
        }
    }
}

/// The outcome of the overlap search, with machine coordinates.
#[derive(Clone, Copy, Debug)]
pub enum Verdict {
    /// Four points of the Minkowski difference around the origin.
    Overlap(Tetrahedron),
    /// A direction along which the first body ends where the second begins,
    /// or before.
    Apart(Vec3),
    /// The search has used up its rounds.
    Undecided,
}

impl View for Verdict {
    type V = VerdictView;

    open spec fn view(&self) -> VerdictView {
        match *self {
            Verdict::Overlap(t) => VerdictView::Overlap(t@),
            Verdict::Apart(d) => VerdictView::Apart(d@),
            Verdict::Undecided => VerdictView::Undecided,
        }
    }
}

/// Searches for four points of the Minkowski difference around the origin.
///
/// The outcome is that of `gjk_spec`. An overlap comes with a tetrahedron
/// that has volume, holds the origin and is made of differences of the two
/// sets of points; a verdict that the sets are apart comes with a direction
/// that separates them.
pub fn gjk_search(a: &Vec<Vec3>, b: &Vec<Vec3>) -> (v: Verdict)
    requires
        a@.len() > 0,
        b@.len() > 0,
        all_within(vectors(a@), COORD_MAX as int),
        all_within(vectors(b@), COORD_MAX as int),
    ensures
        v@ == gjk_spec(vectors(a@), vectors(b@)),
        v matches Verdict::Overlap(t) ==> {
            &&& t@.surrounds_origin()
            &&& t@.encloses_origin()
            &&& t@.within(MINKOWSKI_MAX as int)
            &&& forall|q: Vector| t@.has(q) ==> is_difference(vectors(a@), vectors(b@), q)
        },
        v matches Verdict::Apart(d) ==> separates(vectors(a@), vectors(b@), d@),
{
    let ghost ma = vectors(a@);
    let ghost mb = vectors(b@);
    let axis = Vec3::unit_x();
    let first = minkowski_of(a, b, &axis);
    proof {
        lemma_minkowski_point(ma, mb, axis@);
    }
    if first.is_zero() {
        proof {
            lemma_zero_products(first@, axis@);
            lemma_unreached_origin_separates(ma, mb, axis@);
        }
        return Verdict::Apart(axis);
    }
    let mut simplex = Simplex::Point(first);
    let mut dir = first.negated();
    let mut round: usize = 0;
    while round < GJK_ROUNDS
        invariant
            ma == vectors(a@),
            mb == vectors(b@),
            a@.len() > 0,
            b@.len() > 0,
            all_within(ma, COORD_MAX as int),
            all_within(mb, COORD_MAX as int),
            0 <= round <= GJK_ROUNDS,
            simplex@.within(MINKOWSKI_MAX as int),
            dir@.within(DIRECTION_MAX as int),
            dir@ != Vector::zero(),
            forall|q: Vector| simplex@.has(q) ==> is_difference(ma, mb, q),
            search(ma, mb, simplex@, dir@, (GJK_ROUNDS - round) as nat) == gjk_spec(ma, mb),
        decreases GJK_ROUNDS - round,
    {
        let support = minkowski_of(a, b, &dir);
        proof {
            lemma_minkowski_point(ma, mb, dir@);
            lemma_vector_products(dir@, support@, DIRECTION_MAX as int, MINKOWSKI_MAX as int);
        }
        if dir.dot(&support) <= 0 {
            proof {
                lemma_unreached_origin_separates(ma, mb, dir@);
            }
            return Verdict::Apart(dir);
        }
        proof {
            if support@ == Vector::zero() {
                lemma_zero_products(support@, dir@);
            }
        }
        match simplex.enclose(support) {
            Ok(t) => {
                return Verdict::Overlap(t);
            },
            Err((next_simplex, next_dir)) => {
                simplex = next_simplex;
                dir = next_dir;
            },
        }
        round += 1;
    }
    Verdict::Undecided
}

} // verus!
