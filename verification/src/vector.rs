//! Lattice vectors: the mathematical model over `int`, and the machine
//! vectors over `i128` that compute it without overflow.

use vstd::prelude::*;

verus! {

/// Largest magnitude that a single product of two coordinates may reach in
/// the machine operations of this module: a quarter of the `i128` range, so
/// that three such products can be summed.
pub const PRODUCT_MAX: i128 = 0x1fff_ffff_ffff_ffff_ffff_ffff_ffff_ffff;

/// A vector with integer coordinates of any size.
pub struct Vector {
    pub x: int,
    pub y: int,
    pub z: int,
}

impl Vector {
    pub open spec fn zero() -> Vector {
        Vector { x: 0, y: 0, z: 0 }
    }

    pub open spec fn unit_x() -> Vector {
        Vector { x: 1, y: 0, z: 0 }
    }

    pub open spec fn plus(self, o: Vector) -> Vector {
        Vector { x: self.x + o.x, y: self.y + o.y, z: self.z + o.z }
    }

    pub open spec fn minus(self, o: Vector) -> Vector {
        Vector { x: self.x - o.x, y: self.y - o.y, z: self.z - o.z }
    }

    pub open spec fn negated(self) -> Vector {
        Vector { x: -self.x, y: -self.y, z: -self.z }
    }

    pub open spec fn scaled(self, k: int) -> Vector {
        Vector { x: k * self.x, y: k * self.y, z: k * self.z }
    }

    pub open spec fn dot(self, o: Vector) -> int {
        self.x * o.x + self.y * o.y + self.z * o.z
    }

    pub open spec fn cross(self, o: Vector) -> Vector {
        Vector {
            x: self.y * o.z - self.z * o.y,
            y: self.z * o.x - self.x * o.z,
            z: self.x * o.y - self.y * o.x,
        }
    }

    /// Scalar triple product `(self x b) . c`, the determinant of the three
    /// vectors taken as rows.
    pub open spec fn triple(self, b: Vector, c: Vector) -> int {
        self.cross(b).dot(c)
    }

    /// Every coordinate lies in `[-bound, bound]`.
    pub open spec fn within(self, bound: int) -> bool {
        &&& -bound <= self.x <= bound
        &&& -bound <= self.y <= bound
        &&& -bound <= self.z <= bound
    }

    /// Every product of a coordinate of `self` with a coordinate of `o` has
    /// magnitude at most `PRODUCT_MAX`.
    pub open spec fn products_fit(self, o: Vector) -> bool {
        &&& product_fits(self.x, o.x) && product_fits(self.x, o.y) && product_fits(self.x, o.z)
        &&& product_fits(self.y, o.x) && product_fits(self.y, o.y) && product_fits(self.y, o.z)
        &&& product_fits(self.z, o.x) && product_fits(self.z, o.y) && product_fits(self.z, o.z)
    }
}

pub open spec fn product_fits(a: int, b: int) -> bool {
    -(PRODUCT_MAX as int) <= a * b <= PRODUCT_MAX as int
}

/// The magnitude of a product is bounded by the product of the bounds.
pub proof fn lemma_product_bound(a: int, b: int, m: int, n: int)
    by (nonlinear_arith)
    requires
        -m <= a <= m,
        -n <= b <= n,
    ensures
        -(m * n) <= a * b <= m * n,
{
}

/// Bounds on two vectors bound their products, their dot product and their
/// cross product.
pub proof fn lemma_vector_products(a: Vector, b: Vector, m: int, n: int)
    requires
        a.within(m),
        b.within(n),
    ensures
        m * n <= PRODUCT_MAX ==> a.products_fit(b),
        -(3 * (m * n)) <= a.dot(b) <= 3 * (m * n),
        a.cross(b).within(2 * (m * n)),
{
    lemma_product_bound(a.x, b.x, m, n);
    lemma_product_bound(a.x, b.y, m, n);
    lemma_product_bound(a.x, b.z, m, n);
    lemma_product_bound(a.y, b.x, m, n);
    lemma_product_bound(a.y, b.y, m, n);
    lemma_product_bound(a.y, b.z, m, n);
    lemma_product_bound(a.z, b.x, m, n);
    lemma_product_bound(a.z, b.y, m, n);
    lemma_product_bound(a.z, b.z, m, n);
}

/// The square of a vector is not negative.
pub proof fn lemma_square_nonnegative(v: Vector)
    ensures
        v.dot(v) >= 0,
{
    assert(v.x * v.x >= 0) by (nonlinear_arith);
    assert(v.y * v.y >= 0) by (nonlinear_arith);
    assert(v.z * v.z >= 0) by (nonlinear_arith);
}

/// The rules of sums, differences and signs for one product.
pub proof fn lemma_mul_rules(x: int, y: int, z: int)
    by (nonlinear_arith)
    ensures
        (x + y) * z == x * z + y * z,
        (x - y) * z == x * z - y * z,
        z * (x + y) == z * x + z * y,
        z * (x - y) == z * x - z * y,
        x * y == y * x,
        (-x) * y == -(x * y),
        x * (-y) == -(x * y),
{
}

/// A product of three factors does not depend on their order nor on how
/// they are grouped.
pub proof fn lemma_mul_three(x: int, y: int, z: int)
    by (nonlinear_arith)
    ensures
        (x * z) * y == (x * y) * z,
        (y * x) * z == (x * y) * z,
        (y * z) * x == (x * y) * z,
        (z * x) * y == (x * y) * z,
        (z * y) * x == (x * y) * z,
        x * (y * z) == (x * y) * z,
        x * (z * y) == (x * y) * z,
        y * (x * z) == (x * y) * z,
        y * (z * x) == (x * y) * z,
        z * (x * y) == (x * y) * z,
        z * (y * x) == (x * y) * z,
{
}

/// The product of two differences.
pub proof fn lemma_mul_differences(a: int, b: int, c: int, d: int)
    by (nonlinear_arith)
    ensures
        (a - b) * (c - d) == a * c - a * d - b * c + b * d,
{
}

/// The dot product is symmetric and linear in each argument.
pub proof fn lemma_dot_rules(a: Vector, b: Vector, c: Vector)
    ensures
        a.minus(b).dot(c) == a.dot(c) - b.dot(c),
        a.plus(b).dot(c) == a.dot(c) + b.dot(c),
        c.dot(a.minus(b)) == c.dot(a) - c.dot(b),
        c.dot(a.plus(b)) == c.dot(a) + c.dot(b),
        a.dot(b) == b.dot(a),
        a.negated().dot(b) == -a.dot(b),
        a.dot(b.negated()) == -a.dot(b),
{
    lemma_mul_rules(a.x, b.x, c.x);
    lemma_mul_rules(a.y, b.y, c.y);
    lemma_mul_rules(a.z, b.z, c.z);
}

/// A factor can be taken out of a dot product.
pub proof fn lemma_dot_scaled(a: Vector, k: int, c: Vector)
    ensures
        a.scaled(k).dot(c) == k * a.dot(c),
        c.dot(a.scaled(k)) == k * c.dot(a),
{
    lemma_mul_three(k, a.x, c.x);
    lemma_mul_three(k, a.y, c.y);
    lemma_mul_three(k, a.z, c.z);
    lemma_mul_rules(a.x * c.x, a.y * c.y, k);
    lemma_mul_rules(a.x * c.x + a.y * c.y, a.z * c.z, k);
    lemma_mul_rules(c.x * a.x, c.y * a.y, k);
    lemma_mul_rules(c.x * a.x + c.y * a.y, c.z * a.z, k);
    lemma_mul_rules(a.x, c.x, 0);
    lemma_mul_rules(a.y, c.y, 0);
    lemma_mul_rules(a.z, c.z, 0);
}

/// Swapping the factors of a cross product reverses it.
pub proof fn lemma_cross_reversed(a: Vector, b: Vector)
    ensures
        a.cross(b) == b.cross(a).negated(),
{
    lemma_mul_rules(a.y, b.z, 0);
    lemma_mul_rules(a.z, b.y, 0);
    lemma_mul_rules(a.z, b.x, 0);
    lemma_mul_rules(a.x, b.z, 0);
    lemma_mul_rules(a.x, b.y, 0);
    lemma_mul_rules(a.y, b.x, 0);
}

/// The cross product of two differences from a common point.
pub proof fn lemma_cross_of_differences(u: Vector, v: Vector, w: Vector)
    ensures
        v.minus(u).cross(w.minus(u)) == v.cross(w).minus(v.cross(u)).minus(u.cross(w)),
{
    lemma_mul_differences(v.y, u.y, w.z, u.z);
    lemma_mul_differences(v.z, u.z, w.y, u.y);
    lemma_mul_differences(v.z, u.z, w.x, u.x);
    lemma_mul_differences(v.x, u.x, w.z, u.z);
    lemma_mul_differences(v.x, u.x, w.y, u.y);
    lemma_mul_differences(v.y, u.y, w.x, u.x);
    lemma_mul_rules(u.y, u.z, 0);
    lemma_mul_rules(u.z, u.x, 0);
    lemma_mul_rules(u.x, u.y, 0);
}

/// The triple product written out as six products of three coordinates.
proof fn lemma_triple_expanded(a: Vector, b: Vector, c: Vector)
    ensures
        a.triple(b, c) == (a.y * b.z) * c.x - (a.z * b.y) * c.x + (a.z * b.x) * c.y - (a.x * b.z)
            * c.y + (a.x * b.y) * c.z - (a.y * b.x) * c.z,
{
    lemma_mul_rules(a.y * b.z, a.z * b.y, c.x);
    lemma_mul_rules(a.z * b.x, a.x * b.z, c.y);
    lemma_mul_rules(a.x * b.y, a.y * b.x, c.z);
}

/// A cross product is at a right angle to both of its factors; the triple
/// product keeps its value when its vectors are rotated and changes sign
/// when two of them are swapped.
pub proof fn lemma_triple_rules(a: Vector, b: Vector, c: Vector)
    ensures
        a.triple(b, a) == 0,
        a.triple(b, b) == 0,
        a.triple(b, c) == b.triple(c, a),
        a.triple(b, c) == -b.triple(a, c),
{
    lemma_triple_expanded(a, b, c);
    lemma_triple_expanded(a, b, a);
    lemma_triple_expanded(a, b, b);
    lemma_triple_expanded(b, c, a);
    lemma_triple_expanded(b, a, c);
    // a . (b x a) and b . (a x b)
    lemma_mul_three(a.y, b.z, a.x);
    lemma_mul_three(a.z, b.y, a.x);
    lemma_mul_three(a.z, b.x, a.y);
    lemma_mul_three(a.x, b.z, a.y);
    lemma_mul_three(a.x, b.y, a.z);
    lemma_mul_three(a.y, b.x, a.z);
    lemma_mul_three(a.y, b.z, b.x);
    lemma_mul_three(a.z, b.y, b.x);
    lemma_mul_three(a.z, b.x, b.y);
    lemma_mul_three(a.x, b.z, b.y);
    lemma_mul_three(a.x, b.y, b.z);
    lemma_mul_three(a.y, b.x, b.z);
    // the six products of a, b, c
    lemma_mul_three(a.y, b.z, c.x);
    lemma_mul_three(a.z, b.y, c.x);
    lemma_mul_three(a.z, b.x, c.y);
    lemma_mul_three(a.x, b.z, c.y);
    lemma_mul_three(a.x, b.y, c.z);
    lemma_mul_three(a.y, b.x, c.z);
    lemma_mul_three(b.y, c.z, a.x);
    lemma_mul_three(b.z, c.y, a.x);
    lemma_mul_three(b.z, c.x, a.y);
    lemma_mul_three(b.x, c.z, a.y);
    lemma_mul_three(b.x, c.y, a.z);
    lemma_mul_three(b.y, c.x, a.z);
    lemma_mul_three(b.y, a.z, c.x);
    lemma_mul_three(b.z, a.y, c.x);
    lemma_mul_three(b.z, a.x, c.y);
    lemma_mul_three(b.x, a.z, c.y);
    lemma_mul_three(b.x, a.y, c.z);
    lemma_mul_three(b.y, a.x, c.z);
}

/// One coordinate of the double cross product.
proof fn lemma_double_cross_coordinate(
    ax: int,
    ay: int,
    az: int,
    bx: int,
    by: int,
    bz: int,
    cx: int,
    cy: int,
    cz: int,
)
    ensures
        ay * (bx * cy - by * cx) - az * (bz * cx - bx * cz) == (ax * cx + ay * cy + az * cz) * bx
            - (ax * bx + ay * by + az * bz) * cx,
{
    lemma_mul_rules(bx * cy, by * cx, ay);
    lemma_mul_rules(bz * cx, bx * cz, az);
    lemma_mul_rules(ax * cx, ay * cy, bx);
    lemma_mul_rules(ax * cx + ay * cy, az * cz, bx);
    lemma_mul_rules(ax * bx, ay * by, cx);
    lemma_mul_rules(ax * bx + ay * by, az * bz, cx);
    lemma_mul_three(ay, bx, cy);
    lemma_mul_three(ay, by, cx);
    lemma_mul_three(az, bz, cx);
    lemma_mul_three(az, bx, cz);
    lemma_mul_three(ax, cx, bx);
    lemma_mul_three(ay, cy, bx);
    lemma_mul_three(az, cz, bx);
    lemma_mul_three(ax, bx, cx);
    lemma_mul_three(ay, by, cx);
    lemma_mul_three(az, bz, cx);
}

/// The double cross product: `a x (b x c) = b (a . c) - c (a . b)`.
pub proof fn lemma_double_cross(a: Vector, b: Vector, c: Vector)
    ensures
        a.cross(b.cross(c)) == b.scaled(a.dot(c)).minus(c.scaled(a.dot(b))),
{
    lemma_double_cross_coordinate(a.x, a.y, a.z, b.x, b.y, b.z, c.x, c.y, c.z);
    lemma_double_cross_coordinate(a.y, a.z, a.x, b.y, b.z, b.x, c.y, c.z, c.x);
    lemma_double_cross_coordinate(a.z, a.x, a.y, b.z, b.x, b.y, c.z, c.x, c.y);
}

/// Cramer's rule: for any four vectors, the three determinants that replace
/// one of `u`, `v`, `w` by `o` weigh `u`, `v`, `w` so that they add up to `o`
/// times the determinant of `u`, `v`, `w`.
pub proof fn lemma_cramer(u: Vector, v: Vector, w: Vector, o: Vector)
    ensures
        u.scaled(v.triple(w, o)).plus(v.scaled(w.triple(u, o))).plus(w.scaled(u.triple(v, o)))
            == o.scaled(u.triple(v, w)),
{
    // (u x v) x (w x o), expanded once from each side
    lemma_double_cross(u.cross(v), w, o);
    lemma_double_cross(w.cross(o), u, v);
    lemma_cross_reversed(u.cross(v), w.cross(o));
    // the determinants that occur, in terms of those of the statement
    lemma_triple_rules(w, o, v);
    lemma_triple_rules(o, v, w);
    lemma_triple_rules(w, o, u);
    lemma_triple_rules(o, u, w);
    lemma_triple_rules(u, w, o);
    let q = w.triple(u, o);
    lemma_mul_rules(q, v.x, 0);
    lemma_mul_rules(q, v.y, 0);
    lemma_mul_rules(q, v.z, 0);
}

/// A vector of the lattice with machine coordinates.
#[derive(Clone, Copy, Debug, PartialEq, Eq, Structural)]
pub struct Vec3 {
    pub x: i128,
    pub y: i128,
    pub z: i128,
}

impl View for Vec3 {
    type V = Vector;

    open spec fn view(&self) -> Vector {
        Vector { x: self.x as int, y: self.y as int, z: self.z as int }
    }
}

impl Vec3 {
    pub fn new(x: i128, y: i128, z: i128) -> (v: Vec3)
        ensures
            v.x == x,
            v.y == y,
            v.z == z,
    {
        Vec3 { x, y, z }
    }

    pub fn zero() -> (v: Vec3)
        ensures
            v@ == Vector::zero(),
    {
        Vec3 { x: 0, y: 0, z: 0 }
    }

    pub fn unit_x() -> (v: Vec3)
        ensures
            v@ == Vector::unit_x(),
    {
        Vec3 { x: 1, y: 0, z: 0 }
    }

    pub fn is_zero(&self) -> (r: bool)
        ensures
            r == (self@ == Vector::zero()),
    {
        self.x == 0 && self.y == 0 && self.z == 0
    }

    pub fn plus(&self, o: &Vec3) -> (v: Vec3)
        requires
            self@.plus(o@).within(i128::MAX as int),
        ensures
            v@ == self@.plus(o@),
    {
        Vec3 { x: self.x + o.x, y: self.y + o.y, z: self.z + o.z }
    }

    pub fn minus(&self, o: &Vec3) -> (v: Vec3)
        requires
            self@.minus(o@).within(i128::MAX as int),
        ensures
            v@ == self@.minus(o@),
    {
        Vec3 { x: self.x - o.x, y: self.y - o.y, z: self.z - o.z }
    }

    pub fn negated(&self) -> (v: Vec3)
        requires
            self@.within(i128::MAX as int),
        ensures
            v@ == self@.negated(),
    {
        Vec3 { x: -self.x, y: -self.y, z: -self.z }
    }

    pub fn dot(&self, o: &Vec3) -> (r: i128)
        requires
            self@.products_fit(o@),
        ensures
            r == self@.dot(o@),
    {
        self.x * o.x + self.y * o.y + self.z * o.z
    }

    pub fn cross(&self, o: &Vec3) -> (v: Vec3)
        requires
            self@.products_fit(o@),
        ensures
            v@ == self@.cross(o@),
    {
        Vec3 {
            x: self.y * o.z - self.z * o.y,
            y: self.z * o.x - self.x * o.z,
            z: self.x * o.y - self.y * o.x,
        }
    }
}

} // verus!
