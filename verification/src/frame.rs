//! Rigid poses: a position on the lattice and an orientation held as a
//! quaternion with integer components of any common scale.
//!
//! A quaternion `q` turns a vector `v` into `q v q* / |q|^2`. The division
//! makes the result independent of the scale of `q`; each coordinate is
//! rounded to the nearest lattice point, halves upwards.

use vstd::prelude::*;
use crate::limits::{
    ANGLE_MAX, ONE, POSITION_MAX, QUATERNION_MAX, RAW_MAX, TURN_MAX,
    UNIT_NORM,
};
use crate::numeric::{
    floor_sqrt, integer_sqrt, lemma_round_div_bounded, lemma_round_exact, round_div,
    rounded_quotient,
};
use crate::vector::{lemma_product_bound, lemma_vector_products, Vec3, Vector};

verus! {

/// The largest magnitude among the coordinates of a vector.
pub open spec fn reach(v: Vector) -> int {
    let ax = if v.x < 0 { -v.x } else { v.x };
    let ay = if v.y < 0 { -v.y } else { v.y };
    let az = if v.z < 0 { -v.z } else { v.z };
    if ax >= ay && ax >= az {
        ax
    } else if ay >= az {
        ay
    } else {
        az
    }
}

/// The largest coordinate of a vector within a bound is within the bound,
/// and the vector is within its largest coordinate.
pub proof fn lemma_reach_bounds(v: Vector, bound: int)
    requires
        v.within(bound),
    ensures
        0 <= reach(v) <= bound,
        v.within(reach(v)),
{
}

/// A quaternion with integer components.
pub struct Rotation {
    pub w: int,
    pub x: int,
    pub y: int,
    pub z: int,
}

impl Rotation {
    pub open spec fn norm_squared(self) -> int {
        self.w * self.w + self.x * self.x + self.y * self.y + self.z * self.z
    }

    pub open spec fn conjugate(self) -> Rotation {
        Rotation { w: self.w, x: -self.x, y: -self.y, z: -self.z }
    }

    pub open spec fn within(self, bound: int) -> bool {
        &&& -bound <= self.w <= bound
        &&& -bound <= self.x <= bound
        &&& -bound <= self.y <= bound
        &&& -bound <= self.z <= bound
    }

    /// The quaternion that turns nothing.
    pub open spec fn identity() -> Rotation {
        Rotation { w: 1, x: 0, y: 0, z: 0 }
    }

    pub open spec fn is_zero(self) -> bool {
        self.w == 0 && self.x == 0 && self.y == 0 && self.z == 0
    }

    /// The product of two quaternions: the turn `o` followed by the turn
    /// `self`.
    pub open spec fn product(self, o: Rotation) -> Rotation {
        Rotation {
            w: self.w * o.w - self.x * o.x - self.y * o.y - self.z * o.z,
            x: self.w * o.x + self.x * o.w + self.y * o.z - self.z * o.y,
            y: self.w * o.y - self.x * o.z + self.y * o.w + self.z * o.x,
            z: self.w * o.z + self.x * o.y - self.y * o.x + self.z * o.w,
        }
    }

    /// The quaternion scaled to the norm `UNIT_NORM`, each component rounded
    /// to the nearest integer, the norm itself rounded down before. The
    /// identity where nothing is left of the quaternion.
    pub open spec fn normalized(self) -> Rotation {
        let len = floor_sqrt(self.norm_squared());
        let r = Rotation {
            w: round_div(self.w * UNIT_NORM, len),
            x: round_div(self.x * UNIT_NORM, len),
            y: round_div(self.y * UNIT_NORM, len),
            z: round_div(self.z * UNIT_NORM, len),
        };
        if self.is_zero() || r.is_zero() {
            Rotation::identity()
        } else {
            r
        }
    }

    /// The quaternion of a small turn: `angle` is the axis times the angle
    /// in radians times `ONE`, and the turn is that of `1 + angle / 2`.
    pub open spec fn small_turn(angle: Vector) -> Rotation {
        Rotation { w: 2 * ONE, x: angle.x, y: angle.y, z: angle.z }
    }

    /// The quaternion turned further by a small turn, and brought to norm;
    /// the quaternion as it is where the turn is zero.
    pub open spec fn turned_by(self, angle: Vector) -> Rotation {
        if angle == Vector::zero() {
            self
        } else {
            Rotation::small_turn(angle).product(self.normalized()).normalized()
        }
    }

    /// First row of the rotation matrix, times the squared norm.
    pub open spec fn row_x(self) -> Vector {
        Vector {
            x: self.w * self.w + self.x * self.x - self.y * self.y - self.z * self.z,
            y: 2 * (self.x * self.y - self.w * self.z),
            z: 2 * (self.x * self.z + self.w * self.y),
        }
    }

    /// Second row of the rotation matrix, times the squared norm.
    pub open spec fn row_y(self) -> Vector {
        Vector {
            x: 2 * (self.x * self.y + self.w * self.z),
            y: self.w * self.w - self.x * self.x + self.y * self.y - self.z * self.z,
            z: 2 * (self.y * self.z - self.w * self.x),
        }
    }

    /// Third row of the rotation matrix, times the squared norm.
    pub open spec fn row_z(self) -> Vector {
        Vector {
            x: 2 * (self.x * self.z - self.w * self.y),
            y: 2 * (self.y * self.z + self.w * self.x),
            z: self.w * self.w - self.x * self.x - self.y * self.y + self.z * self.z,
        }
    }

    /// The vector turned by the quaternion, rounded to the lattice.
    pub open spec fn rotate(self, v: Vector) -> Vector {
        Vector {
            x: round_div(self.row_x().dot(v), self.norm_squared()),
            y: round_div(self.row_y().dot(v), self.norm_squared()),
            z: round_div(self.row_z().dot(v), self.norm_squared()),
        }
    }
}

/// Twice a product is at most the sum of the squares.
proof fn lemma_twice_product(x: int, y: int)
    by (nonlinear_arith)
    ensures
        -(x * x + y * y) <= 2 * (x * y) <= x * x + y * y,
        x * x >= 0,
        y * y >= 0,
{
}

/// No entry of the scaled rotation matrix exceeds the squared norm.
pub proof fn lemma_rows_bounded(q: Rotation)
    ensures
        q.row_x().within(q.norm_squared()),
        q.row_y().within(q.norm_squared()),
        q.row_z().within(q.norm_squared()),
        q.norm_squared() >= 0,
{
    lemma_twice_product(q.w, q.x);
    lemma_twice_product(q.w, q.y);
    lemma_twice_product(q.w, q.z);
    lemma_twice_product(q.x, q.y);
    lemma_twice_product(q.x, q.z);
    lemma_twice_product(q.y, q.z);
}

/// The squared norm of a bounded quaternion is bounded.
pub proof fn lemma_norm_bounded(q: Rotation, m: int)
    requires
        q.within(m),
    ensures
        0 <= q.norm_squared() <= 4 * (m * m),
{
    lemma_product_bound(q.w, q.w, m, m);
    lemma_product_bound(q.x, q.x, m, m);
    lemma_product_bound(q.y, q.y, m, m);
    lemma_product_bound(q.z, q.z, m, m);
    lemma_twice_product(q.w, q.x);
    lemma_twice_product(q.y, q.z);
}

/// Turning a vector takes it at most three times as far from the origin,
/// measured by its largest coordinate.
pub proof fn lemma_rotate_bounded(q: Rotation, v: Vector)
    requires
        q.norm_squared() > 0,
    ensures
        q.rotate(v).within(3 * reach(v)),
{
    let d = q.norm_squared();
    let r = reach(v);
    lemma_rows_bounded(q);
    lemma_vector_products(q.row_x(), v, d, r);
    lemma_vector_products(q.row_y(), v, d, r);
    lemma_vector_products(q.row_z(), v, d, r);
    assert(3 * (d * r) == (3 * r) * d) by (nonlinear_arith);
    lemma_round_div_bounded(q.row_x().dot(v), d, 3 * r);
    lemma_round_div_bounded(q.row_y().dot(v), d, 3 * r);
    lemma_round_div_bounded(q.row_z().dot(v), d, 3 * r);
}

/// A quaternion that is a multiple of one leaves every vector where it is.
pub proof fn lemma_identity_rotation(q: Rotation, v: Vector)
    requires
        q.w != 0,
        q.x == 0,
        q.y == 0,
        q.z == 0,
    ensures
        q.rotate(v) == v,
{
    let d = q.w * q.w;
    assert(d > 0) by (nonlinear_arith)
        requires
            q.w != 0,
            d == q.w * q.w,
    ;
    assert(q.row_x() == Vector { x: d, y: 0, z: 0 });
    lemma_round_exact(v.x, d);
    lemma_round_exact(v.y, d);
    lemma_round_exact(v.z, d);
}

/// A quaternion with machine components.
#[derive(Clone, Copy, Debug, PartialEq, Eq, Structural)]
pub struct Quaternion {
    pub w: i128,
    pub x: i128,
    pub y: i128,
    pub z: i128,
}

impl View for Quaternion {
    type V = Rotation;

    open spec fn view(&self) -> Rotation {
        Rotation { w: self.w as int, x: self.x as int, y: self.y as int, z: self.z as int }
    }
}

impl Quaternion {
    /// The components are bounded and not all zero.
    pub open spec fn wf(&self) -> bool {
        &&& self@.within(QUATERNION_MAX as int)
        &&& self@.norm_squared() > 0
    }

    pub fn new(w: i128, x: i128, y: i128, z: i128) -> (q: Quaternion)
        ensures
            q@ == (Rotation { w: w as int, x: x as int, y: y as int, z: z as int }),
    {
        Quaternion { w, x, y, z }
    }

    /// The quaternion that turns nothing.
    pub fn identity() -> (q: Quaternion)
        ensures
            q@ == (Rotation { w: 1, x: 0, y: 0, z: 0 }),
            q.wf(),
    {
        Quaternion { w: 1, x: 0, y: 0, z: 0 }
    }

    /// The quaternion of the opposite turn.
    pub fn conjugate(&self) -> (q: Quaternion)
        requires
            self.wf(),
        ensures
            q@ == self@.conjugate(),
            q.wf(),
    {
        let q = Quaternion { w: self.w, x: -self.x, y: -self.y, z: -self.z };
        proof {
            assert((-self.x) * (-self.x) == self.x * self.x) by (nonlinear_arith);
            assert((-self.y) * (-self.y) == self.y * self.y) by (nonlinear_arith);
            assert((-self.z) * (-self.z) == self.z * self.z) by (nonlinear_arith);
        }
        q
    }

    /// Turns a vector and rounds it to the lattice.
    pub fn rotate(&self, v: &Vec3) -> (r: Vec3)
        requires
            self.wf(),
            v@.within(TURN_MAX as int),
        ensures
            r@ == self@.rotate(v@),
            r@.within(3 * reach(v@)),
    {
        let w = self.w;
        let x = self.x;
        let y = self.y;
        let z = self.z;
        proof {
            let m = QUATERNION_MAX as int;
            lemma_product_bound(w as int, w as int, m, m);
            lemma_product_bound(x as int, x as int, m, m);
            lemma_product_bound(y as int, y as int, m, m);
            lemma_product_bound(z as int, z as int, m, m);
            lemma_product_bound(x as int, y as int, m, m);
            lemma_product_bound(x as int, z as int, m, m);
            lemma_product_bound(y as int, z as int, m, m);
            lemma_product_bound(w as int, x as int, m, m);
            lemma_product_bound(w as int, y as int, m, m);
            lemma_product_bound(w as int, z as int, m, m);
            lemma_norm_bounded(self@, m);
            lemma_rows_bounded(self@);
            lemma_rotate_bounded(self@, v@);
        }
        let ww = w * w;
        let xx = x * x;
        let yy = y * y;
        let zz = z * z;
        let d = ww + xx + yy + zz;
        let row_x = Vec3 { x: ww + xx - yy - zz, y: 2 * (x * y - w * z), z: 2 * (x * z + w * y) };
        let row_y = Vec3 { x: 2 * (x * y + w * z), y: ww - xx + yy - zz, z: 2 * (y * z - w * x) };
        let row_z = Vec3 { x: 2 * (x * z - w * y), y: 2 * (y * z + w * x), z: ww - xx - yy + zz };
        proof {
            lemma_vector_products(row_x@, v@, 0x1_0000_0000_0000_0000, TURN_MAX as int);
            lemma_vector_products(row_y@, v@, 0x1_0000_0000_0000_0000, TURN_MAX as int);
            lemma_vector_products(row_z@, v@, 0x1_0000_0000_0000_0000, TURN_MAX as int);
        }
        Vec3 {
            x: rounded_quotient(row_x.dot(v), d),
            y: rounded_quotient(row_y.dot(v), d),
            z: rounded_quotient(row_z.dot(v), d),
        }
    }
}

/// A quaternion of which a component is not zero has a positive norm.
pub proof fn lemma_norm_positive(q: Rotation)
    requires
        !q.is_zero(),
    ensures
        q.norm_squared() >= 1,
{
    assert(q.w * q.w >= 0 && (q.w != 0 ==> q.w * q.w >= 1)) by (nonlinear_arith);
    assert(q.x * q.x >= 0 && (q.x != 0 ==> q.x * q.x >= 1)) by (nonlinear_arith);
    assert(q.y * q.y >= 0 && (q.y != 0 ==> q.y * q.y >= 1)) by (nonlinear_arith);
    assert(q.z * q.z >= 0 && (q.z != 0 ==> q.z * q.z >= 1)) by (nonlinear_arith);
}

/// A number whose square, with something that is not negative added, is
/// below the square of `len + 1` is at most `len` in magnitude; times
/// `UNIT_NORM` it is at most `UNIT_NORM` times `len`.
proof fn lemma_component_below_length(x: int, rest: int, len: int)
    by (nonlinear_arith)
    requires
        len >= 0,
        rest >= 0,
        x * x + rest < (len + 1) * (len + 1),
    ensures
        -len <= x <= len,
        -(UNIT_NORM * len) <= x * UNIT_NORM <= UNIT_NORM * len,
{
}

impl Quaternion {
    /// The product of two quaternions.
    pub fn product(&self, o: &Quaternion) -> (r: Quaternion)
        requires
            self@.within(ANGLE_MAX as int),
            o@.within(QUATERNION_MAX as int),
        ensures
            r@ == self@.product(o@),
            r@.within(RAW_MAX as int),
    {
        proof {
            let m = ANGLE_MAX as int;
            let n = QUATERNION_MAX as int;
            lemma_product_bound(self.w as int, o.w as int, m, n);
            lemma_product_bound(self.w as int, o.x as int, m, n);
            lemma_product_bound(self.w as int, o.y as int, m, n);
            lemma_product_bound(self.w as int, o.z as int, m, n);
            lemma_product_bound(self.x as int, o.w as int, m, n);
            lemma_product_bound(self.x as int, o.x as int, m, n);
            lemma_product_bound(self.x as int, o.y as int, m, n);
            lemma_product_bound(self.x as int, o.z as int, m, n);
            lemma_product_bound(self.y as int, o.w as int, m, n);
            lemma_product_bound(self.y as int, o.x as int, m, n);
            lemma_product_bound(self.y as int, o.y as int, m, n);
            lemma_product_bound(self.y as int, o.z as int, m, n);
            lemma_product_bound(self.z as int, o.w as int, m, n);
            lemma_product_bound(self.z as int, o.x as int, m, n);
            lemma_product_bound(self.z as int, o.y as int, m, n);
            lemma_product_bound(self.z as int, o.z as int, m, n);
        }
        Quaternion {
            w: self.w * o.w - self.x * o.x - self.y * o.y - self.z * o.z,
            x: self.w * o.x + self.x * o.w + self.y * o.z - self.z * o.y,
            y: self.w * o.y - self.x * o.z + self.y * o.w + self.z * o.x,
            z: self.w * o.z + self.x * o.y - self.y * o.x + self.z * o.w,
        }
    }

    /// The quaternion scaled to the norm `UNIT_NORM`; the identity where
    /// nothing is left of it.
    pub fn normalized(&self) -> (r: Quaternion)
        requires
            self@.within(RAW_MAX as int),
        ensures
            r@ == self@.normalized(),
            r@.within(UNIT_NORM as int),
            r.wf(),
    {
        if self.w == 0 && self.x == 0 && self.y == 0 && self.z == 0 {
            return Quaternion::identity();
        }
        proof {
            let m = RAW_MAX as int;
            lemma_product_bound(self.w as int, self.w as int, m, m);
            lemma_product_bound(self.x as int, self.x as int, m, m);
            lemma_product_bound(self.y as int, self.y as int, m, m);
            lemma_product_bound(self.z as int, self.z as int, m, m);
            lemma_norm_positive(self@);
        }
        let ww = self.w * self.w;
        let xx = self.x * self.x;
        let yy = self.y * self.y;
        let zz = self.z * self.z;
        let len = integer_sqrt(ww + xx + yy + zz);
        proof {
            let n = self@.norm_squared();
            assert(len != 0) by (nonlinear_arith)
                requires
                    n >= 1,
                    n < (len + 1) * (len + 1),
            ;
            lemma_twice_product(self.w as int, self.x as int);
            lemma_twice_product(self.y as int, self.z as int);
            lemma_component_below_length(self.w as int, xx + yy + zz, len as int);
            lemma_component_below_length(self.x as int, ww + yy + zz, len as int);
            lemma_component_below_length(self.y as int, ww + xx + zz, len as int);
            lemma_component_below_length(self.z as int, ww + xx + yy, len as int);
            lemma_round_div_bounded(self.w * UNIT_NORM, len as int, UNIT_NORM as int);
            lemma_round_div_bounded(self.x * UNIT_NORM, len as int, UNIT_NORM as int);
            lemma_round_div_bounded(self.y * UNIT_NORM, len as int, UNIT_NORM as int);
            lemma_round_div_bounded(self.z * UNIT_NORM, len as int, UNIT_NORM as int);
        }
        let r = Quaternion {
            w: rounded_quotient(self.w * UNIT_NORM, len),
            x: rounded_quotient(self.x * UNIT_NORM, len),
            y: rounded_quotient(self.y * UNIT_NORM, len),
            z: rounded_quotient(self.z * UNIT_NORM, len),
        };
        if r.w == 0 && r.x == 0 && r.y == 0 && r.z == 0 {
            Quaternion::identity()
        } else {
            proof {
                lemma_norm_positive(r@);
            }
            r
        }
    }

    /// The quaternion turned further by a small turn, and brought to norm;
    /// the quaternion as it is where the turn is zero.
    pub fn turned_by(&self, angle: &Vec3) -> (r: Quaternion)
        requires
            self.wf(),
            angle@.within(ANGLE_MAX as int),
        ensures
            r@ == self@.turned_by(angle@),
            r.wf(),
    {
        if angle.is_zero() {
            return *self;
        }
        let turn = Quaternion { w: 2 * ONE, x: angle.x, y: angle.y, z: angle.z };
        let unit = self.normalized();
        turn.product(&unit).normalized()
    }
}

/// A rigid pose: where the origin of a body is, and how the body is turned.
#[derive(Clone, Copy, Debug, PartialEq, Eq, Structural)]
pub struct Frame {
    pub position: Vec3,
    pub quaternion: Quaternion,
}

impl Frame {
    /// The position is in range and the quaternion can turn vectors.
    pub open spec fn wf(&self) -> bool {
        &&& self.position@.within(POSITION_MAX as int)
        &&& self.quaternion.wf()
    }

    /// The point of the world at which the point `p` of the body stands.
    pub open spec fn act_spec(&self, p: Vector) -> Vector {
        self.quaternion@.rotate(p).plus(self.position@)
    }

    /// The point of the body that stands at the point `p` of the world, as
    /// far as rounding allows.
    pub open spec fn act_inverse_spec(&self, p: Vector) -> Vector {
        self.quaternion@.conjugate().rotate(p.minus(self.position@))
    }

    /// The frame at the origin of the world, not turned.
    pub open spec fn identity_spec() -> Frame {
        Frame {
            position: Vec3 { x: 0, y: 0, z: 0 },
            quaternion: Quaternion { w: 1, x: 0, y: 0, z: 0 },
        }
    }

    /// The frame at the origin of the world, not turned.
    pub fn identity() -> (f: Frame)
        ensures
            f.wf(),
            f == Frame::identity_spec(),
    {
        Frame { position: Vec3::zero(), quaternion: Quaternion::identity() }
    }

    /// Takes a point of the body to the world: turns it, then moves it by
    /// the position.
    pub fn act(&self, p: &Vec3) -> (r: Vec3)
        requires
            self.wf(),
            p@.within(TURN_MAX as int),
        ensures
            r@ == self.act_spec(p@),
            r@.within(POSITION_MAX + 3 * reach(p@)),
    {
        let turned = self.quaternion.rotate(p);
        turned.plus(&self.position)
    }

    /// Takes a point of the world to the body: moves it back by the
    /// position, then turns it the opposite way.
    pub fn act_inverse(&self, p: &Vec3) -> (r: Vec3)
        requires
            self.wf(),
            p@.within(POSITION_MAX as int + POSITION_MAX as int),
        ensures
            r@ == self.act_inverse_spec(p@),
            r@.within(3 * reach(p@.minus(self.position@))),
    {
        let moved = p.minus(&self.position);
        self.quaternion.conjugate().rotate(&moved)
    }
}

/// A frame that is not turned moves every point by its position.
pub proof fn lemma_unturned_frame(f: Frame, p: Vector)
    requires
        f.quaternion.w != 0,
        f.quaternion.x == 0,
        f.quaternion.y == 0,
        f.quaternion.z == 0,
    ensures
        f.act_spec(p) == p.plus(f.position@),
{
    lemma_identity_rotation(f.quaternion@, p);
}

} // verus!
