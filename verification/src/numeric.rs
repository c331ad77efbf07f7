//! Integer arithmetic that stands in for division and square roots of real
//! numbers: quotients rounded to the nearest integer, and square roots
//! rounded down.

use vstd::prelude::*;
use vstd::arithmetic::div_mod::{lemma_fundamental_div_mod, lemma_fundamental_div_mod_converse};
use crate::vector::{lemma_product_bound, Vec3, Vector};

verus! {

/// Bound on the two numbers of a rounded quotient.
pub const QUOTIENT_MAX: i128 = 0x1000_0000_0000_0000_0000_0000_0000_0000;

/// `n / d` rounded to the nearest integer, halves upwards; `d` is positive.
pub open spec fn round_div(n: int, d: int) -> int {
    (2 * n + d) / (2 * d)
}

/// Rounding a quotient keeps it within an integer bound on the quotient.
pub proof fn lemma_round_div_bounded(n: int, d: int, k: int)
    requires
        d > 0,
        -(k * d) <= n <= k * d,
    ensures
        -k <= round_div(n, d) <= k,
{
    let t = 2 * n + d;
    let q = t / (2 * d);
    lemma_fundamental_div_mod(t, 2 * d);
    assert(-k <= q <= k) by (nonlinear_arith)
        requires
            d > 0,
            -(k * d) <= n <= k * d,
            2 * n + d == (2 * d) * q + t % (2 * d),
            0 <= t % (2 * d) < 2 * d,
    ;
}

/// A rounded quotient is the nearest integer to the quotient: it is off by
/// half at most, and by less than half upwards.
pub proof fn lemma_round_div_nearest(n: int, d: int)
    requires
        d > 0,
    ensures
        -d <= 2 * (n - round_div(n, d) * d) < d,
{
    let t = 2 * n + d;
    let q = t / (2 * d);
    lemma_fundamental_div_mod(t, 2 * d);
    assert(-d <= 2 * (n - q * d) < d) by (nonlinear_arith)
        requires
            d > 0,
            2 * n + d == (2 * d) * q + t % (2 * d),
            0 <= t % (2 * d) < 2 * d,
    ;
}

/// A rounded quotient has the sign of what is divided, or is zero.
pub proof fn lemma_round_div_sign(n: int, d: int)
    requires
        d > 0,
    ensures
        n >= 0 ==> round_div(n, d) >= 0,
        n <= 0 ==> round_div(n, d) <= 0,
{
    let t = 2 * n + d;
    let q = t / (2 * d);
    lemma_fundamental_div_mod(t, 2 * d);
    assert((n >= 0 ==> q >= 0) && (n <= 0 ==> q <= 0)) by (nonlinear_arith)
        requires
            d > 0,
            2 * n + d == (2 * d) * q + t % (2 * d),
            0 <= t % (2 * d) < 2 * d,
    ;
}

/// A multiple of the divisor is divided without rounding.
pub proof fn lemma_round_exact(k: int, d: int)
    requires
        d > 0,
    ensures
        round_div(d * k, d) == k,
{
    assert(2 * (d * k) + d == k * (2 * d) + d) by (nonlinear_arith);
    lemma_fundamental_div_mod_converse(2 * (d * k) + d, 2 * d, k, d);
}

/// `n / d` rounded to the nearest integer, halves upwards.
pub fn rounded_quotient(n: i128, d: i128) -> (r: i128)
    requires
        0 < d <= QUOTIENT_MAX,
        -QUOTIENT_MAX <= n <= QUOTIENT_MAX,
    ensures
        r == round_div(n as int, d as int),
{
    let t: i128 = 2 * n + d;
    let dd: i128 = 2 * d;
    if t >= 0 {
        t / dd
    } else {
        let m: i128 = -t;
        let q: i128 = (m + dd - 1) / dd;
        proof {
            let s = m + dd - 1;
            lemma_fundamental_div_mod(s as int, dd as int);
            let rem = (s as int) % (dd as int);
            assert(t == (-q) * dd + (dd - 1 - rem)) by (nonlinear_arith)
                requires
                    s == dd * q + rem,
                    s == -t + dd - 1,
            ;
            lemma_fundamental_div_mod_converse(t as int, dd as int, -(q as int), dd - 1 - rem);
        }
        -q
    }
}

/// `r` is the square root of `n`, rounded down.
pub open spec fn is_floor_sqrt(n: int, r: int) -> bool {
    r >= 0 && r * r <= n < (r + 1) * (r + 1)
}

/// The square root of `n`, rounded down; `n` is not negative.
pub open spec fn floor_sqrt(n: int) -> int {
    choose|r: int| is_floor_sqrt(n, r)
}

/// Squaring keeps the order of numbers that are not negative.
proof fn lemma_square_order(a: int, b: int)
    by (nonlinear_arith)
    requires
        0 <= a,
        a + 1 <= b,
    ensures
        (a + 1) * (a + 1) <= b * b,
{
}

/// Every number that is not negative has a rounded square root.
pub proof fn lemma_floor_sqrt_exists(n: int)
    requires
        n >= 0,
    ensures
        is_floor_sqrt(n, floor_sqrt(n)),
    decreases n,
{
    if n == 0 {
        assert(is_floor_sqrt(0, 0));
    } else {
        lemma_floor_sqrt_exists(n - 1);
        let r = floor_sqrt(n - 1);
        if n < (r + 1) * (r + 1) {
            assert(is_floor_sqrt(n, r));
        } else {
            assert(is_floor_sqrt(n, r + 1)) by (nonlinear_arith)
                requires
                    r >= 0,
                    r * r <= n - 1 < (r + 1) * (r + 1),
                    n >= (r + 1) * (r + 1),
            ;
        }
    }
}

/// Only one number is the rounded square root of `n`.
pub proof fn lemma_floor_sqrt_unique(n: int, r: int)
    requires
        is_floor_sqrt(n, r),
    ensures
        floor_sqrt(n) == r,
{
    let s = floor_sqrt(n);
    if s < r {
        lemma_square_order(s, r);
    }
    if r < s {
        lemma_square_order(r, s);
    }
}

/// The square root of `n`, rounded down.
pub fn integer_sqrt(n: i128) -> (r: i128)
    requires
        0 <= n < 0x100_0000_0000_0000_0000_0000_0000_0000,
    ensures
        r == floor_sqrt(n as int),
        is_floor_sqrt(n as int, r as int),
        0 <= r < 0x1000_0000_0000_0000,
{
    let mut lo: i128 = 0;
    let mut hi: i128 = 0x1000_0000_0000_0000;
    assert(0x1000_0000_0000_0000 * 0x1000_0000_0000_0000
        == 0x100_0000_0000_0000_0000_0000_0000_0000int) by (nonlinear_arith);
    assert(lo * lo == 0) by (nonlinear_arith)
        requires
            lo == 0,
    ;
    while hi - lo > 1
        invariant
            0 <= lo < hi <= 0x1000_0000_0000_0000,
            lo * lo <= n < hi * hi,
        decreases hi - lo,
    {
        let mid: i128 = lo + (hi - lo) / 2;
        proof {
            lemma_product_bound(mid as int, mid as int, 0x1000_0000_0000_0000, 0x1000_0000_0000_0000);
        }
        if mid * mid <= n {
            lo = mid;
        } else {
            hi = mid;
        }
    }
    proof {
        lemma_floor_sqrt_unique(n as int, lo as int);
    }
    lo
}

/// The number of the range from `-bound` to `bound` nearest to `x`.
pub open spec fn clamp(x: int, bound: int) -> int {
    if x < -bound {
        -bound
    } else if x > bound {
        bound
    } else {
        x
    }
}

/// The number of the range from `-bound` to `bound` nearest to `x`.
pub fn clamped(x: i128, bound: i128) -> (r: i128)
    requires
        0 <= bound,
    ensures
        r == clamp(x as int, bound as int),
        -bound <= r <= bound,
{
    if x < -bound {
        -bound
    } else if x > bound {
        bound
    } else {
        x
    }
}

/// Zero divided by anything is zero.
pub proof fn lemma_round_div_zero(d: int)
    requires
        d > 0,
    ensures
        round_div(0, d) == 0,
{
    assert(d * 0 == 0) by (nonlinear_arith);
    lemma_round_exact(0, d);
}

/// The vector with each coordinate held within the bound.
pub open spec fn clamp_vector(v: Vector, bound: int) -> Vector {
    Vector { x: clamp(v.x, bound), y: clamp(v.y, bound), z: clamp(v.z, bound) }
}

/// The vector times `k / d`, each coordinate rounded to the nearest integer.
pub open spec fn scaled_quotient(v: Vector, k: int, d: int) -> Vector {
    Vector { x: round_div(v.x * k, d), y: round_div(v.y * k, d), z: round_div(v.z * k, d) }
}

/// A vector within a bound stays within the bound of its products by a
/// number within a bound.
pub proof fn lemma_scaled_fits(v: Vector, k: int, m: int, n: int)
    requires
        v.within(m),
        -n <= k <= n,
    ensures
        -(m * n) <= v.x * k <= m * n,
        -(m * n) <= v.y * k <= m * n,
        -(m * n) <= v.z * k <= m * n,
{
    lemma_product_bound(v.x, k, m, n);
    lemma_product_bound(v.y, k, m, n);
    lemma_product_bound(v.z, k, m, n);
}

/// The vector times `k / d`, each coordinate rounded to the nearest
/// integer.
pub fn scaled_by_quotient(v: &Vec3, k: i128, d: i128) -> (r: Vec3)
    requires
        0 < d <= QUOTIENT_MAX,
        -QUOTIENT_MAX <= v.x * k <= QUOTIENT_MAX,
        -QUOTIENT_MAX <= v.y * k <= QUOTIENT_MAX,
        -QUOTIENT_MAX <= v.z * k <= QUOTIENT_MAX,
    ensures
        r@ == scaled_quotient(v@, k as int, d as int),
{
    Vec3 {
        x: rounded_quotient(v.x * k, d),
        y: rounded_quotient(v.y * k, d),
        z: rounded_quotient(v.z * k, d),
    }
}

/// The vector with each coordinate held within the bound.
pub fn clamped_vector(v: &Vec3, bound: i128) -> (r: Vec3)
    requires
        0 <= bound,
    ensures
        r@ == clamp_vector(v@, bound as int),
        r@.within(bound as int),
{
    Vec3 { x: clamped(v.x, bound), y: clamped(v.y, bound), z: clamped(v.z, bound) }
}

/// A quotient of a number within `m * n` by a positive number is within
/// `m * n`.
pub proof fn lemma_quotient_within(v: Vector, k: int, d: int, bound: int)
    requires
        d > 0,
        bound >= 0,
        -bound <= v.x * k <= bound,
        -bound <= v.y * k <= bound,
        -bound <= v.z * k <= bound,
    ensures
        scaled_quotient(v, k, d).within(bound),
{
    lemma_bound_times(bound, d);
    lemma_round_div_bounded(v.x * k, d, bound);
    lemma_round_div_bounded(v.y * k, d, bound);
    lemma_round_div_bounded(v.z * k, d, bound);
}

proof fn lemma_bound_times(bound: int, d: int)
    by (nonlinear_arith)
    requires
        d > 0,
        bound >= 0,
    ensures
        bound * d >= bound,
{
}

/// A share of a vector is within the bound of the vector.
pub proof fn lemma_share_within(v: Vector, part: int, rest: int, bound: int)
    requires
        v.within(bound),
        part >= 0,
        rest >= 0,
        part + rest > 0,
    ensures
        scaled_quotient(v, part, part + rest).within(bound),
{
    lemma_share(v.x, part, rest, bound);
    lemma_share(v.y, part, rest, bound);
    lemma_share(v.z, part, rest, bound);
    lemma_round_div_bounded(v.x * part, part + rest, bound);
    lemma_round_div_bounded(v.y * part, part + rest, bound);
    lemma_round_div_bounded(v.z * part, part + rest, bound);
}

proof fn lemma_share(x: int, part: int, rest: int, bound: int)
    by (nonlinear_arith)
    requires
        -bound <= x <= bound,
        part >= 0,
        rest >= 0,
    ensures
        -(bound * (part + rest)) <= x * part <= bound * (part + rest),
{
}

/// A point that divides the way from `a` to `b` lies between them, rounded
/// or not.
pub proof fn lemma_divides_between(a: int, b: int, part: int, rest: int)
    requires
        part >= 0,
        rest >= 0,
        part + rest > 0,
    ensures
        a <= b ==> a <= a + round_div((b - a) * part, part + rest) <= b,
        b <= a ==> b <= a + round_div((b - a) * part, part + rest) <= a,
{
    let d = b - a;
    if d >= 0 {
        lemma_share(d, part, rest, d);
        lemma_round_div_bounded(d * part, part + rest, d);
        assert(d * part >= 0) by (nonlinear_arith)
            requires
                d >= 0,
                part >= 0,
        ;
        lemma_round_div_sign(d * part, part + rest);
    } else {
        lemma_share(d, part, rest, -d);
        lemma_round_div_bounded(d * part, part + rest, -d);
        assert(d * part <= 0) by (nonlinear_arith)
            requires
                d <= 0,
                part >= 0,
        ;
        lemma_round_div_sign(d * part, part + rest);
    }
}

} // verus!
