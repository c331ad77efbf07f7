//! Support points: the point of a set that lies farthest along a direction,
//! and what such points tell about two sets.

use vstd::prelude::*;
use crate::geometry::{all_within, vectors};
use crate::limits::{COORD_MAX, DIRECTION_MAX, MINKOWSKI_MAX};
use crate::vector::{lemma_dot_rules, lemma_vector_products, Vec3, Vector};

verus! {

/// `points[i]` is the support point in the direction `dir`: none of the
/// points is farther along `dir`, and of those just as far it is the last.
pub open spec fn is_support(points: Seq<Vector>, dir: Vector, i: int) -> bool {
    &&& 0 <= i < points.len()
    &&& forall|j: int|
        0 <= j < points.len() ==> (#[trigger] points[j]).dot(dir) <= points[i].dot(dir)
    &&& forall|j: int| i < j < points.len() ==> (#[trigger] points[j]).dot(dir) < points[i].dot(dir)
}

/// The index of the support point.
pub open spec fn support_index(points: Seq<Vector>, dir: Vector) -> int {
    choose|i: int| is_support(points, dir, i)
}

/// The support point of a set of points that is not empty.
pub open spec fn support_point(points: Seq<Vector>, dir: Vector) -> Vector {
    points[support_index(points, dir)]
}

/// The support point of the Minkowski difference of two sets of points.
pub open spec fn minkowski_point(a: Seq<Vector>, b: Seq<Vector>, dir: Vector) -> Vector {
    support_point(a, dir).minus(support_point(b, dir.negated()))
}

/// `p` is the difference of a point of `a` and a point of `b`.
pub open spec fn is_difference(a: Seq<Vector>, b: Seq<Vector>, p: Vector) -> bool {
    exists|i: int, j: int|
        0 <= i < a.len() && 0 <= j < b.len() && p == (#[trigger] a[i]).minus(#[trigger] b[j])
}

/// The direction is not zero, and along it no point of `a` is farther than
/// any point of `b`: a plane at a right angle to `dir` has `a` on or behind
/// it and `b` on or in front of it.
pub open spec fn separates(a: Seq<Vector>, b: Seq<Vector>, dir: Vector) -> bool {
    &&& dir != Vector::zero()
    &&& forall|i: int, j: int|
        0 <= i < a.len() && 0 <= j < b.len() ==> (#[trigger] a[i]).dot(dir) <= (#[trigger] b[j]).dot(
            dir,
        )
}

/// As `separates`, with room between the two sets.
pub open spec fn separates_strictly(a: Seq<Vector>, b: Seq<Vector>, dir: Vector) -> bool {
    forall|i: int, j: int|
        0 <= i < a.len() && 0 <= j < b.len() ==> (#[trigger] a[i]).dot(dir) < (#[trigger] b[j]).dot(
            dir,
        )
}

/// Only one point is the support point.
pub proof fn lemma_support_unique(points: Seq<Vector>, dir: Vector, i: int)
    requires
        is_support(points, dir, i),
    ensures
        support_index(points, dir) == i,
{
    let k = support_index(points, dir);
    if k < i {
        assert(points[i].dot(dir) < points[k].dot(dir));
    }
    if i < k {
        assert(points[k].dot(dir) < points[i].dot(dir));
    }
}

/// A set of points that is not empty has a support point in each direction.
pub proof fn lemma_support_exists(points: Seq<Vector>, dir: Vector, n: int) -> (i: int)
    requires
        0 < n <= points.len(),
    ensures
        is_support(points.take(n), dir, i),
    decreases n,
{
    let head = points.take(n);
    if n == 1 {
        0
    } else {
        let k = lemma_support_exists(points, dir, n - 1);
        if head[n - 1].dot(dir) >= head[k].dot(dir) {
            assert forall|j: int| 0 <= j < head.len() implies (#[trigger] head[j]).dot(dir)
                <= head[n - 1].dot(dir) by {}
            n - 1
        } else {
            assert forall|j: int| 0 <= j < head.len() implies (#[trigger] head[j]).dot(dir)
                <= head[k].dot(dir) by {}
            assert forall|j: int| k < j < head.len() implies (#[trigger] head[j]).dot(dir)
                < head[k].dot(dir) by {}
            k
        }
    }
}

/// The support point is one of the points, and none is farther along the
/// direction.
pub proof fn lemma_support_point(points: Seq<Vector>, dir: Vector)
    requires
        points.len() > 0,
    ensures
        is_support(points, dir, support_index(points, dir)),
{
    lemma_support_exists(points, dir, points.len() as int);
    assert(points.take(points.len() as int) =~= points);
}

/// The support point of the Minkowski difference is a difference of a point
/// of each set, and no difference is farther along the direction.
pub proof fn lemma_minkowski_point(a: Seq<Vector>, b: Seq<Vector>, dir: Vector)
    requires
        a.len() > 0,
        b.len() > 0,
    ensures
        is_difference(a, b, minkowski_point(a, b, dir)),
        forall|i: int, j: int|
            0 <= i < a.len() && 0 <= j < b.len() ==> (#[trigger] a[i]).dot(dir) - (#[trigger] b[j]).dot(
                dir,
            ) <= dir.dot(minkowski_point(a, b, dir)),
{
    lemma_support_point(a, dir);
    lemma_support_point(b, dir.negated());
    let ia = support_index(a, dir);
    let ib = support_index(b, dir.negated());
    lemma_dot_rules(a[ia], b[ib], dir);
    lemma_dot_rules(b[ib], dir, dir);
    assert forall|i: int, j: int| 0 <= i < a.len() && 0 <= j < b.len() implies (#[trigger] a[i]).dot(
        dir,
    ) - (#[trigger] b[j]).dot(dir) <= dir.dot(minkowski_point(a, b, dir)) by {
        lemma_dot_rules(b[j], dir, dir);
    }
}

/// Where the Minkowski difference does not reach beyond the origin along a
/// direction, that direction separates the two sets.
pub proof fn lemma_unreached_origin_separates(a: Seq<Vector>, b: Seq<Vector>, dir: Vector)
    requires
        a.len() > 0,
        b.len() > 0,
        dir != Vector::zero(),
        dir.dot(minkowski_point(a, b, dir)) <= 0,
    ensures
        separates(a, b, dir),
{
    lemma_minkowski_point(a, b, dir);
}

/// A difference of two sets that a direction separates with room between
/// them is strictly behind the origin.
pub proof fn lemma_difference_behind(a: Seq<Vector>, b: Seq<Vector>, dir: Vector, p: Vector)
    requires
        separates_strictly(a, b, dir),
        is_difference(a, b, p),
    ensures
        dir.dot(p) < 0,
{
    let (i, j) = choose|i: int, j: int|
        0 <= i < a.len() && 0 <= j < b.len() && p == (#[trigger] a[i]).minus(#[trigger] b[j]);
    lemma_dot_rules(a[i], b[j], dir);
    lemma_dot_rules(a[i], dir, dir);
    lemma_dot_rules(b[j], dir, dir);
}

/// A direction that separates `b` from `a`, reversed, separates `a` from
/// `b`.
pub proof fn lemma_separates_reversed(a: Seq<Vector>, b: Seq<Vector>, dir: Vector)
    requires
        separates_strictly(b, a, dir),
    ensures
        separates_strictly(a, b, dir.negated()),
{
    assert forall|i: int, j: int| 0 <= i < a.len() && 0 <= j < b.len() implies (#[trigger] a[i]).dot(
        dir.negated(),
    ) < (#[trigger] b[j]).dot(dir.negated()) by {
        lemma_dot_rules(a[i], dir, dir);
        lemma_dot_rules(b[j], dir, dir);
    }
}

/// The support point of a set of points: the point farthest along `dir`,
/// the last of those that are equally far.
pub fn support_of(points: &Vec<Vec3>, dir: &Vec3) -> (r: Vec3)
    requires
        points@.len() > 0,
        all_within(vectors(points@), COORD_MAX as int),
        dir@.within(DIRECTION_MAX as int),
    ensures
        r@ == support_point(vectors(points@), dir@),
        r@.within(COORD_MAX as int),
{
    let ghost model = vectors(points@);
    let mut best: usize = 0;
    proof {
        lemma_vector_products(model[0], dir@, COORD_MAX as int, DIRECTION_MAX as int);
    }
    let mut best_reach: i128 = points[0].dot(dir);
    let mut i: usize = 1;
    while i < points.len()
        invariant
            model == vectors(points@),
            all_within(model, COORD_MAX as int),
            dir@.within(DIRECTION_MAX as int),
            1 <= i <= points@.len(),
            0 <= best < i,
            best_reach == model[best as int].dot(dir@),
            forall|j: int| 0 <= j < i ==> (#[trigger] model[j]).dot(dir@) <= best_reach,
            forall|j: int| best < j < i ==> (#[trigger] model[j]).dot(dir@) < best_reach,
        decreases points@.len() - i,
    {
        proof {
            lemma_vector_products(model[i as int], dir@, COORD_MAX as int, DIRECTION_MAX as int);
        }
        let reach = points[i].dot(dir);
        if reach >= best_reach {
            best = i;
            best_reach = reach;
        }
        i += 1;
    }
    proof {
        lemma_support_unique(model, dir@, best as int);
    }
    points[best]
}

/// The support point of the Minkowski difference of two sets of points.
pub fn minkowski_of(a: &Vec<Vec3>, b: &Vec<Vec3>, dir: &Vec3) -> (r: Vec3)
    requires
        a@.len() > 0,
        b@.len() > 0,
        all_within(vectors(a@), COORD_MAX as int),
        all_within(vectors(b@), COORD_MAX as int),
        dir@.within(DIRECTION_MAX as int),
    ensures
        r@ == minkowski_point(vectors(a@), vectors(b@), dir@),
        r@.within(MINKOWSKI_MAX as int),
{
    let back = dir.negated();
    let pa = support_of(a, dir);
    let pb = support_of(b, &back);
    pa.minus(&pb)
}

/// No difference of the two sets is farther along a direction than the
/// support point of the Minkowski difference.
pub proof fn lemma_difference_within_reach(
    a: Seq<Vector>,
    b: Seq<Vector>,
    normal: Vector,
    p: Vector,
)
    requires
        a.len() > 0,
        b.len() > 0,
        is_difference(a, b, p),
    ensures
        normal.dot(p) <= normal.dot(minkowski_point(a, b, normal)),
{
    lemma_minkowski_point(a, b, normal);
    let (i, j) = choose|i: int, j: int|
        0 <= i < a.len() && 0 <= j < b.len() && p == (#[trigger] a[i]).minus(#[trigger] b[j]);
    lemma_dot_rules(a[i], b[j], normal);
    lemma_dot_rules(a[i], normal, normal);
    lemma_dot_rules(b[j], normal, normal);
}

} // verus!
