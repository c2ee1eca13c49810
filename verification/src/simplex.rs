//! The geometry behind the intersection test: what is known of a triple
//! product, of the points of a Minkowski difference, and of a triangle whose
//! newest point was found on the far side of the first two from the origin.

use vstd::prelude::*;
use crate::gjk::{minkowski_support, triple_product_spec};
use crate::shape::GJKShape;
use crate::vector::{
    lemma_dot_linear, lemma_perp_dot, lemma_primitive_dot, lemma_primitive_factor,
    lemma_primitive_of_negated, lemma_primitive_of_perp, lemma_primitive_of_scaled, Point,
};

verus! {

/// The triple product by cases on the sign of `a x b`, and its size: it is
/// no longer than `c` turned by a quarter turn.
pub proof fn lemma_triple_product_cases(a: Point, b: Point, c: Point)
    ensures
        a.cross(b) == 0 ==> triple_product_spec(a, b, c) == (Point { x: 0, y: 0 }),
        a.cross(b) > 0 ==> triple_product_spec(a, b, c) == c.primitive().perp(),
        a.cross(b) < 0 ==> triple_product_spec(a, b, c) == c.primitive().perp().negated(),
        forall|limit: int| c.within(limit) ==> #[trigger] triple_product_spec(a, b, c).within(limit),
{
    let k = a.cross(b);
    let v = c.perp();
    lemma_primitive_factor(c);
    lemma_primitive_of_perp(c);
    if k == 0 {
        let z = v.scaled(0);
        assert(z == Point { x: 0, y: 0 });
        lemma_primitive_factor(z);
    } else if k > 0 {
        lemma_primitive_of_scaled(v, k);
    } else {
        let w = v.negated();
        assert(v.scaled(k) == w.scaled(-k)) by (nonlinear_arith)
            requires
                w == v.negated(),
        {
            assert(k * v.x == (-k) * (-v.x));
            assert(k * v.y == (-k) * (-v.y));
        }
        lemma_primitive_of_scaled(w, -k);
        lemma_primitive_of_negated(v);
    }
}

/// Stretching any of the three vectors by a positive factor does not change
/// their triple product.
pub proof fn lemma_triple_product_of_scaled(a: Point, b: Point, c: Point, i: int, j: int, k: int)
    requires
        i >= 1,
        j >= 1,
        k >= 1,
    ensures
        triple_product_spec(a.scaled(i), b.scaled(j), c.scaled(k)) == triple_product_spec(a, b, c),
{
    let x = a.cross(b);
    let y = a.scaled(i).cross(b.scaled(j));
    assert(y == (i * j) * x) by (nonlinear_arith)
        requires
            y == (i * a.x) * (j * b.y) - (i * a.y) * (j * b.x),
            x == a.x * b.y - a.y * b.x,
    {
        assert((i * a.x) * (j * b.y) == (i * j) * (a.x * b.y));
        assert((i * a.y) * (j * b.x) == (i * j) * (a.y * b.x));
    }
    assert((x > 0 <==> y > 0) && (x < 0 <==> y < 0)) by (nonlinear_arith)
        requires
            y == (i * j) * x,
            i >= 1,
            j >= 1,
    {
        assert(i * j >= 1);
    }
    lemma_triple_product_cases(a, b, c);
    lemma_triple_product_cases(a.scaled(i), b.scaled(j), c.scaled(k));
    lemma_primitive_of_scaled(c, k);
}

/// Reducing the three vectors to their primitives does not change their
/// triple product.
pub proof fn lemma_triple_product_of_primitives(a: Point, b: Point, c: Point)
    ensures
        triple_product_spec(a.primitive(), b.primitive(), c.primitive()) == triple_product_spec(
            a,
            b,
            c,
        ),
{
    lemma_primitive_factor(a);
    lemma_primitive_factor(b);
    lemma_primitive_factor(c);
    let i = if a.content() == 0 { 1 } else { a.content() as int };
    let j = if b.content() == 0 { 1 } else { b.content() as int };
    let k = if c.content() == 0 { 1 } else { c.content() as int };
    assert(a.primitive().scaled(i) == a);
    assert(b.primitive().scaled(j) == b);
    assert(c.primitive().scaled(k) == c);
    lemma_triple_product_of_scaled(a.primitive(), b.primitive(), c.primitive(), i, j, k);
}

/// A triple product faces `w` exactly where `a x b` and `c x w` have the same sign.
pub proof fn lemma_triple_product_faces(a: Point, b: Point, c: Point, w: Point)
    ensures
        triple_product_spec(a, b, c).dot(w) > 0 <==> a.cross(b) * c.cross(w) > 0,
        triple_product_spec(a, b, c).dot(w) < 0 <==> a.cross(b) * c.cross(w) < 0,
{
    let v = c.perp().scaled(a.cross(b));
    lemma_primitive_dot(v, w);
    lemma_perp_dot(c, a.cross(b), w);
}

/// Of all the points that `minkowski_support` gives, the one asked along
/// `d` lies furthest along `d`.
pub proof fn lemma_minkowski_furthest<A: GJKShape, B: GJKShape>(a: &A, b: &B, d: Point, e: Point)
    requires
        a.valid(),
        b.valid(),
    ensures
        d.dot(minkowski_support(a, b, e)) <= d.dot(minkowski_support(a, b, d)),
{
    let pa = a.support_spec(e);
    let pb = b.support_spec(e.negated());
    let qa = a.support_spec(d);
    let qb = b.support_spec(d.negated());
    a.lemma_support_in_shape(e);
    b.lemma_support_in_shape(e.negated());
    a.lemma_support_furthest(d, pa);
    b.lemma_support_furthest(d.negated(), pb);
    lemma_dot_linear(pa, pb, d);
    lemma_dot_linear(qa, qb, d);
    lemma_dot_linear(pb, pb, d);
    lemma_dot_linear(qb, qb, d);
}

/// Let the origin lie strictly between `c` and `b` as seen along `d`, and off
/// the line through them, and let `a` lie between them as seen along `d`
/// too, but not on the origin's side of that line. Then the origin lies
/// beyond neither of the edges `a b` and `a c` of the triangle.
pub proof fn lemma_origin_beyond_neither_edge(c: Point, b: Point, a: Point, d: Point)
    requires
        d.dot(b) < 0 < d.dot(c),
        d.dot(b) <= d.dot(a) <= d.dot(c),
        b.minus(c).cross(c.negated()) != 0,
        b.minus(c).cross(c.negated()) * b.minus(c).cross(a.minus(c)) <= 0,
    ensures
        c.minus(a).cross(b.minus(a)) * b.minus(a).cross(a.negated()) <= 0,
        b.minus(a).cross(c.minus(a)) * c.minus(a).cross(a.negated()) <= 0,
{
    let p = c.cross(b);
    let q = a.cross(b);
    let r = c.cross(a);
    let t = p - q - r;
    lemma_cross_of_differences(c.x, c.y, b.x, b.y, 0, 0);
    lemma_cross_of_differences(c.x, c.y, b.x, b.y, a.x, a.y);
    lemma_cross_of_differences(a.x, a.y, c.x, c.y, b.x, b.y);
    lemma_cross_of_differences(a.x, a.y, b.x, b.y, c.x, c.y);
    lemma_cross_of_differences(a.x, a.y, b.x, b.y, 0, 0);
    lemma_cross_of_differences(a.x, a.y, c.x, c.y, 0, 0);
    lemma_cross_antisymmetric(a.x, a.y, b.x, b.y);
    lemma_cross_antisymmetric(a.x, a.y, c.x, c.y);
    lemma_cross_antisymmetric(b.x, b.y, c.x, c.y);
    assert(b.minus(c).cross(c.negated()) == p);
    assert(b.minus(c).cross(a.minus(c)) == t);
    assert(c.minus(a).cross(b.minus(a)) == t);
    assert(b.minus(a).cross(c.minus(a)) == -t);
    assert(b.minus(a).cross(a.negated()) == q);
    assert(c.minus(a).cross(a.negated()) == -r);
    lemma_three_vectors(a.x, a.y, b.x, b.y, c.x, c.y, d.x, d.y);
    lemma_triangle_signs(p, q, r, d.dot(a), d.dot(b), d.dot(c));
    assert((-t) * (-r) == t * r) by (nonlinear_arith);
}

/// The signs behind `lemma_origin_beyond_neither_edge`, on plain integers.
proof fn lemma_triangle_signs(p: int, q: int, r: int, al: int, be: int, ga: int)
    requires
        p != 0,
        p * (p - q - r) <= 0,
        p * al == r * be + q * ga,
        be < 0 < ga,
        be <= al <= ga,
    ensures
        (p - q - r) * q <= 0,
        (p - q - r) * r <= 0,
{
    let t = p - q - r;
    if t == 0 {
        assert(t * q == 0 && t * r == 0) by (nonlinear_arith)
            requires
                t == 0,
        ;
    } else if p > 0 {
        assert(t < 0) by (nonlinear_arith)
            requires
                p > 0,
                p * t <= 0,
                t != 0,
        ;
        assert(p * al >= p * be && p * al <= p * ga) by (nonlinear_arith)
            requires
                p > 0,
                be <= al <= ga,
        ;
        if q < 0 {
            assert((r - p) * be + q * ga < 0) by (nonlinear_arith)
                requires
                    r - p > 0,
                    be < 0,
                    q < 0,
                    ga > 0,
            ;
            assert((r - p) * be + q * ga == r * be + q * ga - p * be) by (nonlinear_arith);
            assert(false);
        }
        if r < 0 {
            assert(r * be + (q - p) * ga > 0) by (nonlinear_arith)
                requires
                    q - p > 0,
                    be < 0,
                    r < 0,
                    ga > 0,
            ;
            assert(r * be + (q - p) * ga == r * be + q * ga - p * ga) by (nonlinear_arith);
            assert(false);
        }
        assert(t * q <= 0 && t * r <= 0) by (nonlinear_arith)
            requires
                t < 0,
                q >= 0,
                r >= 0,
        ;
    } else {
        assert(t > 0) by (nonlinear_arith)
            requires
                p < 0,
                p * t <= 0,
                t != 0,
        ;
        assert(p * al <= p * be && p * al >= p * ga) by (nonlinear_arith)
            requires
                p < 0,
                be <= al <= ga,
        ;
        if q > 0 {
            assert((r - p) * be + q * ga > 0) by (nonlinear_arith)
                requires
                    r - p < 0,
                    be < 0,
                    q > 0,
                    ga > 0,
            ;
            assert((r - p) * be + q * ga == r * be + q * ga - p * be) by (nonlinear_arith);
            assert(false);
        }
        if r > 0 {
            assert(r * be + (q - p) * ga < 0) by (nonlinear_arith)
                requires
                    q - p < 0,
                    be < 0,
                    r > 0,
                    ga > 0,
            ;
            assert(r * be + (q - p) * ga == r * be + q * ga - p * ga) by (nonlinear_arith);
            assert(false);
        }
        assert(t * q <= 0 && t * r <= 0) by (nonlinear_arith)
            requires
                t > 0,
                q <= 0,
                r <= 0,
        ;
    }
}

/// The cross product of the two vectors from `o` to `u` and from `o` to `v`,
/// by the cross products of the three points.
proof fn lemma_cross_of_differences(ox: int, oy: int, ux: int, uy: int, vx: int, vy: int)
    by (nonlinear_arith)
    ensures
        (ux - ox) * (vy - oy) - (uy - oy) * (vx - ox) == (ux * vy - uy * vx) - (ux * oy - uy * ox)
            - (ox * vy - oy * vx),
{
    assert((ux - ox) * (vy - oy) == ux * vy - ux * oy - ox * vy + ox * oy);
    assert((uy - oy) * (vx - ox) == uy * vx - uy * ox - oy * vx + oy * ox);
}

/// Exchanging the arguments of a cross product changes its sign.
proof fn lemma_cross_antisymmetric(ux: int, uy: int, vx: int, vy: int)
    by (nonlinear_arith)
    ensures
        ux * vy - uy * vx == -(vx * uy - vy * ux),
{
}

/// Three vectors of the plane are linearly dependent, with cross products
/// for coefficients; here the inner product of that relation with `d`.
proof fn lemma_three_vectors(
    ax: int,
    ay: int,
    bx: int,
    by: int,
    cx: int,
    cy: int,
    dx: int,
    dy: int,
)
    ensures
        (cx * by - cy * bx) * (dx * ax + dy * ay) == (cx * ay - cy * ax) * (dx * bx + dy * by) + (ax
            * by - ay * bx) * (dx * cx + dy * cy),
{
    let p = cx * by - cy * bx;
    let q = ax * by - ay * bx;
    let r = cx * ay - cy * ax;
    assert(p * ax == r * bx + q * cx) by (nonlinear_arith)
        requires
            p == cx * by - cy * bx,
            q == ax * by - ay * bx,
            r == cx * ay - cy * ax,
    {
        assert(p * ax == cx * by * ax - cy * bx * ax);
        assert(r * bx == cx * ay * bx - cy * ax * bx);
        assert(q * cx == ax * by * cx - ay * bx * cx);
    }
    assert(p * ay == r * by + q * cy) by (nonlinear_arith)
        requires
            p == cx * by - cy * bx,
            q == ax * by - ay * bx,
            r == cx * ay - cy * ax,
    {
        assert(p * ay == cx * by * ay - cy * bx * ay);
        assert(r * by == cx * ay * by - cy * ax * by);
        assert(q * cy == ax * by * cy - ay * bx * cy);
    }
    lemma_weighted_sum(p, dx, ax, dy, ay);
    lemma_weighted_sum(r, dx, bx, dy, by);
    lemma_weighted_sum(q, dx, cx, dy, cy);
    lemma_weighted_sum(dx, 1, r * bx, 1, q * cx);
    lemma_weighted_sum(dy, 1, r * by, 1, q * cy);
}

/// `k * (u * a + v * b)` is `u * (k * a) + v * (k * b)`.
pub proof fn lemma_weighted_sum(k: int, u: int, a: int, v: int, b: int)
    by (nonlinear_arith)
    ensures
        k * (u * a + v * b) == u * (k * a) + v * (k * b),
{
    assert(k * (u * a) == u * (k * a));
    assert(k * (v * b) == v * (k * b));
}

} // verus!
