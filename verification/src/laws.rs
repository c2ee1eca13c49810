//! What holds of the queries and of the test whatever the shapes are.

use vstd::prelude::*;
use vstd::arithmetic::div_mod::lemma_hoist_over_denominator;
use crate::gjk::{
    axis_test, evolve_spec, finds_intersection, lemma_search_comes_to_axis_test,
    minkowski_support, search, seed_direction, stored, triple_product_spec,
};
use crate::polygon::{
    area_sum, centroid, floor_div, moment, moment_sum, prev_vertex, twice_area,
};
use crate::shape::GJKShape;
use crate::simplex::lemma_weighted_sum;
use crate::vector::{lemma_cross_linear, lemma_dot_linear, Point, Vec2};

verus! {

/// The test in closed form does not depend on the order of its arguments.
pub proof fn lemma_axis_test_symmetric<A: GJKShape, B: GJKShape>(a: &A, b: &B)
    ensures
        axis_test(a, b) == axis_test(b, a),
{
    let d = seed_direction(a, b);
    let c = minkowski_support(a, b, d);
    let e = minkowski_support(a, b, d.negated());
    let d2 = seed_direction(b, a);
    let c2 = minkowski_support(b, a, d2);
    let e2 = minkowski_support(b, a, d2.negated());
    assert(d2 == d.negated());
    assert(d.negated().negated() == d);
    assert(c2 == c.negated());
    assert(e2 == e.negated());
    lemma_dot_linear(c, c, d);
    lemma_dot_linear(c.negated(), c, d.negated());
    lemma_dot_linear(e, e, d);
    lemma_dot_linear(e.negated(), e, d.negated());
    lemma_dot_linear(d, d, c);
    lemma_dot_linear(d, d, e);
    lemma_dot_linear(d.negated(), d.negated(), c.negated());
    lemma_dot_linear(d.negated(), d.negated(), e.negated());
    let u = e.minus(c);
    assert(e2.minus(c2) == u.negated());
    assert(u.negated().cross(c2.negated()) == u.cross(c.negated())) by (nonlinear_arith)
        requires
            c2 == c.negated(),
    ;
}

/// The test does not depend on the order of its arguments.
pub proof fn lemma_finds_intersection_symmetric<A: GJKShape, B: GJKShape>(a: &A, b: &B)
    requires
        a.valid(),
        b.valid(),
    ensures
        finds_intersection(a, b) == finds_intersection(b, a),
{
    lemma_search_comes_to_axis_test(a, b);
    lemma_search_comes_to_axis_test(b, a);
    lemma_axis_test_symmetric(a, b);
}

/// Where the point of the Minkowski difference furthest along `d` does not
/// lie beyond the origin, no point of `a` lies further along `d` than any
/// point of `b`: a line across `d` has `a` on one side and `b` on the other.
pub proof fn lemma_no_progress_separates<A: GJKShape, B: GJKShape>(
    a: &A,
    b: &B,
    d: Point,
    p: Point,
    q: Point,
)
    requires
        a.valid(),
        b.valid(),
        a.has_point(p),
        b.has_point(q),
        d.dot(minkowski_support(a, b, d)) <= 0,
    ensures
        p.dot(d) <= q.dot(d),
{
    let sa = a.support_spec(d);
    let sb = b.support_spec(d.negated());
    a.lemma_support_furthest(d, p);
    b.lemma_support_furthest(d.negated(), q);
    lemma_dot_linear(sa, sb, d);
    lemma_dot_linear(q, q, d);
    lemma_dot_linear(sb, sb, d);
}

/// The test is a function of what the two polygons hold: two runs on lists
/// of the same vertices give the same answer.
pub proof fn lemma_finds_intersection_deterministic(
    a1: &Vec<Vec2>,
    b1: &Vec<Vec2>,
    a2: &Vec<Vec2>,
    b2: &Vec<Vec2>,
)
    requires
        a1@ == a2@,
        b1@ == b2@,
    ensures
        finds_intersection(a1, b1) == finds_intersection(a2, b2),
{
    lemma_search_of_equal_lists(
        a1,
        b1,
        a2,
        b2,
        seq![
            stored(minkowski_support(a1, b1, seed_direction(a1, b1))),
            stored(minkowski_support(a1, b1, seed_direction(a1, b1).negated())),
        ],
        2,
    );
}

/// The search on lists of the same vertices answers the same.
proof fn lemma_search_of_equal_lists(
    a1: &Vec<Vec2>,
    b1: &Vec<Vec2>,
    a2: &Vec<Vec2>,
    b2: &Vec<Vec2>,
    s: Seq<Vec2>,
    rounds: nat,
)
    requires
        a1@ == a2@,
        b1@ == b2@,
    ensures
        search(a1, b1, s, rounds) == search(a2, b2, s, rounds),
    decreases rounds,
{
    if rounds > 0 {
        assert(evolve_spec(s, a1, b1) == evolve_spec(s, a2, b2));
        lemma_search_of_equal_lists(a1, b1, a2, b2, evolve_spec(s, a1, b1).0, (rounds - 1) as nat);
    }
}

/// The direction that a round finds for a segment does not depend on the
/// end from which the origin is seen.
pub proof fn lemma_segment_direction_from_either_end(c: Point, b: Point)
    ensures
        triple_product_spec(b.minus(c), c.negated(), b.minus(c)) == triple_product_spec(
            b.minus(c),
            b.negated(),
            b.minus(c),
        ),
{
    let cb = b.minus(c);
    assert(cb.cross(b.negated()) == cb.cross(c.negated())) by (nonlinear_arith)
        requires
            cb == b.minus(c),
    {
        assert((b.x - c.x) * (-b.y) - (b.y - c.y) * (-b.x) == -(b.x * b.y) + c.x * b.y + b.y * b.x
            - c.y * b.x);
        assert((b.x - c.x) * (-c.y) - (b.y - c.y) * (-c.x) == -(b.x * c.y) + c.x * c.y + b.y * c.x
            - c.y * c.x);
    }
}

/// `q` is the polygon `s` with every vertex moved by `t`.
pub open spec fn is_translate(q: Seq<Vec2>, s: Seq<Vec2>, t: Point) -> bool {
    &&& q.len() == s.len()
    &&& forall|i: int| 0 <= i < s.len() ==> (#[trigger] q[i])@ == s[i]@.plus(t)
}

/// What moving by `t` adds to the sum of the edges' cross products from the
/// loop's start `l` up to the vertex `u`; it vanishes once the loop is closed.
spec fn area_drift(u: Point, l: Point, t: Point) -> int {
    t.cross(u.minus(l))
}

/// What moving by `t` adds to the first coordinate of the moment up to the
/// vertex `u`, beyond `3 * t.x` times the area so far.
spec fn moment_drift_x(u: Point, l: Point, t: Point) -> int {
    t.x * (u.x * u.y - l.x * l.y) - t.y * (u.x * u.x - l.x * l.x) + 2 * t.x * area_drift(u, l, t)
}

/// The same for the second coordinate.
spec fn moment_drift_y(u: Point, l: Point, t: Point) -> int {
    t.x * (u.y * u.y - l.y * l.y) - t.y * (u.x * u.y - l.x * l.y) + 2 * t.y * area_drift(u, l, t)
}

/// One edge from `u` to `v`, moved by `t`: its cross product, and its share
/// of each coordinate of the moment.
proof fn lemma_translate_edge(ux: int, uy: int, vx: int, vy: int, tx: int, ty: int)
    ensures
        ({
            let a = ux * vy - uy * vx;
            let c = tx * (vy - uy) - ty * (vx - ux);
            &&& (ux + tx) * (vy + ty) - (uy + ty) * (vx + tx) == a + c
            &&& (ux + vx + 2 * tx) * (a + c) == (ux + vx) * a + 3 * tx * a + tx * (vx * vy - ux
                * uy) - ty * (vx * vx - ux * ux) + 2 * tx * c
            &&& (uy + vy + 2 * ty) * (a + c) == (uy + vy) * a + 3 * ty * a + tx * (vy * vy - uy
                * uy) - ty * (vx * vy - ux * uy) + 2 * ty * c
        }),
{
    let a = ux * vy - uy * vx;
    let c = tx * (vy - uy) - ty * (vx - ux);
    assert((ux + tx) * (vy + ty) - (uy + ty) * (vx + tx) == a + c) by (nonlinear_arith)
        requires
            a == ux * vy - uy * vx,
            c == tx * (vy - uy) - ty * (vx - ux),
    {
        assert((ux + tx) * (vy + ty) == ux * vy + ux * ty + tx * vy + tx * ty);
        assert((uy + ty) * (vx + tx) == uy * vx + uy * tx + ty * vx + ty * tx);
        assert(tx * (vy - uy) == tx * vy - tx * uy);
        assert(ty * (vx - ux) == ty * vx - ty * ux);
    }
    let px = vy - uy;
    let qx = vx - ux;
    let xy = vx * vy - ux * uy;
    let sx = ux + vx;
    let sy = uy + vy;
    assert(sx * px == a + xy) by (nonlinear_arith)
        requires
            sx == ux + vx,
            px == vy - uy,
            a == ux * vy - uy * vx,
            xy == vx * vy - ux * uy,
    {
        assert((ux + vx) * (vy - uy) == ux * vy - ux * uy + vx * vy - vx * uy);
        assert(vx * uy == uy * vx);
    }
    assert(sx * qx == vx * vx - ux * ux) by (nonlinear_arith)
        requires
            sx == ux + vx,
            qx == vx - ux,
    {
        assert((ux + vx) * (vx - ux) == ux * vx - ux * ux + vx * vx - vx * ux);
        assert(ux * vx == vx * ux);
    }
    assert(sy * px == vy * vy - uy * uy) by (nonlinear_arith)
        requires
            sy == uy + vy,
            px == vy - uy,
    {
        assert((uy + vy) * (vy - uy) == uy * vy - uy * uy + vy * vy - vy * uy);
        assert(uy * vy == vy * uy);
    }
    assert(sy * qx == xy - a) by (nonlinear_arith)
        requires
            sy == uy + vy,
            qx == vx - ux,
            a == ux * vy - uy * vx,
            xy == vx * vy - ux * uy,
    {
        assert((uy + vy) * (vx - ux) == uy * vx - uy * ux + vy * vx - vy * ux);
        assert(uy * ux == ux * uy);
        assert(vy * vx == vx * vy);
        assert(vy * ux == ux * vy);
    }
    lemma_weighted_sum(sx, tx, px, -ty, qx);
    lemma_weighted_sum(sy, tx, px, -ty, qx);
    lemma_weighted_sum(tx, 1, a, 1, xy);
    lemma_weighted_sum(ty, 1, xy, -1, a);
    assert(c == tx * px + (-ty) * qx) by (nonlinear_arith)
        requires
            c == tx * px - ty * qx,
    ;
    assert(sx * c == tx * a + tx * xy - ty * (vx * vx - ux * ux)) by (nonlinear_arith)
        requires
            sx * (tx * px + (-ty) * qx) == tx * (sx * px) + (-ty) * (sx * qx),
            c == tx * px + (-ty) * qx,
            sx * px == a + xy,
            sx * qx == vx * vx - ux * ux,
            tx * (1 * a + 1 * xy) == 1 * (tx * a) + 1 * (tx * xy),
    ;
    assert(sy * c == ty * a + tx * (vy * vy - uy * uy) - ty * xy) by (nonlinear_arith)
        requires
            sy * (tx * px + (-ty) * qx) == tx * (sy * px) + (-ty) * (sy * qx),
            c == tx * px + (-ty) * qx,
            sy * px == vy * vy - uy * uy,
            sy * qx == xy - a,
            ty * (1 * xy + (-1) * a) == 1 * (ty * xy) + (-1) * (ty * a),
    ;
    lemma_weighted_sum(a + c, 1, sx, 2, tx);
    lemma_weighted_sum(a + c, 1, sy, 2, ty);
    lemma_weighted_sum(sx, 1, a, 1, c);
    lemma_weighted_sum(sy, 1, a, 1, c);
    lemma_weighted_sum(tx, 1, a, 1, c);
    lemma_weighted_sum(ty, 1, a, 1, c);
    assert((sx + 2 * tx) * (a + c) == sx * a + 3 * tx * a + tx * xy - ty * (vx * vx - ux * ux) + 2
        * tx * c) by (nonlinear_arith)
        requires
            sx * c == tx * a + tx * xy - ty * (vx * vx - ux * ux),
            (a + c) * (1 * sx + 2 * tx) == 1 * ((a + c) * sx) + 2 * ((a + c) * tx),
            sx * (1 * a + 1 * c) == 1 * (sx * a) + 1 * (sx * c),
            tx * (1 * a + 1 * c) == 1 * (tx * a) + 1 * (tx * c),
    {
        assert((sx + 2 * tx) * (a + c) == (a + c) * (1 * sx + 2 * tx));
        assert((a + c) * sx == sx * (1 * a + 1 * c));
        assert((a + c) * tx == tx * (1 * a + 1 * c));
    }
    assert((sy + 2 * ty) * (a + c) == sy * a + 3 * ty * a + tx * (vy * vy - uy * uy) - ty * xy + 2
        * ty * c) by (nonlinear_arith)
        requires
            sy * c == ty * a + tx * (vy * vy - uy * uy) - ty * xy,
            (a + c) * (1 * sy + 2 * ty) == 1 * ((a + c) * sy) + 2 * ((a + c) * ty),
            sy * (1 * a + 1 * c) == 1 * (sy * a) + 1 * (sy * c),
            ty * (1 * a + 1 * c) == 1 * (ty * a) + 1 * (ty * c),
    {
        assert((sy + 2 * ty) * (a + c) == (a + c) * (1 * sy + 2 * ty));
        assert((a + c) * sy == sy * (1 * a + 1 * c));
        assert((a + c) * ty == ty * (1 * a + 1 * c));
    }
}

/// The sums over the first `k` edges of a polygon moved by `t`, by those of
/// the polygon itself.
proof fn lemma_sums_translate(q: Seq<Vec2>, s: Seq<Vec2>, t: Point, k: nat)
    requires
        is_translate(q, s, t),
        s.len() >= 1,
        k <= s.len(),
    ensures
        area_sum(q, k) == area_sum(s, k) + area_drift(prev_vertex(s, k as int), s.last()@, t),
        moment_sum(q, k).x == moment_sum(s, k).x + 3 * t.x * area_sum(s, k) + moment_drift_x(
            prev_vertex(s, k as int),
            s.last()@,
            t,
        ),
        moment_sum(q, k).y == moment_sum(s, k).y + 3 * t.y * area_sum(s, k) + moment_drift_y(
            prev_vertex(s, k as int),
            s.last()@,
            t,
        ),
    decreases k,
{
    let l = s.last()@;
    if k == 0 {
        assert(prev_vertex(s, 0) == l);
        assert(area_drift(l, l, t) == 0) by (nonlinear_arith)
            requires
                area_drift(l, l, t) == t.x * (l.y - l.y) - t.y * (l.x - l.x),
        ;
        assert(3 * t.x * 0 == 0 && 3 * t.y * 0 == 0);
    } else {
        let j = (k - 1) as nat;
        lemma_sums_translate(q, s, t, j);
        let u = prev_vertex(s, j as int);
        let v = s[j as int]@;
        assert(prev_vertex(s, k as int) == v);
        assert(q.last()@ == l.plus(t));
        assert(prev_vertex(q, j as int) == u.plus(t));
        assert(q[j as int]@ == v.plus(t));
        lemma_translate_edge(u.x, u.y, v.x, v.y, t.x, t.y);
        let a = u.cross(v);
        let c = t.x * (v.y - u.y) - t.y * (v.x - u.x);
        lemma_cross_linear(t, v, u);
        lemma_cross_linear(t, v, l);
        lemma_cross_linear(t, u, l);
        assert(c == t.cross(v.minus(u)));
        assert(area_drift(v, l, t) == area_drift(u, l, t) + c);
        let aj = area_sum(s, j);
        assert(3 * t.x * (aj + a) == 3 * t.x * aj + 3 * t.x * a) by (nonlinear_arith);
        assert(3 * t.y * (aj + a) == 3 * t.y * aj + 3 * t.y * a) by (nonlinear_arith);
        let du = area_drift(u, l, t);
        assert(2 * t.x * (du + c) == 2 * t.x * du + 2 * t.x * c) by (nonlinear_arith);
        assert(2 * t.y * (du + c) == 2 * t.y * du + 2 * t.y * c) by (nonlinear_arith);
        assert(moment_drift_x(v, l, t) - moment_drift_x(u, l, t) == t.x * (v.x * v.y - u.x * u.y)
            - t.y * (v.x * v.x - u.x * u.x) + 2 * t.x * c) by (nonlinear_arith)
            requires
                moment_drift_x(v, l, t) == t.x * (v.x * v.y - l.x * l.y) - t.y * (v.x * v.x - l.x
                    * l.x) + 2 * t.x * (du + c),
                moment_drift_x(u, l, t) == t.x * (u.x * u.y - l.x * l.y) - t.y * (u.x * u.x - l.x
                    * l.x) + 2 * t.x * du,
                2 * t.x * (du + c) == 2 * t.x * du + 2 * t.x * c,
        {
            assert(t.x * (v.x * v.y - l.x * l.y) - t.x * (u.x * u.y - l.x * l.y) == t.x * (v.x
                * v.y - u.x * u.y));
            assert(t.y * (v.x * v.x - l.x * l.x) - t.y * (u.x * u.x - l.x * l.x) == t.y * (v.x
                * v.x - u.x * u.x));
        }
        assert(moment_drift_y(v, l, t) - moment_drift_y(u, l, t) == t.x * (v.y * v.y - u.y * u.y)
            - t.y * (v.x * v.y - u.x * u.y) + 2 * t.y * c) by (nonlinear_arith)
            requires
                moment_drift_y(v, l, t) == t.x * (v.y * v.y - l.y * l.y) - t.y * (v.x * v.y - l.x
                    * l.y) + 2 * t.y * (du + c),
                moment_drift_y(u, l, t) == t.x * (u.y * u.y - l.y * l.y) - t.y * (u.x * u.y - l.x
                    * l.y) + 2 * t.y * du,
                2 * t.y * (du + c) == 2 * t.y * du + 2 * t.y * c,
        {
            assert(t.x * (v.y * v.y - l.y * l.y) - t.x * (u.y * u.y - l.y * l.y) == t.x * (v.y
                * v.y - u.y * u.y));
            assert(t.y * (v.x * v.y - l.x * l.y) - t.y * (u.x * u.y - l.x * l.y) == t.y * (v.x
                * v.y - u.x * u.y));
        }
    }
}

/// Adding a multiple of the divisor adds as much to the quotient rounded down.
proof fn lemma_floor_div_shift(n: int, d: int, t: int)
    requires
        d != 0,
    ensures
        floor_div(n + t * d, d) == floor_div(n, d) + t,
{
    if d > 0 {
        lemma_hoist_over_denominator(n, t, d as nat);
    } else {
        lemma_hoist_over_denominator(-n, t, (-d) as nat);
        assert(-(n + t * d) == -n + t * (-d)) by (nonlinear_arith);
    }
}

/// Moving every vertex of a polygon by `t` leaves its area as it is and
/// moves its centroid by `t`.
pub proof fn lemma_centroid_translates(q: Seq<Vec2>, s: Seq<Vec2>, t: Point)
    requires
        is_translate(q, s, t),
        s.len() >= 1,
        twice_area(s) != 0,
    ensures
        twice_area(q) == twice_area(s),
        centroid(q) == centroid(s).plus(t),
{
    let n = s.len();
    let l = s.last()@;
    lemma_sums_translate(q, s, t, n);
    assert(prev_vertex(s, n as int) == l);
    assert(area_drift(l, l, t) == 0) by (nonlinear_arith)
        requires
            area_drift(l, l, t) == t.x * (l.y - l.y) - t.y * (l.x - l.x),
    ;
    assert(moment_drift_x(l, l, t) == 0 && moment_drift_y(l, l, t) == 0) by (nonlinear_arith)
        requires
            area_drift(l, l, t) == 0,
            moment_drift_x(l, l, t) == t.x * (l.x * l.y - l.x * l.y) - t.y * (l.x * l.x - l.x * l.x)
                + 2 * t.x * area_drift(l, l, t),
            moment_drift_y(l, l, t) == t.x * (l.y * l.y - l.y * l.y) - t.y * (l.x * l.y - l.x * l.y)
                + 2 * t.y * area_drift(l, l, t),
    ;
    let d = 3 * twice_area(s);
    assert(3 * t.x * twice_area(s) == t.x * d && 3 * t.y * twice_area(s) == t.y * d)
        by (nonlinear_arith)
        requires
            d == 3 * twice_area(s),
    ;
    lemma_floor_div_shift(moment(s).x, d, t.x);
    lemma_floor_div_shift(moment(s).y, d, t.y);
}

} // verus!
