//! The intersection test: a simplex of at most three points of the Minkowski
//! difference of two shapes is moved about the origin.
//!
//! `finds_intersection` says what `gjk_2d` answers, round by round, and
//! `axis_test` says the same in closed form. A round finds the direction in
//! which the origin lies and seeks the next point against it, so the third
//! point of the search lies on the far side of the first two from the
//! origin, and the round on the first triangle always ends the search
//! (`simplex::lemma_origin_beyond_neither_edge`).

use vstd::prelude::*;
use crate::simplex::{
    lemma_minkowski_furthest, lemma_origin_beyond_neither_edge, lemma_triple_product_cases,
    lemma_triple_product_faces, lemma_triple_product_of_primitives,
};
use crate::shape::{GJKShape, COORD_MAX};
use crate::vector::{
    lemma_cross_linear, lemma_dot_linear, lemma_perp_dot, lemma_primitive_dot, lemma_primitive_factor,
    Point, Vec2,
};

verus! {

/// The triple product `(a x b) x c` of the three vectors lifted to space,
/// brought back to the plane and reduced to its primitive: a quarter turn of
/// `c`, to the left where `a x b` is positive and to the right where it is
/// negative, and the zero vector where `a` and `b` are parallel.
pub open spec fn triple_product_spec(a: Point, b: Point, c: Point) -> Point {
    c.perp().scaled(a.cross(b)).primitive()
}

/// The stored form of a point whose coordinates fit.
pub open spec fn stored(p: Point) -> Vec2 {
    Vec2 { x: p.x as i64, y: p.y as i64 }
}

/// The point of the Minkowski difference `a - b` that the two shapes' support
/// points along `d` and against it give.
pub open spec fn minkowski_support<A: GJKShape, B: GJKShape>(a: &A, b: &B, d: Point) -> Point {
    a.support_spec(d).minus(b.support_spec(d.negated()))
}

/// How a round of the evolution ends.
#[derive(Clone, Copy, Debug, PartialEq, Eq, Structural)]
pub enum EvolveResult {
    /// The origin lies beyond neither of the two edges at the newest point
    /// of the triangle: the search ends, and the shapes are taken to intersect.
    Intersects,
    /// A point was added, and it lies beyond the origin as seen along the
    /// search: the simplex is to be looked at again.
    Continue,
    /// A point was added, and it does not lie beyond the origin as seen
    /// along the search: the search ends, and the shapes are taken to lie
    /// apart. It is so whenever the origin lies on the line through the two
    /// points of a segment, where the direction found is the zero vector.
    NoIntersection,
}

/// Whether every point of the simplex has coordinates of magnitude
/// `2 * COORD_MAX` at most, as differences of shape points have.
pub open spec fn simplex_in_range(s: Seq<Vec2>) -> bool {
    forall|i: int| 0 <= i < s.len() ==> (#[trigger] s[i])@.within(2 * COORD_MAX)
}

/// What a round decides from the simplex alone: the direction found and the
/// points that stay, or `None` where the round ends the search.
///
/// Of a segment `[c, b]` both points stay, and the direction is the normal of
/// the segment on the origin's side. Of a triangle `[c, b, a]`, where the
/// outward normal of the edge `a b` faces the origin, `c` leaves and `a`
/// takes its place; else, where that of the edge `a c` does, `b` leaves and
/// `a` takes its place; else the search ends.
pub open spec fn evolve_choice(s: Seq<Vec2>) -> Option<(Point, Seq<Vec2>)> {
    if s.len() == 2 {
        let cb = s[1]@.minus(s[0]@);
        let c0 = s[0]@.negated();
        Some((triple_product_spec(cb, c0, cb), s))
    } else {
        let a0 = s[2]@.negated();
        let ab = s[1]@.minus(s[2]@);
        let ac = s[0]@.minus(s[2]@);
        let ab_perp = triple_product_spec(ac, ab, ab);
        let ac_perp = triple_product_spec(ab, ac, ac);
        if ab_perp.dot(a0) > 0 {
            Some((ab_perp, seq![s[2], s[1]]))
        } else if ac_perp.dot(a0) > 0 {
            Some((ac_perp, seq![s[0], s[2]]))
        } else {
            None
        }
    }
}

/// The simplex after a round, and how the round ends: where a direction was
/// found, the point of the Minkowski difference furthest against it joins
/// the points that stay, and the round ends in `Continue` where that point
/// lies beyond the origin as seen against the direction.
pub open spec fn evolve_spec<A: GJKShape, B: GJKShape>(s: Seq<Vec2>, a: &A, b: &B) -> (
    Seq<Vec2>,
    EvolveResult,
) {
    match evolve_choice(s) {
        None => (s, EvolveResult::Intersects),
        Some((direction, kept)) => {
            let v = minkowski_support(a, b, direction.negated());
            (
                kept.push(stored(v)),
                if direction.negated().dot(v) > 0 {
                    EvolveResult::Continue
                } else {
                    EvolveResult::NoIntersection
                },
            )
        },
    }
}

/// The direction in which the search starts: from the center of `b` to that of `a`.
pub open spec fn seed_direction<A: GJKShape, B: GJKShape>(a: &A, b: &B) -> Point {
    a.center_spec().minus(b.center_spec())
}

/// What the search answers from the simplex `s` on, within `rounds` rounds.
pub open spec fn search<A: GJKShape, B: GJKShape>(a: &A, b: &B, s: Seq<Vec2>, rounds: nat) -> bool
    decreases rounds,
{
    if rounds == 0 {
        false
    } else {
        match evolve_spec(s, a, b).1 {
            EvolveResult::Intersects => true,
            EvolveResult::NoIntersection => false,
            EvolveResult::Continue => search(a, b, evolve_spec(s, a, b).0, (rounds - 1) as nat),
        }
    }
}

/// What `gjk_2d` answers. The search starts with the two points of the
/// Minkowski difference furthest along `seed_direction` and against it;
/// where either does not lie beyond the origin the answer is no, and else it
/// is what the rounds from these two points on answer. Two rounds are all
/// that a search takes: the round on the first triangle always ends it.
pub open spec fn finds_intersection<A: GJKShape, B: GJKShape>(a: &A, b: &B) -> bool {
    let d = seed_direction(a, b);
    let c = minkowski_support(a, b, d);
    let e = minkowski_support(a, b, d.negated());
    &&& d.dot(c) > 0
    &&& d.negated().dot(e) > 0
    &&& search(a, b, seq![stored(c), stored(e)], 2)
}

/// What the search comes to. Let `d` lead from the center of `b` to that of
/// `a`, and let `c` and `e` be the points of the Minkowski difference
/// furthest along `d` and against it. The answer is yes where the origin
/// lies strictly between `c` and `e` as seen along `d`, and off the line
/// through them.
///
/// So the answer is found on the axis through the two centers. It is no for
/// two shapes with one center, where `d` is zero, and for shapes that only
/// touch as seen along `d`, since `c` and `e` must lie strictly beyond the
/// origin. Where it is no because `c` or `e` does not lie beyond the origin,
/// a line across `d` has the shapes on either side of it
/// (`laws::lemma_no_progress_separates`). It can be no for shapes that
/// overlap, where the origin lies on the line through `c` and `e`, and yes
/// for shapes that lie apart, where no line across `d` lies between them.
pub open spec fn axis_test<A: GJKShape, B: GJKShape>(a: &A, b: &B) -> bool {
    let d = seed_direction(a, b);
    let c = minkowski_support(a, b, d);
    let e = minkowski_support(a, b, d.negated());
    &&& d.dot(c) > 0
    &&& d.negated().dot(e) > 0
    &&& e.minus(c).cross(c.negated()) != 0
}

/// The primitive triple product: each of the three vectors is reduced to
/// its primitive first, and so is the product.
pub fn triple_product(a: Vec2, b: Vec2, c: Vec2) -> (r: Vec2)
    requires
        c.x > i64::MIN,
        c.y > i64::MIN,
    ensures
        r@ == triple_product_spec(a@, b@, c@),
{
    let na = a.normalize();
    let nb = b.normalize();
    let nc = c.normalize();
    proof {
        lemma_triple_product_of_primitives(a@, b@, c@);
        lemma_triple_product_cases(na@, nb@, nc@);
        lemma_primitive_factor(c@);
        lemma_primitive_factor(nc@);
    }
    let k: i128 = na.cross(nb);
    if k == 0 {
        Vec2 { x: 0, y: 0 }
    } else if k > 0 {
        Vec2 { x: -nc.y, y: nc.x }
    } else {
        Vec2 { x: nc.y, y: -nc.x }
    }
}

/// The inner product of a difference of two shape points and any stored
/// direction has magnitude 2^96 at most.
proof fn lemma_progress_bounds(v: Point, d: Point)
    by (nonlinear_arith)
    requires
        v.within(0x1_0000_0000),
        d.within(0x8000_0000_0000_0000),
    ensures
        -0x1_0000_0000_0000_0000_0000_0000 <= d.dot(v) <= 0x1_0000_0000_0000_0000_0000_0000,
{
    assert(-0x8000_0000_0000_0000_0000_0000 <= d.x * v.x <= 0x8000_0000_0000_0000_0000_0000);
    assert(-0x8000_0000_0000_0000_0000_0000 <= d.y * v.y <= 0x8000_0000_0000_0000_0000_0000);
}

/// Appends to the simplex the point of the Minkowski difference furthest
/// along `direction`, and says whether that point lies beyond the origin as
/// seen along `direction`.
pub fn add_vertex<A: GJKShape, B: GJKShape>(
    simplex: &mut Vec<Vec2>,
    a: &A,
    b: &B,
    direction: Vec2,
) -> (progress: bool)
    requires
        a.valid(),
        b.valid(),
        direction.x > i64::MIN,
        direction.y > i64::MIN,
    ensures
        final(simplex)@ == old(simplex)@.push(stored(minkowski_support(a, b, direction@))),
        final(simplex)@.last()@ == minkowski_support(a, b, direction@),
        final(simplex)@.last()@.within(2 * COORD_MAX),
        progress == (direction@.dot(minkowski_support(a, b, direction@)) > 0),
{
    proof {
        a.lemma_support_in_shape(direction@);
        b.lemma_support_in_shape(direction@.negated());
    }
    let v = a.support(direction).minus(b.support(direction.negated()));
    simplex.push(v);
    proof {
        lemma_progress_bounds(v@, direction@);
    }
    direction.dot(v) > 0
}

/// The inner product of two vectors with coordinates of magnitude 2^40 at most.
proof fn lemma_dot_bounds(v: Point, w: Point)
    by (nonlinear_arith)
    requires
        v.within(0x100_0000_0000),
        w.within(0x100_0000_0000),
    ensures
        -0x2_0000_0000_0000_0000_0000 <= v.dot(w) <= 0x2_0000_0000_0000_0000_0000,
{
    assert(-0x1_0000_0000_0000_0000_0000 <= v.x * w.x <= 0x1_0000_0000_0000_0000_0000);
    assert(-0x1_0000_0000_0000_0000_0000 <= v.y * w.y <= 0x1_0000_0000_0000_0000_0000);
}

/// One round of the evolution of a simplex of two or three points.
pub fn evolve_simplex<A: GJKShape, B: GJKShape>(simplex: &mut Vec<Vec2>, a: &A, b: &B) -> (r:
    EvolveResult)
    requires
        a.valid(),
        b.valid(),
        2 <= old(simplex).len() <= 3,
        simplex_in_range(old(simplex)@),
    ensures
        (final(simplex)@, r) == evolve_spec(old(simplex)@, a, b),
        final(simplex)@.len() == 3,
        simplex_in_range(final(simplex)@),
{
    let direction: Vec2;
    if simplex.len() == 2 {
        let cb = simplex[1].minus(simplex[0]);
        let c0 = simplex[0].negated();
        proof {
            lemma_triple_product_cases(cb@, c0@, cb@);
            assert(cb@.within(4 * COORD_MAX));
        }
        direction = triple_product(cb, c0, cb);
    } else {
        let a0 = simplex[2].negated();
        let ab = simplex[1].minus(simplex[2]);
        let ac = simplex[0].minus(simplex[2]);
        proof {
            lemma_triple_product_cases(ac@, ab@, ab@);
            lemma_triple_product_cases(ab@, ac@, ac@);
            assert(ab@.within(4 * COORD_MAX));
            assert(ac@.within(4 * COORD_MAX));
        }
        let ab_perp = triple_product(ac, ab, ab);
        let ac_perp = triple_product(ab, ac, ac);
        proof {
            lemma_dot_bounds(ab_perp@, a0@);
            lemma_dot_bounds(ac_perp@, a0@);
        }
        if ab_perp.dot(a0) > 0 {
            simplex.swap_remove(0);
            direction = ab_perp;
            assert(simplex@ =~= seq![old(simplex)@[2], old(simplex)@[1]]);
        } else if ac_perp.dot(a0) > 0 {
            simplex.swap_remove(1);
            direction = ac_perp;
            assert(simplex@ =~= seq![old(simplex)@[0], old(simplex)@[2]]);
        } else {
            return EvolveResult::Intersects;
        }
    }
    assert(direction@.within(4 * COORD_MAX));
    if !add_vertex(simplex, a, b, direction.negated()) {
        EvolveResult::NoIntersection
    } else {
        EvolveResult::Continue
    }
}

/// The simplex starts with the two seed points, and the origin lies strictly
/// between them as seen along `d`.
spec fn seeded<A: GJKShape, B: GJKShape>(a: &A, b: &B, d: Point, s: Seq<Vec2>) -> bool {
    &&& s.len() >= 2
    &&& s[0]@ == minkowski_support(a, b, d)
    &&& s[1]@ == minkowski_support(a, b, d.negated())
    &&& d.dot(s[0]@) > 0
    &&& d.negated().dot(s[1]@) > 0
}

/// The third point was found from the two seed points, and the origin lies
/// off the line through those.
spec fn grown<A: GJKShape, B: GJKShape>(a: &A, b: &B, s: Seq<Vec2>) -> bool {
    let cb = s[1]@.minus(s[0]@);
    let c0 = s[0]@.negated();
    &&& s.len() == 3
    &&& cb.cross(c0) != 0
    &&& s[2]@ == minkowski_support(a, b, triple_product_spec(cb, c0, cb).negated())
}

/// The round on the two seed points goes on exactly where the origin lies
/// off the line through them.
proof fn lemma_segment_round<A: GJKShape, B: GJKShape>(a: &A, b: &B, d: Point, s: Seq<Vec2>)
    requires
        a.valid(),
        b.valid(),
        seeded(a, b, d, s),
        s.len() == 2,
    ensures
        evolve_spec(s, a, b).1 != EvolveResult::Intersects,
        evolve_spec(s, a, b).1 == EvolveResult::Continue <==> s[1]@.minus(s[0]@).cross(
            s[0]@.negated(),
        ) != 0,
        evolve_spec(s, a, b).1 == EvolveResult::Continue ==> evolve_spec(s, a, b).0.len() == 3 && (
        evolve_spec(s, a, b).0[2])@ == minkowski_support(
            a,
            b,
            triple_product_spec(s[1]@.minus(s[0]@), s[0]@.negated(), s[1]@.minus(s[0]@)).negated(),
        ) && evolve_spec(s, a, b).0[0] == s[0] && evolve_spec(s, a, b).0[1] == s[1],
{
    let c = s[0]@;
    let cb = s[1]@.minus(c);
    let c0 = c.negated();
    let k = cb.cross(c0);
    let direction = triple_product_spec(cb, c0, cb);
    let v = minkowski_support(a, b, direction.negated());
    a.lemma_support_in_shape(direction.negated());
    b.lemma_support_in_shape(direction.negated().negated());
    lemma_triple_product_cases(cb, c0, cb);
    lemma_dot_linear(direction, direction, v);
    lemma_dot_linear(direction, direction, c);
    if k != 0 {
        lemma_minkowski_furthest(a, b, direction.negated(), d);
        let w = cb.perp().scaled(k);
        lemma_primitive_dot(w, c);
        lemma_perp_dot(cb, k, c);
        lemma_cross_linear(cb, c, c);
        assert(k * cb.cross(c) < 0) by (nonlinear_arith)
            requires
                k != 0,
                cb.cross(c) == -k,
        ;
    }
}

/// The round on the three points that `seeded` and `grown` describe ends
/// the search: the shapes are taken to intersect.
proof fn lemma_triangle_round<A: GJKShape, B: GJKShape>(a: &A, b: &B, d: Point, s: Seq<Vec2>)
    requires
        a.valid(),
        b.valid(),
        seeded(a, b, d, s),
        grown(a, b, s),
    ensures
        evolve_spec(s, a, b) == (s, EvolveResult::Intersects),
{
    let c = s[0]@;
    let e = s[1]@;
    let t = s[2]@;
    let cb = e.minus(c);
    let c0 = c.negated();
    let k = cb.cross(c0);
    let direction = triple_product_spec(cb, c0, cb);
    // Seen along `d`, the third point lies between the two seed points.
    lemma_minkowski_furthest(a, b, d, direction.negated());
    lemma_minkowski_furthest(a, b, d.negated(), direction.negated());
    lemma_dot_linear(t, e, d);
    lemma_dot_linear(e, t, d);
    lemma_dot_linear(d, d, t);
    lemma_dot_linear(d, d, e);
    assert(d.dot(e) < 0 < d.dot(c));
    assert(d.dot(e) <= d.dot(t) <= d.dot(c));
    // The third point does not lie on the origin's side of the seed line.
    lemma_minkowski_furthest(a, b, direction.negated(), d);
    lemma_dot_linear(direction, direction, t);
    lemma_dot_linear(direction, direction, c);
    assert(direction.dot(t) <= direction.dot(c));
    let w = cb.perp().scaled(k);
    lemma_primitive_dot(w, t);
    lemma_primitive_dot(w, c);
    lemma_perp_dot(cb, k, t);
    lemma_perp_dot(cb, k, c);
    lemma_cross_linear(cb, t, c);
    let g = w.content() as int;
    assert(k * cb.cross(t.minus(c)) <= 0) by (nonlinear_arith)
        requires
            g >= 0,
            direction.dot(t) <= direction.dot(c),
            k * cb.cross(t) == g * direction.dot(t),
            k * cb.cross(c) == g * direction.dot(c),
            cb.cross(t.minus(c)) == cb.cross(t) - cb.cross(c),
    {
        assert(g * direction.dot(t) <= g * direction.dot(c));
        assert(k * (cb.cross(t) - cb.cross(c)) == k * cb.cross(t) - k * cb.cross(c));
    }
    lemma_origin_beyond_neither_edge(c, e, t, d);
    let a0 = t.negated();
    let ab = e.minus(t);
    let ac = c.minus(t);
    lemma_triple_product_faces(ac, ab, ab, a0);
    lemma_triple_product_faces(ab, ac, ac, a0);
}

/// The seeds and the rounds on them answer what `axis_test` says.
pub proof fn lemma_search_comes_to_axis_test<A: GJKShape, B: GJKShape>(a: &A, b: &B)
    requires
        a.valid(),
        b.valid(),
    ensures
        finds_intersection(a, b) == axis_test(a, b),
{
    let d = seed_direction(a, b);
    let c = minkowski_support(a, b, d);
    let e = minkowski_support(a, b, d.negated());
    a.lemma_support_in_shape(d);
    b.lemma_support_in_shape(d.negated());
    a.lemma_support_in_shape(d.negated());
    b.lemma_support_in_shape(d.negated().negated());
    let s = seq![stored(c), stored(e)];
    assert(s[0]@ == c && s[1]@ == e);
    if d.dot(c) > 0 && d.negated().dot(e) > 0 {
        lemma_segment_round(a, b, d, s);
        let t = evolve_spec(s, a, b).0;
        assert(search(a, b, s, 2) == (evolve_spec(s, a, b).1 == EvolveResult::Continue && search(
            a,
            b,
            t,
            1,
        )));
        if evolve_spec(s, a, b).1 == EvolveResult::Continue {
            assert(t[0]@ == c && t[1]@ == e);
            lemma_triangle_round(a, b, d, t);
            assert(search(a, b, t, 1));
        }
    }
}

/// Whether the search finds the two shapes to intersect.
///
/// The search starts along the line through the two centers and lets
/// `evolve_simplex` move a simplex of points of the Minkowski difference
/// until a round ends it. No round is counted: the round on the first
/// triangle always ends the search, so there are two rounds at most.
///
/// The answer is that of `axis_test`, which says what it means.
pub fn gjk_2d<A: GJKShape, B: GJKShape>(a: &A, b: &B) -> (r: bool)
    requires
        a.valid(),
        a.has_center(),
        b.valid(),
        b.has_center(),
    ensures
        r == finds_intersection(a, b),
        r == axis_test(a, b),
{
    let mut simplex: Vec<Vec2> = Vec::new();
    proof {
        a.lemma_center_in_range();
        b.lemma_center_in_range();
        lemma_search_comes_to_axis_test(a, b);
    }
    let direction = a.center().minus(b.center());
    let ghost d = direction@;
    if !add_vertex(&mut simplex, a, b, direction) {
        return false;
    }
    if !add_vertex(&mut simplex, a, b, direction.negated()) {
        return false;
    }
    loop
        invariant
            a.valid(),
            b.valid(),
            d == seed_direction(a, b),
            finds_intersection(a, b) == axis_test(a, b),
            2 <= simplex.len() <= 3,
            simplex_in_range(simplex@),
            seeded(a, b, d, simplex@),
            simplex.len() == 3 ==> grown(a, b, simplex@),
        decreases 3 - simplex.len(),
    {
        let ghost before = simplex@;
        proof {
            if before.len() == 2 {
                lemma_segment_round(a, b, d, before);
            } else {
                lemma_triangle_round(a, b, d, before);
            }
        }
        match evolve_simplex(&mut simplex, a, b) {
            EvolveResult::Intersects => {
                return true;
            },
            EvolveResult::Continue => {
                continue;
            },
            EvolveResult::NoIntersection => {
                return false;
            },
        }
    }
}

} // verus!
