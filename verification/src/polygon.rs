//! The polygon: a list of vertices, taken as the closed loop through them.

use vstd::prelude::*;
use vstd::arithmetic::div_mod::{lemma_fundamental_div_mod, lemma_fundamental_div_mod_converse};
use crate::shape::{GJKShape, COORD_MAX};
use crate::vector::{lemma_primitive_factor, Point, Vec2};

verus! {

/// The most vertices that a polygon may have.
pub const MAX_VERTICES: usize = 0x8000_0000;

/// A polygon has between 1 and `MAX_VERTICES` vertices, each with
/// coordinates of magnitude `COORD_MAX` at most.
pub open spec fn polygon_valid(s: Seq<Vec2>) -> bool {
    &&& 1 <= s.len() <= MAX_VERTICES
    &&& forall|i: int| 0 <= i < s.len() ==> (#[trigger] s[i])@.within(COORD_MAX as int)
}

/// Among the first `n` vertices, vertex `i` lies furthest along `d`, and
/// is the first to do so.
pub open spec fn is_first_furthest(s: Seq<Vec2>, d: Point, n: int, i: int) -> bool {
    &&& 0 <= i < n
    &&& forall|j: int| 0 <= j < n ==> (#[trigger] s[j])@.dot(d) <= s[i]@.dot(d)
    &&& forall|j: int| 0 <= j < i ==> (#[trigger] s[j])@.dot(d) < s[i]@.dot(d)
}

/// The index of the first vertex that lies furthest along `d`.
pub open spec fn support_index(s: Seq<Vec2>, d: Point) -> int {
    choose|i: int| is_first_furthest(s, d, s.len() as int, i)
}

/// Among any first `n >= 1` vertices there is a first furthest one.
pub proof fn lemma_first_furthest_exists(s: Seq<Vec2>, d: Point, n: int) -> (i: int)
    requires
        1 <= n <= s.len(),
    ensures
        is_first_furthest(s, d, n, i),
    decreases n,
{
    if n == 1 {
        0
    } else {
        let i = lemma_first_furthest_exists(s, d, n - 1);
        if s[n - 1]@.dot(d) > s[i]@.dot(d) {
            n - 1
        } else {
            i
        }
    }
}

/// There is only one first furthest vertex.
pub proof fn lemma_first_furthest_unique(s: Seq<Vec2>, d: Point, n: int, i: int, j: int)
    requires
        is_first_furthest(s, d, n, i),
        is_first_furthest(s, d, n, j),
    ensures
        i == j,
{
    let pi = s[i]@.dot(d);
    let pj = s[j]@.dot(d);
    assert(pi <= pj && pj <= pi);
}

/// `support_index` names the first furthest vertex of a polygon with a vertex.
pub proof fn lemma_support_index(s: Seq<Vec2>, d: Point)
    requires
        s.len() >= 1,
    ensures
        is_first_furthest(s, d, s.len() as int, support_index(s, d)),
{
    let i = lemma_first_furthest_exists(s, d, s.len() as int);
}

/// Stretching the direction by a positive factor does not change the
/// support point of a polygon.
pub proof fn lemma_support_of_scaled(s: Seq<Vec2>, d: Point, k: int)
    requires
        s.len() >= 1,
        k >= 1,
    ensures
        support_index(s, d.scaled(k)) == support_index(s, d),
{
    let n = s.len() as int;
    let i = support_index(s, d);
    let e = d.scaled(k);
    lemma_support_index(s, d);
    lemma_support_index(s, e);
    assert forall|j: int| 0 <= j < n implies (#[trigger] s[j])@.dot(e) == k * s[j]@.dot(d) by {
        let v = s[j]@;
        assert(v.dot(e) == k * v.dot(d)) by (nonlinear_arith)
            requires
                e == d.scaled(k),
        {
            assert(v.x * (k * d.x) == k * (v.x * d.x));
            assert(v.y * (k * d.y) == k * (v.y * d.y));
        }
    }
    assert forall|j: int| 0 <= j < n implies (#[trigger] s[j])@.dot(e) <= s[i]@.dot(e) by {
        let x = s[j]@.dot(d);
        let y = s[i]@.dot(d);
        assert(k * x <= k * y) by (nonlinear_arith)
            requires
                x <= y,
                k >= 1,
        ;
    }
    assert forall|j: int| 0 <= j < i implies (#[trigger] s[j])@.dot(e) < s[i]@.dot(e) by {
        let x = s[j]@.dot(d);
        let y = s[i]@.dot(d);
        assert(k * x < k * y) by (nonlinear_arith)
            requires
                x < y,
                k >= 1,
        ;
    }
    assert(is_first_furthest(s, e, n, i));
    lemma_first_furthest_unique(s, e, n, i, support_index(s, e));
}

/// Reducing the direction to its primitive does not change the support
/// point of a polygon.
pub proof fn lemma_support_of_primitive(s: Seq<Vec2>, d: Point)
    requires
        s.len() >= 1,
    ensures
        support_index(s, d.primitive()) == support_index(s, d),
{
    lemma_primitive_factor(d);
    if d.content() != 0 {
        lemma_support_of_scaled(s, d.primitive(), d.content() as int);
    }
}

/// The vertex before vertex `i` on the closed loop: the last one before the first.
pub open spec fn prev_vertex(s: Seq<Vec2>, i: int) -> Point {
    if i == 0 {
        s.last()@
    } else {
        s[i - 1]@
    }
}

/// The cross product of the two ends of the edge that arrives at vertex `i`.
pub open spec fn edge_cross(s: Seq<Vec2>, i: int) -> int {
    prev_vertex(s, i).cross(s[i]@)
}

/// The sum of `edge_cross` over the first `n` edges.
pub open spec fn area_sum(s: Seq<Vec2>, n: nat) -> int
    decreases n,
{
    if n == 0 {
        0
    } else {
        area_sum(s, (n - 1) as nat) + edge_cross(s, n - 1)
    }
}

/// The sum over the first `n` edges of the sum of the edge's two ends,
/// weighted by its `edge_cross`.
pub open spec fn moment_sum(s: Seq<Vec2>, n: nat) -> Point
    decreases n,
{
    if n == 0 {
        Point { x: 0, y: 0 }
    } else {
        let m = moment_sum(s, (n - 1) as nat);
        let a = edge_cross(s, n - 1);
        let u = prev_vertex(s, n - 1);
        let v = s[n - 1]@;
        Point { x: m.x + (u.x + v.x) * a, y: m.y + (u.y + v.y) * a }
    }
}

/// Twice the signed area that the closed loop encloses.
pub open spec fn twice_area(s: Seq<Vec2>) -> int {
    area_sum(s, s.len())
}

/// Six times the signed area times the centroid.
pub open spec fn moment(s: Seq<Vec2>) -> Point {
    moment_sum(s, s.len())
}

/// The quotient `n / d` rounded towards minus infinity, for `d` other than 0.
pub open spec fn floor_div(n: int, d: int) -> int {
    if d > 0 {
        n / d
    } else {
        (-n) / (-d)
    }
}

/// The centroid of the enclosed area, each coordinate rounded down to the lattice.
pub open spec fn centroid(s: Seq<Vec2>) -> Point {
    let d = 3 * twice_area(s);
    Point { x: floor_div(moment(s).x, d), y: floor_div(moment(s).y, d) }
}

/// The polygon encloses an area, and its centroid has coordinates of
/// magnitude `COORD_MAX` at most.
pub open spec fn polygon_has_center(s: Seq<Vec2>) -> bool {
    &&& twice_area(s) != 0
    &&& centroid(s).within(COORD_MAX as int)
}

/// Bounds on one edge's share of the sums, for coordinates of magnitude 2^31 at most.
proof fn lemma_edge_bounds(u: Point, v: Point)
    by (nonlinear_arith)
    requires
        u.within(0x8000_0000),
        v.within(0x8000_0000),
    ensures
        -0x8000_0000_0000_0000 <= u.cross(v) <= 0x8000_0000_0000_0000,
        -0x8000_0000_0000_0000_0000_0000 <= (u.x + v.x) * u.cross(v)
            <= 0x8000_0000_0000_0000_0000_0000,
        -0x8000_0000_0000_0000_0000_0000 <= (u.y + v.y) * u.cross(v)
            <= 0x8000_0000_0000_0000_0000_0000,
{
    let c = u.cross(v);
    assert(-0x4000_0000_0000_0000 <= u.x * v.y <= 0x4000_0000_0000_0000);
    assert(-0x4000_0000_0000_0000 <= u.y * v.x <= 0x4000_0000_0000_0000);
    assert(-0x8000_0000_0000_0000 <= c <= 0x8000_0000_0000_0000);
    let ex = u.x + v.x;
    let ey = u.y + v.y;
    assert(-0x1_0000_0000 <= ex <= 0x1_0000_0000);
    assert(-0x1_0000_0000 <= ey <= 0x1_0000_0000);
    assert(-0x8000_0000_0000_0000_0000_0000 <= ex * c <= 0x8000_0000_0000_0000_0000_0000);
    assert(-0x8000_0000_0000_0000_0000_0000 <= ey * c <= 0x8000_0000_0000_0000_0000_0000);
}

/// The inner product of a vertex and any stored direction has magnitude 2^95 at most.
proof fn lemma_projection_bounds(v: Point, d: Point)
    by (nonlinear_arith)
    requires
        v.within(0x8000_0000),
        d.within(0x8000_0000_0000_0000),
    ensures
        -0x8000_0000_0000_0000_0000_0000 <= v.dot(d) <= 0x8000_0000_0000_0000_0000_0000,
{
    assert(-0x4000_0000_0000_0000_0000_0000 <= v.x * d.x <= 0x4000_0000_0000_0000_0000_0000);
    assert(-0x4000_0000_0000_0000_0000_0000 <= v.y * d.y <= 0x4000_0000_0000_0000_0000_0000);
}

/// The three sums that the centroid is made of: twice the area, and the two
/// coordinates of the moment.
fn polygon_sums(p: &Vec<Vec2>) -> (r: (i128, i128, i128))
    requires
        polygon_valid(p@),
    ensures
        r.0 == twice_area(p@),
        r.1 == moment(p@).x,
        r.2 == moment(p@).y,
        -0x4000_0000_0000_0000_0000_0000 <= r.0 <= 0x4000_0000_0000_0000_0000_0000,
        i128::MIN < r.1,
        i128::MIN < r.2,
{
    let n = p.len();
    let mut area: i128 = 0;
    let mut mx: i128 = 0;
    let mut my: i128 = 0;
    let mut last: Vec2 = p[n - 1];
    let mut i: usize = 0;
    while i < n
        invariant
            polygon_valid(p@),
            n == p.len(),
            i <= n,
            last@ == prev_vertex(p@, i as int),
            last@.within(COORD_MAX as int),
            area == area_sum(p@, i as nat),
            mx == moment_sum(p@, i as nat).x,
            my == moment_sum(p@, i as nat).y,
            -0x8000_0000_0000_0000 * i <= area <= 0x8000_0000_0000_0000 * i,
            -0x8000_0000_0000_0000_0000_0000 * i <= mx <= 0x8000_0000_0000_0000_0000_0000 * i,
            -0x8000_0000_0000_0000_0000_0000 * i <= my <= 0x8000_0000_0000_0000_0000_0000 * i,
        decreases n - i,
    {
        let v = p[i];
        let u = last;
        proof {
            lemma_edge_bounds(u@, v@);
        }
        let a: i128 = u.cross(v);
        let ex: i128 = (u.x + v.x) as i128;
        let ey: i128 = (u.y + v.y) as i128;
        area = area + a;
        mx = mx + ex * a;
        my = my + ey * a;
        last = v;
        i = i + 1;
    }
    (area, mx, my)
}

/// `n / d` rounded towards minus infinity.
fn floor_div_i128(n: i128, d: i128) -> (q: i128)
    requires
        d != 0,
        n > i128::MIN,
        d > i128::MIN,
    ensures
        q == floor_div(n as int, d as int),
{
    // Bring the divisor to the positive side, as `floor_div` does.
    let num: i128 = if d > 0 { n } else { -n };
    let den: i128 = if d > 0 { d } else { -d };
    if num >= 0 {
        let un: u128 = num as u128;
        let ud: u128 = den as u128;
        (un / ud) as i128
    } else {
        let un: u128 = (-num) as u128;
        let ud: u128 = den as u128;
        let q: u128 = un / ud;
        let r: u128 = un % ud;
        proof {
            lemma_fundamental_div_mod(un as int, ud as int);
            if r == 0 {
                assert(num == (-(q as int)) * den + 0) by (nonlinear_arith)
                    requires
                        un == ud * q + r,
                        r == 0,
                        num == -(un as int),
                        den == ud,
                ;
                lemma_fundamental_div_mod_converse(num as int, den as int, -(q as int), 0);
            } else {
                assert(num == (-(q as int) - 1) * den + (den - r)) by (nonlinear_arith)
                    requires
                        un == ud * q + r,
                        num == -(un as int),
                        den == ud,
                ;
                lemma_fundamental_div_mod_converse(
                    num as int,
                    den as int,
                    -(q as int) - 1,
                    den - r,
                );
            }
            assert(q <= un) by (nonlinear_arith)
                requires
                    un == ud * q + r,
                    ud >= 1,
                    r >= 0,
                    q >= 0,
            ;
        }
        if r == 0 {
            -(q as i128)
        } else {
            -(q as i128) - 1
        }
    }
}

impl GJKShape for Vec<Vec2> {
    open spec fn valid(&self) -> bool {
        polygon_valid(self@)
    }

    open spec fn has_center(&self) -> bool {
        polygon_has_center(self@)
    }

    /// The points of a polygon, for this purpose, are its vertices.
    open spec fn has_point(&self, p: Point) -> bool {
        exists|i: int| 0 <= i < self@.len() && (#[trigger] self@[i])@ == p
    }

    /// The first vertex among those that lie furthest along `direction`.
    open spec fn support_spec(&self, direction: Point) -> Point {
        self@[support_index(self@, direction)]@
    }

    open spec fn center_spec(&self) -> Point {
        centroid(self@)
    }

    proof fn lemma_support_in_shape(&self, direction: Point) {
        lemma_support_index(self@, direction);
    }

    proof fn lemma_support_furthest(&self, direction: Point, p: Point) {
        lemma_support_index(self@, direction);
    }

    proof fn lemma_center_in_range(&self) {
    }

    /// Scans the vertices for the largest projection on the primitive of
    /// `direction`; on a tie the earlier vertex stays.
    fn support(&self, direction: Vec2) -> (r: Vec2)
        ensures
            is_first_furthest(
                self@,
                direction@,
                self@.len() as int,
                support_index(self@, direction@),
            ),
            r == self@[support_index(self@, direction@)],
    {
        let n = self.len();
        let unit = direction.normalize();
        let mut best: usize = 0;
        proof {
            lemma_projection_bounds(self@[0]@, unit@);
        }
        let mut furthest: i128 = self[0].dot(unit);
        let mut i: usize = 1;
        while i < n
            invariant
                polygon_valid(self@),
                n == self.len(),
                1 <= i <= n,
                is_first_furthest(self@, unit@, i as int, best as int),
                furthest == self@[best as int]@.dot(unit@),
            decreases n - i,
        {
            proof {
                lemma_projection_bounds(self@[i as int]@, unit@);
            }
            let distance: i128 = self[i].dot(unit);
            if distance > furthest {
                furthest = distance;
                best = i;
            }
            i = i + 1;
        }
        proof {
            lemma_support_index(self@, unit@);
            lemma_first_furthest_unique(
                self@,
                unit@,
                n as int,
                best as int,
                support_index(self@, unit@),
            );
            lemma_support_of_primitive(self@, direction@);
            lemma_support_index(self@, direction@);
        }
        self[best]
    }

    /// The area-weighted centroid of the closed vertex loop, by the shoelace sums.
    fn center(&self) -> (r: Vec2) {
        let (area, mx, my) = polygon_sums(self);
        let d: i128 = 3 * area;
        let cx: i128 = floor_div_i128(mx, d);
        let cy: i128 = floor_div_i128(my, d);
        Vec2 { x: cx as i64, y: cy as i64 }
    }
}

/// Whether `p` is a polygon that has a center: what `gjk_2d` asks of its arguments.
pub fn check_polygon(p: &Vec<Vec2>) -> (ok: bool)
    ensures
        ok == (p.valid() && p.has_center()),
{
    let n = p.len();
    if n == 0 || n > MAX_VERTICES {
        return false;
    }
    let mut i: usize = 0;
    while i < n
        invariant
            n == p.len(),
            i <= n,
            forall|j: int| 0 <= j < i ==> (#[trigger] p@[j])@.within(COORD_MAX as int),
        decreases n - i,
    {
        let v = p[i];
        if v.x < -COORD_MAX || v.x > COORD_MAX || v.y < -COORD_MAX || v.y > COORD_MAX {
            return false;
        }
        i = i + 1;
    }
    let (area, mx, my) = polygon_sums(p);
    if area == 0 {
        return false;
    }
    let d: i128 = 3 * area;
    let cx: i128 = floor_div_i128(mx, d);
    let cy: i128 = floor_div_i128(my, d);
    let lim: i128 = COORD_MAX as i128;
    -lim <= cx && cx <= lim && -lim <= cy && cy <= lim
}

} // verus!
