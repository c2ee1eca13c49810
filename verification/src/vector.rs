//! Lattice vectors: the stored form, its mathematical view and the exact
//! arithmetic on it.

use vstd::prelude::*;
use vstd::math::abs;
use vstd::arithmetic::div_mod::lemma_div_multiples_vanish;
use crate::gcd::{gcd, gcd_u64, lemma_gcd_commutes, lemma_gcd_factors, lemma_gcd_scales};

verus! {

/// A point (or vector) of the plane with integer coordinates, as contracts see it.
pub ghost struct Point {
    pub x: int,
    pub y: int,
}

impl Point {
    /// The componentwise sum `self + other`.
    pub open spec fn plus(self, other: Point) -> Point {
        Point { x: self.x + other.x, y: self.y + other.y }
    }

    /// The componentwise difference `self - other`.
    pub open spec fn minus(self, other: Point) -> Point {
        Point { x: self.x - other.x, y: self.y - other.y }
    }

    /// The opposite vector.
    pub open spec fn negated(self) -> Point {
        Point { x: -self.x, y: -self.y }
    }

    /// The inner product.
    pub open spec fn dot(self, other: Point) -> int {
        self.x * other.x + self.y * other.y
    }

    /// The z component of the cross product of the two vectors lifted to space.
    pub open spec fn cross(self, other: Point) -> int {
        self.x * other.y - self.y * other.x
    }

    /// The vector stretched by the factor `k`.
    pub open spec fn scaled(self, k: int) -> Point {
        Point { x: k * self.x, y: k * self.y }
    }

    /// The vector turned by a quarter turn counterclockwise.
    pub open spec fn perp(self) -> Point {
        Point { x: -self.y, y: self.x }
    }

    /// The gcd of the magnitudes of the two coordinates; 0 for the zero vector only.
    pub open spec fn content(self) -> nat {
        gcd(abs(self.x), abs(self.y))
    }

    /// The shortest lattice vector of the same direction: each coordinate
    /// divided by the content. The zero vector is its own primitive.
    pub open spec fn primitive(self) -> Point {
        let g = self.content() as int;
        if g == 0 {
            self
        } else {
            Point { x: self.x / g, y: self.y / g }
        }
    }

    /// Whether both coordinates lie in `-limit ..= limit`.
    pub open spec fn within(self, limit: int) -> bool {
        &&& -limit <= self.x <= limit
        &&& -limit <= self.y <= limit
    }
}

/// A lattice vector as stored: two machine integers.
#[derive(Clone, Copy, Debug, PartialEq, Eq, Structural)]
pub struct Vec2 {
    pub x: i64,
    pub y: i64,
}

impl View for Vec2 {
    type V = Point;

    open spec fn view(&self) -> Point {
        Point { x: self.x as int, y: self.y as int }
    }
}

impl Vec2 {
    pub fn new(x: i64, y: i64) -> (r: Vec2)
        ensures
            r.x == x,
            r.y == y,
    {
        Vec2 { x, y }
    }

    /// `self - other`, where the difference can be stored.
    pub fn minus(self, other: Vec2) -> (r: Vec2)
        requires
            i64::MIN <= self.x - other.x <= i64::MAX,
            i64::MIN <= self.y - other.y <= i64::MAX,
        ensures
            r@ == self@.minus(other@),
    {
        Vec2 { x: self.x - other.x, y: self.y - other.y }
    }

    /// `-self`, where the opposite can be stored.
    pub fn negated(self) -> (r: Vec2)
        requires
            self.x > i64::MIN,
            self.y > i64::MIN,
        ensures
            r@ == self@.negated(),
    {
        Vec2 { x: -self.x, y: -self.y }
    }

    /// The inner product, where it can be stored.
    pub fn dot(self, other: Vec2) -> (r: i128)
        requires
            self@.dot(other@) <= i128::MAX,
        ensures
            r == self@.dot(other@),
    {
        proof {
            lemma_product_range(self.x as int, other.x as int);
            lemma_product_range(self.y as int, other.y as int);
        }
        let xx: i128 = (self.x as i128) * (other.x as i128);
        let yy: i128 = (self.y as i128) * (other.y as i128);
        xx + yy
    }

    /// The planar cross product; it can always be stored.
    pub fn cross(self, other: Vec2) -> (r: i128)
        ensures
            r == self@.cross(other@),
    {
        proof {
            lemma_product_range(self.x as int, other.y as int);
            lemma_product_range(self.y as int, other.x as int);
        }
        let xy: i128 = (self.x as i128) * (other.y as i128);
        let yx: i128 = (self.y as i128) * (other.x as i128);
        xy - yx
    }

    /// The shortest lattice vector of the same direction.
    pub fn normalize(self) -> (r: Vec2)
        ensures
            r@ == self@.primitive(),
    {
        let ax = magnitude(self.x);
        let ay = magnitude(self.y);
        let g = gcd_u64(ax, ay);
        if g == 0 {
            self
        } else {
            let qx: u64 = ax / g;
            let qy: u64 = ay / g;
            proof {
                let v = self@;
                let p = v.primitive();
                lemma_primitive_factor(v);
                let gi = g as int;
                assert(ax == gi * abs(p.x) && ay == gi * abs(p.y)) by (nonlinear_arith)
                    requires
                        v.x == gi * p.x,
                        v.y == gi * p.y,
                        ax == abs(v.x),
                        ay == abs(v.y),
                        gi >= 1,
                ;
                lemma_div_multiples_vanish(abs(p.x) as int, gi);
                lemma_div_multiples_vanish(abs(p.y) as int, gi);
                assert(qx == abs(p.x) && qy == abs(p.y));
                assert((v.x < 0 <==> p.x < 0) && (v.y < 0 <==> p.y < 0) && (v.x == 0 <==> p.x == 0)
                    && (v.y == 0 <==> p.y == 0)) by (nonlinear_arith)
                    requires
                        v.x == gi * p.x,
                        v.y == gi * p.y,
                        gi >= 1,
                ;
            }
            Vec2 { x: with_sign_of(self.x, qx), y: with_sign_of(self.y, qy) }
        }
    }
}

/// The magnitude of a 64-bit integer.
fn magnitude(x: i64) -> (r: u64)
    ensures
        r == abs(x as int),
{
    if x >= 0 {
        x as u64
    } else {
        (-(x as i128)) as u64
    }
}

/// The integer of magnitude `m` with the sign of `like`.
fn with_sign_of(like: i64, m: u64) -> (r: i64)
    requires
        m <= abs(like as int),
    ensures
        r == (if like < 0 { -(m as int) } else { m as int }),
{
    if like < 0 {
        (-(m as i128)) as i64
    } else {
        m as i64
    }
}

/// A lattice vector with 32-bit coordinates, as the tile grid uses them.
#[derive(Clone, Copy, Debug, PartialEq, Eq, Structural)]
pub struct Vec2i {
    pub x: i32,
    pub y: i32,
}

impl Vec2i {
    pub fn new(x: i32, y: i32) -> (r: Vec2i)
        ensures
            r.x == x,
            r.y == y,
    {
        Vec2i { x, y }
    }
}

/// A vector is its primitive stretched by its content, and the primitive is
/// no longer than the vector in either coordinate.
pub proof fn lemma_primitive_factor(v: Point)
    ensures
        v == v.primitive().scaled(v.content() as int),
        v.content() == 0 <==> v == (Point { x: 0, y: 0 }),
        abs(v.primitive().x) <= abs(v.x),
        abs(v.primitive().y) <= abs(v.y),
        v.primitive().content() == (if v.content() == 0 { 0nat } else { 1nat }),
{
    let g = v.content() as int;
    let (qx, qy) = lemma_gcd_factors(abs(v.x), abs(v.y));
    if g != 0 {
        let sx = if v.x < 0 { -(qx as int) } else { qx as int };
        let sy = if v.y < 0 { -(qy as int) } else { qy as int };
        assert(v.x == g * sx && v.y == g * sy) by (nonlinear_arith)
            requires
                abs(v.x) == g * qx,
                abs(v.y) == g * qy,
                sx == (if v.x < 0 { -(qx as int) } else { qx as int }),
                sy == (if v.y < 0 { -(qy as int) } else { qy as int }),
        ;
        lemma_div_multiples_vanish(sx, g);
        lemma_div_multiples_vanish(sy, g);
        assert(v.primitive().x == sx && v.primitive().y == sy);
        assert(abs(sx) <= abs(v.x) && abs(sy) <= abs(v.y)) by (nonlinear_arith)
            requires
                v.x == g * sx,
                v.y == g * sy,
                g >= 1,
        ;
        assert(abs(sx) == qx && abs(sy) == qy);
        lemma_gcd_scales(g as nat, qx, qy);
        assert(gcd(qx, qy) == 1) by (nonlinear_arith)
            requires
                g == g * gcd(qx, qy),
                g >= 1,
        ;
    }
}

/// Stretching a vector by a positive factor does not change its primitive.
pub proof fn lemma_primitive_of_scaled(v: Point, k: int)
    requires
        k >= 1,
    ensures
        v.scaled(k).primitive() == v.primitive(),
{
    let w = v.scaled(k);
    let g = v.content() as int;
    lemma_primitive_factor(v);
    let p = v.primitive();
    assert(abs(w.x) == k * abs(v.x) && abs(w.y) == k * abs(v.y)) by (nonlinear_arith)
        requires
            w.x == k * v.x,
            w.y == k * v.y,
            k >= 1,
    ;
    lemma_gcd_scales(k as nat, abs(v.x), abs(v.y));
    assert(w.content() == k * g);
    if g == 0 {
        assert(w == v) by (nonlinear_arith)
            requires
                w.x == k * v.x,
                w.y == k * v.y,
                v.x == 0,
                v.y == 0,
        ;
    } else {
        let h = k * g;
        assert(h >= 1 && w.x == h * p.x && w.y == h * p.y) by (nonlinear_arith)
            requires
                h == k * g,
                k >= 1,
                g >= 1,
                w.x == k * v.x,
                w.y == k * v.y,
                v.x == g * p.x,
                v.y == g * p.y,
        ;
        lemma_div_multiples_vanish(p.x, h);
        lemma_div_multiples_vanish(p.y, h);
    }
}

/// Taking the opposite and taking the primitive commute.
pub proof fn lemma_primitive_of_negated(v: Point)
    ensures
        v.negated().primitive() == v.primitive().negated(),
{
    let g = v.content() as int;
    lemma_primitive_factor(v);
    let p = v.primitive();
    assert(v.negated().content() == v.content());
    if g != 0 {
        assert(-v.x == g * (-p.x) && -v.y == g * (-p.y)) by (nonlinear_arith)
            requires
                v.x == g * p.x,
                v.y == g * p.y,
        ;
        lemma_div_multiples_vanish(-p.x, g);
        lemma_div_multiples_vanish(-p.y, g);
    }
}

/// Turning by a quarter turn and taking the primitive commute.
pub proof fn lemma_primitive_of_perp(v: Point)
    ensures
        v.perp().primitive() == v.primitive().perp(),
{
    let g = v.content() as int;
    lemma_primitive_factor(v);
    let p = v.primitive();
    lemma_gcd_commutes(abs(v.x), abs(v.y));
    assert(v.perp().content() == v.content());
    if g != 0 {
        assert(-v.y == g * (-p.y)) by (nonlinear_arith)
            requires
                v.y == g * p.y,
        ;
        lemma_div_multiples_vanish(-p.y, g);
        lemma_div_multiples_vanish(p.x, g);
    }
}

/// A vector and its primitive see every other vector on the same side:
/// their inner products with `w` differ by the positive factor `content`.
pub proof fn lemma_primitive_dot(v: Point, w: Point)
    ensures
        v.dot(w) == v.content() * v.primitive().dot(w),
        v.dot(w) > 0 <==> v.primitive().dot(w) > 0,
        v.dot(w) < 0 <==> v.primitive().dot(w) < 0,
{
    let g = v.content() as int;
    lemma_primitive_factor(v);
    let p = v.primitive();
    let d = p.dot(w);
    assert(v.dot(w) == g * d) by (nonlinear_arith)
        requires
            v.x == g * p.x,
            v.y == g * p.y,
            d == p.x * w.x + p.y * w.y,
            v.dot(w) == v.x * w.x + v.y * w.y,
    ;
    if g == 0 {
        assert(p == v);
    } else {
        assert((g * d > 0 <==> d > 0) && (g * d < 0 <==> d < 0)) by (nonlinear_arith)
            requires
                g >= 1,
        ;
    }
}

/// The inner product is symmetric, and linear in each argument.
pub proof fn lemma_dot_linear(a: Point, b: Point, d: Point)
    by (nonlinear_arith)
    ensures
        a.dot(d) == d.dot(a),
        a.minus(b).dot(d) == a.dot(d) - b.dot(d),
        d.dot(a.minus(b)) == d.dot(a) - d.dot(b),
        a.negated().dot(d) == -a.dot(d),
        a.dot(d.negated()) == -a.dot(d),
{
}

/// The cross product is linear in its second argument.
pub proof fn lemma_cross_linear(a: Point, b: Point, c: Point)
    by (nonlinear_arith)
    ensures
        a.cross(b.minus(c)) == a.cross(b) - a.cross(c),
        a.cross(b.negated()) == -a.cross(b),
{
}

/// The inner product with a stretched quarter turn of `v` is a multiple of
/// the cross product with `v`.
pub proof fn lemma_perp_dot(v: Point, k: int, w: Point)
    by (nonlinear_arith)
    ensures
        v.perp().scaled(k).dot(w) == k * v.cross(w),
{
}

/// The product of two 64-bit integers lies between `-(2^63 - 1) * 2^63` and `2^126`.
pub proof fn lemma_product_range(a: int, b: int)
    by (nonlinear_arith)
    requires
        -0x8000_0000_0000_0000 <= a <= 0x7fff_ffff_ffff_ffff,
        -0x8000_0000_0000_0000 <= b <= 0x7fff_ffff_ffff_ffff,
    ensures
        -0x3fff_ffff_ffff_ffff_8000_0000_0000_0000 <= a * b
            <= 0x4000_0000_0000_0000_0000_0000_0000_0000,
{
}

} // verus!
