//! Convex shapes as the collision test sees them: anything that has a center
//! and can name its furthest point along a direction.

use vstd::prelude::*;
use crate::vector::{Point, Vec2};

verus! {

/// The largest magnitude that a coordinate of a shape may have.
pub const COORD_MAX: i64 = 0x8000_0000;

/// A convex set of lattice points, known by two queries. `has_point` names
/// the points among which `support` chooses; for a polygon, its vertices.
pub trait GJKShape {
    /// Whether the shape can be asked for support points.
    spec fn valid(&self) -> bool;

    /// Whether the shape can also be asked for its center.
    spec fn has_center(&self) -> bool;

    /// The points that may be returned as support points.
    spec fn has_point(&self, p: Point) -> bool;

    /// The support point along `direction`.
    spec fn support_spec(&self, direction: Point) -> Point;

    /// The center.
    spec fn center_spec(&self) -> Point;

    /// A support point is a point of the shape, with coordinates of
    /// magnitude `COORD_MAX` at most.
    proof fn lemma_support_in_shape(&self, direction: Point)
        requires
            self.valid(),
        ensures
            self.has_point(self.support_spec(direction)),
            self.support_spec(direction).within(COORD_MAX as int),
    ;

    /// No point of the shape lies further along `direction` than the support point.
    proof fn lemma_support_furthest(&self, direction: Point, p: Point)
        requires
            self.valid(),
            self.has_point(p),
        ensures
            p.dot(direction) <= self.support_spec(direction).dot(direction),
    ;

    /// The center has coordinates of magnitude `COORD_MAX` at most.
    proof fn lemma_center_in_range(&self)
        requires
            self.valid(),
            self.has_center(),
        ensures
            self.center_spec().within(COORD_MAX as int),
    ;

    /// The point of the shape furthest along `direction`.
    fn support(&self, direction: Vec2) -> (r: Vec2)
        requires
            self.valid(),
        ensures
            r@ == self.support_spec(direction@),
    ;

    /// A point inside the shape, from which a search can start.
    fn center(&self) -> (r: Vec2)
        requires
            self.valid(),
            self.has_center(),
        ensures
            r@ == self.center_spec(),
    ;
}

} // verus!
