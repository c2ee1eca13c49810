//! The camera over the mine field: where it looks, and how large a cell is drawn.

use vstd::prelude::*;
use vstd::arithmetic::div_mod::{
    lemma_div_is_ordered_by_denominator, lemma_div_pos_is_pos, lemma_fundamental_div_mod,
};
use crate::chunk::CHUNK_SIZE;
use crate::vector::Vec2i;

verus! {

/// The side of a cell on the screen, in pixels, before any zoom.
pub const CELL_SIZE: i32 = 16;

/// The least side of a cell on the screen.
pub const MIN_ZOOM: i32 = 4;

/// The greatest side of a cell on the screen.
pub const MAX_ZOOM: i32 = 32;

/// The quotient `a / d` rounded towards zero, for a positive `d`.
pub open spec fn trunc_div(a: int, d: int) -> int {
    if a >= 0 {
        a / d
    } else {
        -((-a) / d)
    }
}

/// The quotient rounded towards zero lies between zero and the dividend,
/// and for a divisor of 2 or more it is at most half the dividend in magnitude.
pub proof fn lemma_trunc_div_range(a: int, d: int)
    requires
        d >= 1,
    ensures
        a >= 0 ==> 0 <= trunc_div(a, d) <= a,
        a < 0 ==> a <= trunc_div(a, d) <= 0,
        d >= 2 ==> -((if a >= 0 { a } else { -a }) / 2) <= trunc_div(a, d) <= (if a >= 0 { a } else {
            -a
        }) / 2,
{
    let m = if a >= 0 { a } else { -a };
    lemma_div_pos_is_pos(m, d);
    lemma_fundamental_div_mod(m, d);
    assert(m / d <= m) by (nonlinear_arith)
        requires
            m == d * (m / d) + m % d,
            0 <= m % d,
            d >= 1,
            m / d >= 0,
    ;
    if d >= 2 {
        lemma_div_is_ordered_by_denominator(m, 2, d);
    }
}

/// `a / d` rounded towards zero, by way of 64-bit numbers.
pub fn div_trunc(a: i64, d: i64) -> (q: i64)
    requires
        d >= 1,
        a > i64::MIN,
    ensures
        q == trunc_div(a as int, d as int),
{
    proof {
        lemma_trunc_div_range(a as int, d as int);
    }
    if a >= 0 {
        ((a as u64) / (d as u64)) as i64
    } else {
        -((((-a) as u64) / (d as u64)) as i64)
    }
}

/// The view of the player on the field.
#[derive(Clone, Copy, Debug, PartialEq, Eq, Structural)]
pub struct Camera {
    /// The pixel of the field at the screen's corner.
    pub position: Vec2i,
    /// The side of a cell on the screen, in pixels.
    pub zoom: i32,
}

impl Camera {
    /// The zoom lies between `MIN_ZOOM` and `MAX_ZOOM`.
    pub open spec fn wf(&self) -> bool {
        MIN_ZOOM <= self.zoom <= MAX_ZOOM
    }

    /// The cell of the field under the pixel `pos` of the screen.
    pub open spec fn world_of(&self, pos: Vec2i) -> Vec2i {
        Vec2i {
            x: trunc_div(self.position.x + pos.x, self.zoom as int) as i32,
            y: trunc_div(self.position.y + pos.y, self.zoom as int) as i32,
        }
    }

    /// The least chunk place that the camera keeps: one before the chunk
    /// under the screen's corner, on each axis.
    pub open spec fn min_extent(&self) -> Vec2i {
        Vec2i {
            x: (trunc_div(self.position.x as int, self.zoom * 16) - 1) as i32,
            y: (trunc_div(self.position.y as int, self.zoom * 16) - 1) as i32,
        }
    }

    /// The greatest chunk place that the camera keeps.
    pub open spec fn max_extent(&self) -> Vec2i {
        Vec2i {
            x: (self.min_extent().x + (self.zoom + 3) / 4 + 2) as i32,
            y: (self.min_extent().y + (5 * self.zoom + 15) / 16) as i32,
        }
    }

    /// The camera keeps at least one place, and its places can be stored.
    pub proof fn lemma_extent_in_range(&self)
        requires
            self.wf(),
        ensures
            self.min_extent().x == trunc_div(self.position.x as int, self.zoom * 16) - 1,
            self.min_extent().y == trunc_div(self.position.y as int, self.zoom * 16) - 1,
            self.max_extent().x == self.min_extent().x + (self.zoom + 3) / 4 + 2,
            self.max_extent().y == self.min_extent().y + (5 * self.zoom + 15) / 16,
            self.min_extent().x <= self.max_extent().x < i32::MAX,
            self.min_extent().y <= self.max_extent().y < i32::MAX,
    {
        lemma_trunc_div_range(self.position.x as int, self.zoom * 16);
        lemma_trunc_div_range(self.position.y as int, self.zoom * 16);
    }

    /// The side of a cell on the screen, in pixels.
    pub fn cell_size(&self) -> (r: i32)
        ensures
            r == self.zoom,
    {
        self.zoom
    }

    /// The cell of the field under the pixel `pos` of the screen.
    pub fn screen_to_world(&self, pos: Vec2i) -> (r: Vec2i)
        requires
            self.wf(),
        ensures
            r == self.world_of(pos),
            r.x == trunc_div(self.position.x + pos.x, self.zoom as int),
            r.y == trunc_div(self.position.y + pos.y, self.zoom as int),
    {
        let z: i64 = self.cell_size() as i64;
        let sx: i64 = self.position.x as i64 + pos.x as i64;
        let sy: i64 = self.position.y as i64 + pos.y as i64;
        proof {
            lemma_trunc_div_range(sx as int, z as int);
            lemma_trunc_div_range(sy as int, z as int);
        }
        Vec2i { x: div_trunc(sx, z) as i32, y: div_trunc(sy, z) as i32 }
    }

    /// The least and the greatest chunk place that the camera keeps.
    pub fn extent(&self) -> (r: (Vec2i, Vec2i))
        requires
            self.wf(),
        ensures
            r.0 == self.min_extent(),
            r.1 == self.max_extent(),
            r.0.x == trunc_div(self.position.x as int, self.zoom * 16) - 1,
            r.0.y == trunc_div(self.position.y as int, self.zoom * 16) - 1,
            r.1.x == r.0.x + (self.zoom + 3) / 4 + 2,
            r.1.y == r.0.y + (5 * self.zoom + 15) / 16,
            r.0.x <= r.1.x < i32::MAX,
            r.0.y <= r.1.y < i32::MAX,
    {
        let span: i64 = (self.cell_size() as i64) * (CHUNK_SIZE as i64);
        proof {
            self.lemma_extent_in_range();
        }
        let min_x: i64 = div_trunc(self.position.x as i64, span) - 1;
        let min_y: i64 = div_trunc(self.position.y as i64, span) - 1;
        let nb_h: i64 = ((self.zoom + 3) / 4) as i64;
        let nb_w: i64 = ((5 * self.zoom + 15) / 16) as i64;
        let max_x: i64 = min_x + nb_h + 2;
        let max_y: i64 = min_y + nb_w;
        (Vec2i { x: min_x as i32, y: min_y as i32 }, Vec2i { x: max_x as i32, y: max_y as i32 })
    }
}

} // verus!
