//! Axis-aligned boxes of the space lattice.

use vstd::prelude::*;

verus! {

/// A point (or vector) of space with integer coordinates.
#[derive(Clone, Copy, Debug, PartialEq, Eq, Structural)]
pub struct Vec3 {
    pub x: i64,
    pub y: i64,
    pub z: i64,
}

impl Vec3 {
    pub fn new(x: i64, y: i64, z: i64) -> (r: Vec3)
        ensures
            r.x == x,
            r.y == y,
            r.z == z,
    {
        Vec3 { x, y, z }
    }
}

/// Half of `size`, rounded towards zero.
pub open spec fn half(size: int) -> int {
    if size >= 0 {
        size / 2
    } else {
        -((-size) / 2)
    }
}

/// Whether the two coordinates `h` away from `c` can be stored.
pub open spec fn reaches(c: int, h: int) -> bool {
    &&& i64::MIN <= c - h <= i64::MAX
    &&& i64::MIN <= c + h <= i64::MAX
}

/// A box given by its least and its greatest corner.
#[derive(Debug)]
pub struct AABB {
    min: Vec3,
    max: Vec3,
}

impl AABB {
    /// The least corner.
    pub closed spec fn min_corner(&self) -> Vec3 {
        self.min
    }

    /// The greatest corner.
    pub closed spec fn max_corner(&self) -> Vec3 {
        self.max
    }

    /// Whether `p` lies strictly between the two corners on every axis.
    pub open spec fn holds(&self, p: Vec3) -> bool {
        &&& self.min_corner().x < p.x < self.max_corner().x
        &&& self.min_corner().y < p.y < self.max_corner().y
        &&& self.min_corner().z < p.z < self.max_corner().z
    }

    pub fn new(min: Vec3, max: Vec3) -> (r: AABB)
        ensures
            r.min_corner() == min,
            r.max_corner() == max,
    {
        AABB { min, max }
    }

    /// The cube about `center` whose corners lie `half(size)` away on every axis.
    pub fn from_size(center: Vec3, size: i64) -> (r: AABB)
        requires
            reaches(center.x as int, half(size as int)),
            reaches(center.y as int, half(size as int)),
            reaches(center.z as int, half(size as int)),
        ensures
            r.min_corner().x == center.x - half(size as int),
            r.min_corner().y == center.y - half(size as int),
            r.min_corner().z == center.z - half(size as int),
            r.max_corner().x == center.x + half(size as int),
            r.max_corner().y == center.y + half(size as int),
            r.max_corner().z == center.z + half(size as int),
    {
        let h: i64 = size / 2;
        Self::new(
            Vec3 { x: center.x - h, y: center.y - h, z: center.z - h },
            Vec3 { x: center.x + h, y: center.y + h, z: center.z + h },
        )
    }

    /// Whether `p` lies strictly inside the box.
    pub fn is_in(&self, p: Vec3) -> (r: bool)
        ensures
            r == self.holds(p),
    {
        if p.x > self.min.x && p.x < self.max.x && p.y > self.min.y && p.y < self.max.y && p.z
            > self.min.z && p.z < self.max.z {
            true
        } else {
            false
        }
    }
}

} // verus!
