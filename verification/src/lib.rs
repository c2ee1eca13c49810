//! The rules of a game of minesweeper on a field without end, and the
//! geometry beside it: an intersection test for convex shapes, and boxes.
//!
//! All of it is exact arithmetic on integers. A shape is given on a lattice:
//! the caller chooses the step, and every coordinate is a whole number of
//! steps. Directions are lattice vectors too, and where only the direction
//! of a vector matters it is reduced to its primitive, the shortest lattice
//! vector that points the same way.

pub mod aabb;
pub mod camera;
pub mod chunk;
pub mod field;
pub mod game;
pub mod gcd;
pub mod gjk;
pub mod grid;
pub mod laws;
pub mod polygon;
pub mod renderer;
pub mod shape;
pub mod simplex;
pub mod vector;
