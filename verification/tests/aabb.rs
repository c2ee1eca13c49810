use minesweeper::aabb::{Vec3, AABB};

/// The lattice point for a point given in units, at a thousand lattice steps per unit.
fn grid(x: f32, y: f32, z: f32) -> Vec3 {
    Vec3::new(
        (x * 1000.0).round() as i64,
        (y * 1000.0).round() as i64,
        (z * 1000.0).round() as i64,
    )
}

#[test]
fn aabb() {
    let aabb = AABB::new(grid(-1.0, -1.0, -1.0), grid(1.0, 1.0, 1.0));
    assert!(aabb.is_in(grid(0.0, 0.0, 0.0)));
    assert!(aabb.is_in(grid(0.349, 0.234, 0.123)));
    assert!(!aabb.is_in(grid(2.0, 0.0, 0.0)));
    assert!(!aabb.is_in(grid(0.0, 2.0, 0.0)));
    assert!(!aabb.is_in(grid(0.0, 0.0, 2.0)));
}

#[test]
fn aabb_faces_are_outside() {
    let aabb = AABB::new(Vec3::new(-1, -1, -1), Vec3::new(1, 1, 1));
    assert!(aabb.is_in(Vec3::new(0, 0, 0)));
    assert!(!aabb.is_in(Vec3::new(1, 0, 0)));
    assert!(!aabb.is_in(Vec3::new(-1, 0, 0)));
    assert!(!aabb.is_in(Vec3::new(0, 1, 0)));
    assert!(!aabb.is_in(Vec3::new(0, -1, 0)));
    assert!(!aabb.is_in(Vec3::new(0, 0, 1)));
    assert!(!aabb.is_in(Vec3::new(0, 0, -1)));
}

#[test]
fn aabb_from_size_is_a_cube_about_the_center() {
    let aabb = AABB::from_size(Vec3::new(10, 20, 30), 8);
    // The corners are (6, 16, 26) and (14, 24, 34).
    assert!(aabb.is_in(Vec3::new(7, 17, 27)));
    assert!(aabb.is_in(Vec3::new(13, 23, 33)));
    assert!(!aabb.is_in(Vec3::new(6, 20, 30)));
    assert!(!aabb.is_in(Vec3::new(14, 20, 30)));
    assert!(!aabb.is_in(Vec3::new(10, 16, 30)));
    assert!(!aabb.is_in(Vec3::new(10, 24, 30)));
    assert!(!aabb.is_in(Vec3::new(10, 20, 26)));
    assert!(!aabb.is_in(Vec3::new(10, 20, 34)));
}

#[test]
fn aabb_from_odd_size_rounds_the_half_towards_zero() {
    // Half of 5 is 2: the corners are (-2, -2, -2) and (2, 2, 2).
    let aabb = AABB::from_size(Vec3::new(0, 0, 0), 5);
    assert!(aabb.is_in(Vec3::new(1, 1, 1)));
    assert!(!aabb.is_in(Vec3::new(2, 0, 0)));
    // Half of -5 is -2: the least corner lies beyond the greatest, and the box is empty.
    let aabb = AABB::from_size(Vec3::new(0, 0, 0), -5);
    assert!(!aabb.is_in(Vec3::new(0, 0, 0)));
    assert!(!aabb.is_in(Vec3::new(1, 1, 1)));
}
