use minesweeper::gjk::{add_vertex, evolve_simplex, gjk_2d, triple_product, EvolveResult};
use minesweeper::polygon::check_polygon;
use minesweeper::shape::GJKShape;
use minesweeper::vector::Vec2;

/// The lattice point for a point given in units, at twenty lattice steps per unit.
fn grid(x: f32, y: f32) -> Vec2 {
    Vec2::new((x * 20.0).round() as i64, (y * 20.0).round() as i64)
}

#[test]
fn center() {
    let a = vec![grid(-1.0, -1.0), grid(1.0, -1.0), grid(1.0, 1.0), grid(-1.0, 1.0)];
    assert!(a.center() == grid(0.0, 0.0));
    let a = vec![grid(0.0, -1.0), grid(2.0, -1.0), grid(2.0, 1.0), grid(0.0, 1.0)];
    assert!(a.center() == grid(1.0, 0.0));
    let a = vec![grid(0.0, -1.0), grid(1.0, 0.0), grid(0.0, 1.0), grid(-1.0, 0.0)];
    assert!(a.center() == grid(0.0, 0.0));
}

#[test]
fn support() {
    let a = vec![grid(-1.0, -1.0), grid(1.0, -1.0), grid(1.0, 1.0), grid(-1.0, 1.0)];
    assert!(a.support(Vec2::new(-1, -1).normalize()) == grid(-1.0, -1.0));
    let a = vec![grid(0.0, -1.0), grid(1.0, 0.0), grid(0.0, 1.0), grid(-1.0, 0.0)];
    assert!(a.support(Vec2::new(-1, 0).normalize()) == grid(-1.0, 0.0));
    assert!(a.support(Vec2::new(1, 0).normalize()) == grid(1.0, 0.0));
    let a = vec![grid(0.0, -1.0), grid(0.0, -1.1), grid(0.0, 1.0), grid(-1.0, 0.0)];
    assert!(a.support(Vec2::new(0, -1).normalize()) == grid(0.0, -1.1));

    let a = vec![grid(0.5, 0.5), grid(1.5, 1.0), grid(0.75, 2.0)];
    assert!(a.support(Vec2::new(1, 0).normalize()) == grid(1.5, 1.0));
}

#[test]
fn ttriple_product() {
    assert!(
        triple_product(Vec2::new(1, 0), Vec2::new(0, 1), Vec2::new(1, 0)) == Vec2::new(0, 1)
    ); // Basic
    assert!(
        triple_product(Vec2::new(2, 0), Vec2::new(0, 1), Vec2::new(2, 0)) == Vec2::new(0, 1)
    ); // Normalize
}

#[test]
fn test_2d_gjk() {
    let a = vec![grid(0.0, 0.0), grid(0.0, 1.0), grid(1.0, 1.0), grid(1.0, 0.0)];
    let b = vec![grid(0.5, 0.5), grid(1.5, 1.0), grid(0.75, 2.0)];
    assert!(check_polygon(&a) && check_polygon(&b));
    assert!(gjk_2d(&a, &b));

    let b = vec![grid(2.0, 1.0), grid(1.5, 1.0), grid(1.75, 2.0)];
    assert!(check_polygon(&b));
    assert!(!gjk_2d(&a, &b));
}

#[test]
fn grid_places_points_on_the_lattice() {
    assert_eq!(grid(0.75, 2.0), Vec2::new(15, 40));
    assert_eq!(grid(0.0, -1.1), Vec2::new(0, -22));
}

#[test]
fn center_of_unit_square_on_the_plain_lattice() {
    let a = vec![Vec2::new(-1, -1), Vec2::new(1, -1), Vec2::new(1, 1), Vec2::new(-1, 1)];
    assert_eq!(a.center(), Vec2::new(0, 0));
}

#[test]
fn center_rounds_down() {
    // The triangle (0,0), (1,0), (0,1) has its centroid at (1/3, 1/3).
    let a = vec![Vec2::new(0, 0), Vec2::new(1, 0), Vec2::new(0, 1)];
    assert_eq!(a.center(), Vec2::new(0, 0));
    // Mirrored into the third quadrant the centroid is (-1/3, -1/3).
    let a = vec![Vec2::new(0, 0), Vec2::new(-1, 0), Vec2::new(0, -1)];
    assert_eq!(a.center(), Vec2::new(-1, -1));
    // The winding does not matter.
    let a = vec![Vec2::new(0, 0), Vec2::new(0, -1), Vec2::new(-1, 0)];
    assert_eq!(a.center(), Vec2::new(-1, -1));
}

#[test]
fn center_moves_with_the_polygon() {
    let a = vec![Vec2::new(0, 0), Vec2::new(7, 1), Vec2::new(5, 9), Vec2::new(-2, 4)];
    let c = a.center();
    let t = Vec2::new(-13, 1000);
    let moved: Vec<Vec2> = a.iter().map(|v| Vec2::new(v.x + t.x, v.y + t.y)).collect();
    assert_eq!(moved.center(), Vec2::new(c.x + t.x, c.y + t.y));
}

#[test]
fn support_first_vertex_wins_a_tie() {
    let a = vec![Vec2::new(1, 1), Vec2::new(1, -1), Vec2::new(-1, -1), Vec2::new(-1, 1)];
    // Both (1, 1) and (1, -1) lie furthest along (1, 0).
    assert_eq!(a.support(Vec2::new(1, 0)), Vec2::new(1, 1));
    let b = vec![Vec2::new(1, -1), Vec2::new(1, 1), Vec2::new(-1, 1), Vec2::new(-1, -1)];
    assert_eq!(b.support(Vec2::new(1, 0)), Vec2::new(1, -1));
}

#[test]
fn support_where_every_projection_is_negative() {
    let a = vec![Vec2::new(5, 5), Vec2::new(3, 5), Vec2::new(4, 7)];
    assert_eq!(a.support(Vec2::new(-1, 0)), Vec2::new(3, 5));
}

#[test]
fn support_of_zero_direction_is_first_vertex() {
    let a = vec![Vec2::new(5, 5), Vec2::new(3, 5), Vec2::new(4, 7)];
    assert_eq!(a.support(Vec2::new(0, 0)), Vec2::new(5, 5));
}

#[test]
fn support_of_single_vertex() {
    let a = vec![Vec2::new(5, -5)];
    assert_eq!(a.support(Vec2::new(1, 2)), Vec2::new(5, -5));
}

#[test]
fn support_does_not_depend_on_the_length_of_the_direction() {
    let a = vec![Vec2::new(0, -1), Vec2::new(3, 2), Vec2::new(0, 9), Vec2::new(-4, 1)];
    for d in [Vec2::new(1, 2), Vec2::new(-3, 1), Vec2::new(0, -1), Vec2::new(5, 5)] {
        let long = Vec2::new(d.x * 1000, d.y * 1000);
        assert_eq!(a.support(d), a.support(long));
        assert_eq!(a.support(d), a.support(long.normalize()));
    }
}

#[test]
fn normalize_gives_the_primitive_vector() {
    assert_eq!(Vec2::new(6, -9).normalize(), Vec2::new(2, -3));
    assert_eq!(Vec2::new(0, -7).normalize(), Vec2::new(0, -1));
    assert_eq!(Vec2::new(0, 0).normalize(), Vec2::new(0, 0));
    assert_eq!(Vec2::new(i64::MIN, 0).normalize(), Vec2::new(-1, 0));
    assert_eq!(Vec2::new(i64::MIN, i64::MIN).normalize(), Vec2::new(-1, -1));
    assert_eq!(Vec2::new(i64::MAX, 1).normalize(), Vec2::new(i64::MAX, 1));
}

#[test]
fn vector_arithmetic() {
    let a = Vec2::new(3, -4);
    let b = Vec2::new(-5, 6);
    assert_eq!(a.minus(b), Vec2::new(8, -10));
    assert_eq!(a.negated(), Vec2::new(-3, 4));
    assert_eq!(a.dot(b), -39);
    assert_eq!(a.cross(b), -2);
    let big = Vec2::new(i64::MIN, i64::MAX);
    assert_eq!(big.cross(big), 0);
    assert_eq!(Vec2::new(i64::MIN, 0).dot(Vec2::new(i64::MIN, 0)), 1i128 << 126);
}

#[test]
fn triple_product_turns_the_third_vector() {
    // a x b > 0: a quarter turn to the left of c.
    assert_eq!(
        triple_product(Vec2::new(1, 0), Vec2::new(1, 5), Vec2::new(4, 2)),
        Vec2::new(-1, 2)
    );
    // a x b < 0: a quarter turn to the right.
    assert_eq!(
        triple_product(Vec2::new(1, 5), Vec2::new(1, 0), Vec2::new(4, 2)),
        Vec2::new(1, -2)
    );
    // a and b parallel: zero.
    assert_eq!(
        triple_product(Vec2::new(2, 4), Vec2::new(-1, -2), Vec2::new(4, 2)),
        Vec2::new(0, 0)
    );
}

#[test]
fn triple_product_does_not_depend_on_lengths() {
    let r = triple_product(Vec2::new(1, 2), Vec2::new(-3, 1), Vec2::new(2, 5));
    let s = triple_product(Vec2::new(7, 14), Vec2::new(-9, 3), Vec2::new(20, 50));
    assert_eq!(r, s);
}

#[test]
fn add_vertex_appends_the_difference_of_the_support_points() {
    let a = vec![Vec2::new(0, 0), Vec2::new(0, 4), Vec2::new(4, 4), Vec2::new(4, 0)];
    let b = vec![Vec2::new(2, 2), Vec2::new(6, 4), Vec2::new(3, 8)];
    let mut simplex = Vec::new();
    // Along (1, 0): a gives (4, 4), b against it gives (2, 2).
    assert!(add_vertex(&mut simplex, &a, &b, Vec2::new(1, 0)));
    assert_eq!(simplex, vec![Vec2::new(2, 2)]);
    // Along (-1, 0): a gives (0, 0), b against it gives (6, 4).
    assert!(add_vertex(&mut simplex, &a, &b, Vec2::new(-1, 0)));
    assert_eq!(simplex, vec![Vec2::new(2, 2), Vec2::new(-6, -4)]);
    // Along (0, 0) the first vertices are taken and nothing is gained.
    assert!(!add_vertex(&mut simplex, &a, &b, Vec2::new(0, 0)));
    assert_eq!(simplex, vec![Vec2::new(2, 2), Vec2::new(-6, -4), Vec2::new(-2, -2)]);
}

#[test]
fn evolve_segment_adds_a_point() {
    let a = vec![Vec2::new(0, 0), Vec2::new(0, 4), Vec2::new(4, 4), Vec2::new(4, 0)];
    let b = vec![Vec2::new(2, 2), Vec2::new(6, 4), Vec2::new(3, 8)];
    let mut simplex = vec![Vec2::new(2, 2), Vec2::new(-3, -8)];
    // The normal of the segment on the origin's side is (-2, 1); the search
    // goes against it, where a gives (4, 0) and b gives (3, 8).
    assert_eq!(evolve_simplex(&mut simplex, &a, &b), EvolveResult::Continue);
    assert_eq!(simplex, vec![Vec2::new(2, 2), Vec2::new(-3, -8), Vec2::new(1, -8)]);
    assert_eq!(evolve_simplex(&mut simplex, &a, &b), EvolveResult::Intersects);
    assert_eq!(simplex, vec![Vec2::new(2, 2), Vec2::new(-3, -8), Vec2::new(1, -8)]);
}

#[test]
fn evolve_segment_through_the_origin_ends_the_search() {
    let a = vec![Vec2::new(0, 0), Vec2::new(0, 4), Vec2::new(4, 4), Vec2::new(4, 0)];
    let b = vec![Vec2::new(2, 2), Vec2::new(6, 4), Vec2::new(3, 8)];
    let mut simplex = vec![Vec2::new(2, 2), Vec2::new(-3, -3)];
    assert_eq!(evolve_simplex(&mut simplex, &a, &b), EvolveResult::NoIntersection);
    assert_eq!(simplex, vec![Vec2::new(2, 2), Vec2::new(-3, -3), Vec2::new(-2, -2)]);
}

#[test]
fn evolve_segment_beside_the_origin_on_its_line_ends_the_search() {
    let a = vec![Vec2::new(0, 0), Vec2::new(0, 4), Vec2::new(4, 4), Vec2::new(4, 0)];
    let b = vec![Vec2::new(2, 2), Vec2::new(6, 4), Vec2::new(3, 8)];
    // No direction is found: the first vertices are taken and nothing is gained.
    let mut simplex = vec![Vec2::new(2, 2), Vec2::new(3, 3)];
    assert_eq!(evolve_simplex(&mut simplex, &a, &b), EvolveResult::NoIntersection);
    assert_eq!(simplex, vec![Vec2::new(2, 2), Vec2::new(3, 3), Vec2::new(-2, -2)]);
    let a = vec![Vec2::new(0, 0), Vec2::new(4, 0), Vec2::new(1, 3)];
    let b = vec![Vec2::new(0, 1), Vec2::new(1, -2), Vec2::new(2, 1)];
    let mut simplex = vec![Vec2::new(1, 0), Vec2::new(-1, 0)];
    assert_eq!(evolve_simplex(&mut simplex, &a, &b), EvolveResult::NoIntersection);
    assert_eq!(simplex, vec![Vec2::new(1, 0), Vec2::new(-1, 0), Vec2::new(0, -1)]);
}

#[test]
fn evolve_segment_ends_where_the_new_point_falls_short() {
    let a = vec![Vec2::new(0, 0), Vec2::new(0, 4), Vec2::new(4, 4), Vec2::new(4, 0)];
    let b = vec![Vec2::new(12, 2), Vec2::new(16, 4), Vec2::new(13, 8)];
    // The origin lies along (-1, -1) from the segment; against it, along
    // (1, 1), a gives (4, 4) and b gives (12, 2).
    let mut simplex = vec![Vec2::new(2, -1), Vec2::new(-1, 2)];
    assert_eq!(evolve_simplex(&mut simplex, &a, &b), EvolveResult::NoIntersection);
    assert_eq!(simplex, vec![Vec2::new(2, -1), Vec2::new(-1, 2), Vec2::new(-8, 2)]);
}

#[test]
fn evolve_triangle_ends_where_the_new_point_falls_short() {
    let a = vec![Vec2::new(0, 0), Vec2::new(0, 4), Vec2::new(4, 4), Vec2::new(4, 0)];
    let b = vec![Vec2::new(12, 2), Vec2::new(16, 4), Vec2::new(13, 8)];
    // The origin lies beyond the edge from (-2, -4) to (2, 0), along
    // (-1, 1); against it, along (1, -1), a gives (4, 0) and b gives (13, 8).
    let mut simplex = vec![Vec2::new(2, 0), Vec2::new(4, -4), Vec2::new(-2, -4)];
    assert_eq!(evolve_simplex(&mut simplex, &a, &b), EvolveResult::NoIntersection);
    assert_eq!(simplex, vec![Vec2::new(2, 0), Vec2::new(-2, -4), Vec2::new(-9, -8)]);
}

#[test]
fn evolve_triangle_seeks_against_the_normal_that_faces_the_origin() {
    let a = vec![Vec2::new(0, 0), Vec2::new(4, 0), Vec2::new(1, 3)];
    let b = vec![Vec2::new(0, 1), Vec2::new(1, -2), Vec2::new(2, 1)];
    // The normal (0, -1) of the edge from (-1, 1) to (1, 1) faces the
    // origin; along (0, 1) a gives (1, 3) and b, against it, gives (1, -2).
    let mut simplex = vec![Vec2::new(0, 3), Vec2::new(1, 1), Vec2::new(-1, 1)];
    assert_eq!(evolve_simplex(&mut simplex, &a, &b), EvolveResult::Continue);
    assert_eq!(simplex, vec![Vec2::new(-1, 1), Vec2::new(1, 1), Vec2::new(0, 5)]);
    let mut simplex = vec![Vec2::new(1, 1), Vec2::new(0, 3), Vec2::new(-1, 1)];
    assert_eq!(evolve_simplex(&mut simplex, &a, &b), EvolveResult::Continue);
    assert_eq!(simplex, vec![Vec2::new(1, 1), Vec2::new(-1, 1), Vec2::new(0, 5)]);
    // The same of the segment between the two.
    let mut simplex = vec![Vec2::new(-1, 1), Vec2::new(1, 1)];
    assert_eq!(evolve_simplex(&mut simplex, &a, &b), EvolveResult::Continue);
    assert_eq!(simplex, vec![Vec2::new(-1, 1), Vec2::new(1, 1), Vec2::new(0, 5)]);
}

#[test]
fn evolve_triangle_drops_the_first_point() {
    let a = vec![Vec2::new(0, 0), Vec2::new(0, 4), Vec2::new(4, 4), Vec2::new(4, 0)];
    let b = vec![Vec2::new(2, 2), Vec2::new(6, 4), Vec2::new(3, 8)];
    // The origin lies beyond the edge from (1, 1) to (3, 1); its outward
    // normal is (0, -1), and the search goes along (0, 1).
    let mut simplex = vec![Vec2::new(2, 5), Vec2::new(3, 1), Vec2::new(1, 1)];
    assert_eq!(evolve_simplex(&mut simplex, &a, &b), EvolveResult::Continue);
    assert_eq!(simplex, vec![Vec2::new(1, 1), Vec2::new(3, 1), Vec2::new(-2, 2)]);
}

#[test]
fn evolve_triangle_drops_the_second_point() {
    let a = vec![Vec2::new(0, 0), Vec2::new(0, 4), Vec2::new(4, 4), Vec2::new(4, 0)];
    let b = vec![Vec2::new(2, 2), Vec2::new(6, 4), Vec2::new(3, 8)];
    // The origin lies beyond the edge from (1, 1) to (-3, 2) only; its
    // outward normal is (-1, -4), and the search goes along (1, 4).
    let mut simplex = vec![Vec2::new(-3, 2), Vec2::new(1, 5), Vec2::new(1, 1)];
    assert_eq!(evolve_simplex(&mut simplex, &a, &b), EvolveResult::Continue);
    assert_eq!(simplex, vec![Vec2::new(-3, 2), Vec2::new(1, 1), Vec2::new(2, 2)]);
}

#[test]
fn evolve_triangle_about_the_origin() {
    let a = vec![Vec2::new(0, 0), Vec2::new(0, 4), Vec2::new(4, 4), Vec2::new(4, 0)];
    let b = vec![Vec2::new(2, 2), Vec2::new(6, 4), Vec2::new(3, 8)];
    let mut simplex = vec![Vec2::new(-3, -2), Vec2::new(3, -2), Vec2::new(0, 4)];
    assert_eq!(evolve_simplex(&mut simplex, &a, &b), EvolveResult::Intersects);
    assert_eq!(simplex, vec![Vec2::new(-3, -2), Vec2::new(3, -2), Vec2::new(0, 4)]);
}

#[test]
fn gjk_is_symmetric() {
    let shapes = vec![
        vec![Vec2::new(0, 0), Vec2::new(0, 4), Vec2::new(4, 4), Vec2::new(4, 0)],
        vec![Vec2::new(2, 2), Vec2::new(6, 4), Vec2::new(3, 8)],
        vec![Vec2::new(8, 4), Vec2::new(6, 4), Vec2::new(7, 8)],
        vec![Vec2::new(-10, -10), Vec2::new(10, -10), Vec2::new(0, 30)],
        vec![Vec2::new(100, 0), Vec2::new(101, 0), Vec2::new(101, 1), Vec2::new(100, 1)],
    ];
    for a in &shapes {
        for b in &shapes {
            assert_eq!(gjk_2d(a, b), gjk_2d(b, a));
        }
    }
}

#[test]
fn gjk_answers_the_same_every_time() {
    let a = vec![Vec2::new(0, 0), Vec2::new(0, 4), Vec2::new(4, 4), Vec2::new(4, 0)];
    let b = vec![Vec2::new(2, 2), Vec2::new(6, 4), Vec2::new(3, 8)];
    let first = gjk_2d(&a, &b);
    for _ in 0..10 {
        assert_eq!(gjk_2d(&a, &b), first);
        assert_eq!(gjk_2d(&a.clone(), &b.clone()), first);
    }
}

#[test]
fn gjk_of_shapes_with_one_center_finds_nothing() {
    // The search has no direction to start along.
    let a = vec![Vec2::new(-2, -2), Vec2::new(2, -2), Vec2::new(2, 2), Vec2::new(-2, 2)];
    let b = vec![Vec2::new(-1, -1), Vec2::new(1, -1), Vec2::new(1, 1), Vec2::new(-1, 1)];
    assert!(!gjk_2d(&a, &b));
}

#[test]
fn gjk_of_far_shapes_along_the_center_line() {
    let a = vec![Vec2::new(0, 0), Vec2::new(0, 4), Vec2::new(4, 4), Vec2::new(4, 0)];
    let b = vec![Vec2::new(100, 0), Vec2::new(100, 4), Vec2::new(104, 4), Vec2::new(104, 0)];
    assert!(!gjk_2d(&a, &b));
}

#[test]
fn gjk_origin_on_the_seed_line_finds_nothing() {
    // Two squares side by side on one axis: the seed points and the origin
    // lie on one line.
    let a = vec![Vec2::new(0, 0), Vec2::new(4, 0), Vec2::new(4, 4), Vec2::new(0, 4)];
    let b = vec![Vec2::new(2, 0), Vec2::new(6, 0), Vec2::new(6, 4), Vec2::new(2, 4)];
    assert!(!gjk_2d(&a, &b));
}

#[test]
fn check_polygon_refuses_what_has_no_center() {
    assert!(!check_polygon(&vec![]));
    assert!(!check_polygon(&vec![Vec2::new(1, 1)]));
    assert!(!check_polygon(&vec![Vec2::new(1, 1), Vec2::new(2, 2)]));
    assert!(!check_polygon(&vec![Vec2::new(0, 0), Vec2::new(1, 1), Vec2::new(2, 2)]));
    assert!(check_polygon(&vec![Vec2::new(0, 0), Vec2::new(1, 0), Vec2::new(0, 1)]));
}

#[test]
fn check_polygon_refuses_far_vertices() {
    let far = 0x8000_0000i64;
    assert!(check_polygon(&vec![Vec2::new(-far, -far), Vec2::new(far, -far), Vec2::new(0, far)]));
    assert!(!check_polygon(&vec![
        Vec2::new(-far - 1, -far),
        Vec2::new(far, -far),
        Vec2::new(0, far)
    ]));
}

#[test]
fn check_polygon_refuses_a_centroid_out_of_range() {
    // A bow tie: the two lobes nearly cancel, and the centroid of the signed
    // area lies far outside the vertices.
    let far = 0x8000_0000i64;
    let p = vec![
        Vec2::new(-far, -far),
        Vec2::new(far, far),
        Vec2::new(far, -far),
        Vec2::new(-far, far - 1),
    ];
    assert!(!check_polygon(&p));
}

#[test]
fn gjk_of_touching_shapes_finds_nothing() {
    // Two squares with one edge in common: the point furthest along the
    // axis through the centers is the origin itself.
    let a = vec![Vec2::new(0, 0), Vec2::new(4, 0), Vec2::new(4, 4), Vec2::new(0, 4)];
    let b = vec![Vec2::new(4, 0), Vec2::new(8, 0), Vec2::new(8, 4), Vec2::new(4, 4)];
    assert!(!gjk_2d(&a, &b));
    assert!(!gjk_2d(&b, &a));
}

#[test]
fn gjk_goes_by_the_axis_through_the_centers() {
    // The corner (3, 3) of the first triangle lies below the edge from
    // (0, 3) to (9, 6) of the second, so the two lie apart; but no line
    // across the axis from (2, 1) to (3, 6) lies between them.
    let a = vec![Vec2::new(0, 0), Vec2::new(3, 0), Vec2::new(3, 3)];
    let b = vec![Vec2::new(0, 3), Vec2::new(9, 6), Vec2::new(0, 9)];
    assert_eq!(a.center(), Vec2::new(2, 1));
    assert_eq!(b.center(), Vec2::new(3, 6));
    assert!(gjk_2d(&a, &b));
}

#[test]
fn gjk_runs_on_the_largest_coordinates() {
    let far = 0x8000_0000i64;
    let a = vec![Vec2::new(-far, -far), Vec2::new(far, -far), Vec2::new(far - 1, far)];
    let b = vec![Vec2::new(far, far), Vec2::new(-far, far), Vec2::new(-far + 1, -far)];
    assert!(check_polygon(&a) && check_polygon(&b));
    assert_eq!(gjk_2d(&a, &b), gjk_2d(&b, &a));
    let c = vec![Vec2::new(far - 2, far - 2), Vec2::new(far, far - 2), Vec2::new(far, far)];
    assert!(check_polygon(&c));
    assert_eq!(gjk_2d(&a, &c), gjk_2d(&c, &a));
}

#[test]
fn gjk_of_a_small_triangle_beside_a_large_one() {
    // The first lies within x + y <= 4, the second within x + y >= 4.5: they
    // lie apart, but each reaches beyond the other along the axis through
    // the centers, and the origin lies off the line through the seed points.
    let a = vec![grid(0.0, 0.0), grid(4.0, 0.0), grid(0.0, 4.0)];
    let b = vec![grid(3.0, 1.5), grid(3.2, 1.5), grid(3.1, 1.7)];
    assert!(check_polygon(&a) && check_polygon(&b));
    assert!(gjk_2d(&a, &b));
    assert!(gjk_2d(&b, &a));
}
