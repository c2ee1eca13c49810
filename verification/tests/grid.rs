use minesweeper::camera::{div_trunc, Camera, CELL_SIZE, MAX_ZOOM, MIN_ZOOM};
use minesweeper::chunk::{Cell, CellContents};
use minesweeper::field::{FLOOD_DEPTH, MINES_PER_CHUNK};
use minesweeper::grid::Grid;
use minesweeper::vector::Vec2i;

fn camera_at(x: i32, y: i32, zoom: i32) -> Camera {
    Camera { position: Vec2i::new(x, y), zoom }
}

/// The field that the camera at the origin keeps: the chunks from (-1, -1) to (5, 4).
fn field() -> Grid {
    let mut grid = Grid::new();
    grid.update_chunks(&camera_at(0, 0, 16));
    grid
}

/// The field of `field`, with every cell hidden and empty.
fn blank_field() -> Grid {
    let mut grid = field();
    for x in -16..96 {
        for y in -16..80 {
            if let Some(c) = grid.get_cell_mut(Vec2i::new(x, y)) {
                *c = Cell::default();
            }
        }
    }
    grid
}

fn cell(grid: &Grid, x: i32, y: i32) -> Cell {
    match grid.get_cell(Vec2i::new(x, y)) {
        Some(c) => *c,
        None => panic!("no cell at ({}, {})", x, y),
    }
}

fn set(grid: &mut Grid, x: i32, y: i32, cell: Cell) {
    match grid.get_cell_mut(Vec2i::new(x, y)) {
        Some(c) => *c = cell,
        None => panic!("no cell at ({}, {})", x, y),
    }
}

fn revealed_count(grid: &Grid) -> usize {
    let mut n = 0;
    for x in -16..96 {
        for y in -16..80 {
            if let Some(c) = grid.get_cell(Vec2i::new(x, y)) {
                if c.revealed {
                    n += 1;
                }
            }
        }
    }
    n
}

#[test]
fn constants() {
    assert_eq!(CELL_SIZE, 16);
    assert_eq!(MIN_ZOOM, 4);
    assert_eq!(MAX_ZOOM, 32);
    assert_eq!(MINES_PER_CHUNK, 25);
    assert_eq!(FLOOD_DEPTH, 8);
}

#[test]
fn div_trunc_rounds_towards_zero() {
    assert_eq!(div_trunc(7, 2), 3);
    assert_eq!(div_trunc(-7, 2), -3);
    assert_eq!(div_trunc(-1, 16), 0);
    assert_eq!(div_trunc(-16, 16), -1);
    assert_eq!(div_trunc(0, 5), 0);
    assert_eq!(div_trunc(i64::MAX, 1), i64::MAX);
    assert_eq!(div_trunc(i64::MIN + 1, 1), i64::MIN + 1);
}

#[test]
fn camera_screen_to_world() {
    let camera = camera_at(0, 0, 16);
    assert_eq!(camera.cell_size(), 16);
    assert_eq!(camera.screen_to_world(Vec2i::new(0, 0)), Vec2i::new(0, 0));
    assert_eq!(camera.screen_to_world(Vec2i::new(15, 16)), Vec2i::new(0, 1));
    assert_eq!(camera.screen_to_world(Vec2i::new(100, 47)), Vec2i::new(6, 2));
    let camera = camera_at(-40, 25, 8);
    // (-40 + 3) / 8 = -4.6 and (25 + 6) / 8 = 3.9, both rounded towards zero.
    assert_eq!(camera.screen_to_world(Vec2i::new(3, 6)), Vec2i::new(-4, 3));
    let camera = camera_at(i32::MAX, i32::MIN, 4);
    assert_eq!(
        camera.screen_to_world(Vec2i::new(i32::MAX, i32::MIN)),
        Vec2i::new(1073741823, -1073741824)
    );
}

#[test]
fn camera_extent() {
    // At zoom 16 a chunk is 256 pixels wide: 4 + 2 columns and 5 rows beyond the least place.
    assert_eq!(camera_at(0, 0, 16).extent(), (Vec2i::new(-1, -1), Vec2i::new(5, 4)));
    assert_eq!(camera_at(255, 256, 16).extent(), (Vec2i::new(-1, 0), Vec2i::new(5, 5)));
    assert_eq!(camera_at(-255, -256, 16).extent(), (Vec2i::new(-1, -2), Vec2i::new(5, 3)));
    // At zoom 4 a chunk is 64 pixels wide: 1 + 2 columns and 2 rows.
    assert_eq!(camera_at(640, 64, 4).extent(), (Vec2i::new(9, 0), Vec2i::new(12, 2)));
    // At zoom 32 a chunk is 512 pixels wide: 8 + 2 columns and 10 rows.
    assert_eq!(camera_at(0, 0, 32).extent(), (Vec2i::new(-1, -1), Vec2i::new(9, 9)));
    // At zoom 5: 2 + 2 columns and 2 rows.
    assert_eq!(camera_at(0, 0, 5).extent(), (Vec2i::new(-1, -1), Vec2i::new(3, 1)));
    assert_eq!(
        camera_at(i32::MIN, i32::MAX, 4).extent(),
        (Vec2i::new(-33554433, 33554430), Vec2i::new(-33554430, 33554432))
    );
}

#[test]
fn new_field_has_no_chunk() {
    let grid = Grid::new();
    assert!(grid.find_chunk(Vec2i::new(0, 0)).is_none());
    assert!(grid.get_cell(Vec2i::new(0, 0)).is_none());
}

#[test]
fn update_chunks_makes_the_chunks_that_the_camera_keeps() {
    let grid = field();
    for x in -3..8 {
        for y in -3..8 {
            let inside = (-1..=5).contains(&x) && (-1..=4).contains(&y);
            match grid.find_chunk(Vec2i::new(x, y)) {
                Some(chunk) => {
                    assert!(inside);
                    assert_eq!(chunk.position(), Vec2i::new(x, y));
                    let mut mines = 0;
                    for cx in 0..16 {
                        for cy in 0..16 {
                            let c = match chunk.get_cell((cx, cy)) {
                                Some(c) => *c,
                                None => panic!("no cell"),
                            };
                            assert!(!c.revealed && !c.flag);
                            if c.contents == CellContents::Mine {
                                mines += 1;
                            }
                        }
                    }
                    assert_eq!(mines, 25);
                }
                None => assert!(!inside),
            }
        }
    }
}

#[test]
fn update_chunks_keeps_what_is_in_view_and_drops_the_rest() {
    let mut grid = blank_field();
    grid.flag(Vec2i::new(3, 3)); // in chunk (0, 0)
    grid.flag(Vec2i::new(83, 3)); // in chunk (5, 0)
    // Two chunks to the right the camera keeps the chunks from (1, -1) to (7, 4).
    grid.update_chunks(&camera_at(512, 0, 16));
    assert!(grid.find_chunk(Vec2i::new(0, 0)).is_none());
    assert!(grid.find_chunk(Vec2i::new(-1, 2)).is_none());
    assert!(grid.find_chunk(Vec2i::new(7, 4)).is_some());
    assert!(grid.find_chunk(Vec2i::new(8, 4)).is_none());
    assert!(cell(&grid, 83, 3).flag);
    // The chunks that stayed are as they were: without a mine.
    for x in 16..96 {
        for y in 0..80 {
            assert_eq!(cell(&grid, x, y).contents, CellContents::Empty(0));
        }
    }
    // Back at the origin the chunk (0, 0) is made again, without the flag.
    grid.update_chunks(&camera_at(0, 0, 16));
    assert!(!cell(&grid, 3, 3).flag);
    assert!(cell(&grid, 83, 3).flag);
}

#[test]
fn update_chunks_twice_changes_nothing() {
    let mut grid = field();
    let mut before = Vec::new();
    for x in 0..96 {
        for y in 0..80 {
            before.push(cell(&grid, x, y));
        }
    }
    grid.update_chunks(&camera_at(0, 0, 16));
    let mut after = Vec::new();
    for x in 0..96 {
        for y in 0..80 {
            after.push(cell(&grid, x, y));
        }
    }
    assert_eq!(before, after);
}

#[test]
fn cells_left_of_and_below_their_chunk_are_not_found() {
    let mut grid = field();
    // The cell (-1, 0) is looked for in the chunk (0, 0), to the left of its first column.
    assert!(grid.get_cell(Vec2i::new(-1, 0)).is_none());
    assert!(grid.get_cell(Vec2i::new(0, -1)).is_none());
    assert!(grid.get_cell(Vec2i::new(-15, 5)).is_none());
    assert!(grid.get_cell_mut(Vec2i::new(-1, 0)).is_none());
    assert!(grid.get_cell_mut(Vec2i::new(-1, 5)).is_none());
    assert!(grid.get_cell_mut(Vec2i::new(5, -1)).is_none());
    // The cell (-16, 0) is the first of the chunk (-1, 0).
    assert!(grid.get_cell(Vec2i::new(-16, 0)).is_some());
    assert!(grid.get_cell(Vec2i::new(-16, -16)).is_some());
    assert!(grid.get_cell(Vec2i::new(-17, 0)).is_none());
    // Beyond the chunks there is nothing.
    assert!(grid.get_cell(Vec2i::new(96, 0)).is_none());
    assert!(grid.get_cell(Vec2i::new(0, 80)).is_none());
    assert!(grid.get_cell(Vec2i::new(95, 79)).is_some());
    assert!(grid.get_cell(Vec2i::new(i32::MIN, i32::MAX)).is_none());
}

#[test]
fn get_cell_mut_changes_the_cell_that_get_cell_finds() {
    let mut grid = blank_field();
    set(
        &mut grid,
        37,
        70,
        Cell { revealed: true, flag: true, contents: CellContents::Empty(3) },
    );
    assert_eq!(
        cell(&grid, 37, 70),
        Cell { revealed: true, flag: true, contents: CellContents::Empty(3) }
    );
    // It is column 5 of row 6 of the chunk (2, 4).
    let chunk = match grid.find_chunk(Vec2i::new(2, 4)) {
        Some(c) => c,
        None => panic!("no chunk"),
    };
    assert_eq!(
        chunk.get_cell((5, 6)).copied(),
        Some(Cell { revealed: true, flag: true, contents: CellContents::Empty(3) })
    );
    assert_eq!(revealed_count(&grid), 1);
}

#[test]
fn find_chunk_mut_gives_the_chunk_to_change() {
    let mut grid = blank_field();
    match grid.find_chunk_mut(Vec2i::new(1, 1)) {
        Some(chunk) => chunk.place_mine(0, 0),
        None => panic!("no chunk"),
    }
    assert_eq!(cell(&grid, 16, 16).contents, CellContents::Mine);
    assert_eq!(cell(&grid, 17, 17).contents, CellContents::Empty(1));
    // The count stays within the chunk.
    assert_eq!(cell(&grid, 15, 15).contents, CellContents::Empty(0));
    assert!(grid.find_chunk_mut(Vec2i::new(6, 0)).is_none());
}

#[test]
fn flag_turns_the_flag() {
    let mut grid = blank_field();
    grid.flag(Vec2i::new(20, 30));
    assert_eq!(
        cell(&grid, 20, 30),
        Cell { revealed: false, flag: true, contents: CellContents::Empty(0) }
    );
    grid.flag(Vec2i::new(20, 30));
    assert_eq!(cell(&grid, 20, 30), Cell::default());
    // Where there is no cell nothing happens.
    grid.flag(Vec2i::new(-1, 30));
    grid.flag(Vec2i::new(1000, 1000));
    assert_eq!(revealed_count(&grid), 0);
}

#[test]
fn reveal_a_mine() {
    let mut grid = blank_field();
    set(&mut grid, 40, 40, Cell { contents: CellContents::Mine, ..Cell::default() });
    assert!(grid.reveal_at(Vec2i::new(40, 40)));
    assert!(cell(&grid, 40, 40).revealed);
    assert_eq!(revealed_count(&grid), 1);
}

#[test]
fn reveal_a_cell_beside_a_mine() {
    let mut grid = blank_field();
    set(&mut grid, 40, 40, Cell { contents: CellContents::Empty(2), ..Cell::default() });
    assert!(!grid.reveal_at(Vec2i::new(40, 40)));
    assert!(cell(&grid, 40, 40).revealed);
    assert_eq!(revealed_count(&grid), 1);
}

#[test]
fn reveal_floods_eight_cells_deep() {
    let mut grid = blank_field();
    assert!(!grid.reveal_at(Vec2i::new(40, 40)));
    // The flood goes left first and comes back to what it passed by; it
    // ends seven steps from where it started.
    let rows = [
        ".....#...#.....",
        "..#.###.###.#..",
        ".#############.",
        "###############",
        ".#############.",
        "..#.###.###.#..",
        ".....#...#.....",
    ];
    for (i, row) in rows.iter().enumerate() {
        let y = 43 - i as i32;
        for (j, mark) in row.chars().enumerate() {
            let x = 33 + j as i32;
            assert_eq!(cell(&grid, x, y).revealed, mark == '#', "at ({}, {})", x, y);
        }
    }
    assert_eq!(revealed_count(&grid), 61);
}

#[test]
fn reveal_flood_passes_numbers_and_stops_at_mines_and_revealed_cells() {
    let mut grid = blank_field();
    // A corridor along y = 20 from x = 18 to x = 24, walled by mines, closed
    // by a revealed cell at x = 25.
    for x in 17..=25 {
        for y in 19..=21 {
            set(&mut grid, x, y, Cell { contents: CellContents::Mine, ..Cell::default() });
        }
    }
    for x in 18..=24 {
        set(&mut grid, x, 20, Cell { contents: CellContents::Empty(6), ..Cell::default() });
    }
    set(&mut grid, 21, 20, Cell::default());
    set(
        &mut grid,
        25,
        20,
        Cell { revealed: true, flag: false, contents: CellContents::Empty(3) },
    );
    assert!(!grid.reveal_at(Vec2i::new(21, 20)));
    for x in 18..=25 {
        assert!(cell(&grid, x, 20).revealed);
    }
    assert_eq!(revealed_count(&grid), 8);
}

#[test]
fn reveal_flood_stops_where_the_cells_end() {
    let mut grid = blank_field();
    // From the corner (0, 0) of the chunk (0, 0) the cells to the left and
    // below are not found: the flood goes right first.
    assert!(!grid.reveal_at(Vec2i::new(0, 0)));
    let rows = ["..#.....", ".###.#..", "#######.", "########"];
    for (i, row) in rows.iter().enumerate() {
        let y = 3 - i as i32;
        for (j, mark) in row.chars().enumerate() {
            let x = j as i32;
            assert_eq!(cell(&grid, x, y).revealed, mark == '#', "at ({}, {})", x, y);
        }
    }
    assert_eq!(revealed_count(&grid), 20);
}

#[test]
fn reveal_recurse_at_full_depth_does_nothing() {
    let mut grid = blank_field();
    grid.reveal_recurse(Vec2i::new(40, 40), 8);
    grid.reveal_recurse(Vec2i::new(1000, 1000), 9);
    assert_eq!(revealed_count(&grid), 0);
    grid.reveal_recurse(Vec2i::new(40, 40), 7);
    assert_eq!(revealed_count(&grid), 1);
    assert!(cell(&grid, 40, 40).revealed);
    grid.reveal_recurse(Vec2i::new(50, 50), 6);
    assert_eq!(revealed_count(&grid), 6);
    for (x, y) in [(50, 50), (49, 50), (51, 50), (50, 49), (50, 51)] {
        assert!(cell(&grid, x, y).revealed);
    }
}

#[test]
fn show_all_mines_of_the_field() {
    let mut grid = field();
    grid.flag(Vec2i::new(5, 5));
    grid.show_all_mines();
    let mut mines = 0;
    for x in -16..96 {
        for y in -16..80 {
            if let Some(c) = grid.get_cell(Vec2i::new(x, y)) {
                assert_eq!(c.revealed, c.contents == CellContents::Mine);
                if c.revealed {
                    mines += 1;
                }
            }
        }
    }
    assert!(cell(&grid, 5, 5).flag);
    // Of the 42 chunks, 30 lie at places without a negative coordinate, where
    // every cell is found: 30 * 25 mines. Of the others the first column or
    // row is found only.
    assert!(mines >= 750);
}
