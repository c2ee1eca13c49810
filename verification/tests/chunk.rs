use minesweeper::chunk::{
    cell_sprites, Cell, CellContents, Chunk, CHUNK_LEN, CHUNK_SIZE, SPRITE_0, SPRITE_FLAG,
    SPRITE_HIDDEN, SPRITE_MINE,
};
use minesweeper::vector::Vec2i;

fn cell(chunk: &Chunk, x: u32, y: u32) -> Cell {
    match chunk.get_cell((x, y)) {
        Some(c) => *c,
        None => panic!("no cell at ({}, {})", x, y),
    }
}

fn is_mine(chunk: &Chunk, x: i64, y: i64) -> bool {
    if x < 0 || y < 0 || x >= 16 || y >= 16 {
        return false;
    }
    cell(chunk, x as u32, y as u32).contents == CellContents::Mine
}

fn mines_around(chunk: &Chunk, x: u32, y: u32) -> i32 {
    let mut n = 0;
    for dx in -1i64..=1 {
        for dy in -1i64..=1 {
            if (dx != 0 || dy != 0) && is_mine(chunk, x as i64 + dx, y as i64 + dy) {
                n += 1;
            }
        }
    }
    n
}

fn count_mines(chunk: &Chunk) -> usize {
    let mut n = 0;
    for x in 0..16 {
        for y in 0..16 {
            if is_mine(chunk, x, y) {
                n += 1;
            }
        }
    }
    n
}

fn counts_are_right(chunk: &Chunk) -> bool {
    for x in 0..CHUNK_SIZE {
        for y in 0..CHUNK_SIZE {
            if let CellContents::Empty(n) = cell(chunk, x, y).contents {
                if n != mines_around(chunk, x, y) {
                    return false;
                }
            }
        }
    }
    true
}

#[test]
fn sizes() {
    assert_eq!(CHUNK_SIZE, 16);
    assert_eq!(CHUNK_LEN, 256);
}

#[test]
fn idx_counts_row_by_row() {
    assert_eq!(Chunk::idx(0, 0), 0);
    assert_eq!(Chunk::idx(15, 0), 15);
    assert_eq!(Chunk::idx(0, 1), 16);
    assert_eq!(Chunk::idx(3, 2), 35);
    assert_eq!(Chunk::idx(15, 15), 255);
}

#[test]
fn default_cell() {
    let c = Cell::default();
    assert_eq!(c, Cell { revealed: false, flag: false, contents: CellContents::Empty(0) });
}

#[test]
fn empty_chunk() {
    let chunk = Chunk::empty(Vec2i::new(3, -4));
    assert_eq!(chunk.position(), Vec2i::new(3, -4));
    for x in 0..16 {
        for y in 0..16 {
            assert_eq!(cell(&chunk, x, y), Cell::default());
        }
    }
}

#[test]
fn get_cell_outside_the_chunk() {
    let chunk = Chunk::empty(Vec2i::new(0, 0));
    assert!(chunk.get_cell((16, 0)).is_none());
    assert!(chunk.get_cell((0, 16)).is_none());
    assert!(chunk.get_cell((u32::MAX, u32::MAX)).is_none());
    assert!(chunk.get_cell((15, 15)).is_some());
}

#[test]
fn get_cell_mut_goes_by_the_place() {
    let mut chunk = Chunk::empty(Vec2i::new(0, 0));
    match chunk.get_cell_mut((3, 2)) {
        Some(c) => c.flag = true,
        None => panic!("no cell"),
    }
    assert!(cell(&chunk, 3, 2).flag);
    // Column 17 of row 0 is the place 17: column 1 of row 1.
    match chunk.get_cell_mut((17, 0)) {
        Some(c) => c.revealed = true,
        None => panic!("no cell"),
    }
    assert!(cell(&chunk, 1, 1).revealed);
    assert!(chunk.get_cell_mut((0, 16)).is_none());
    assert!(chunk.get_cell_mut((256, 0)).is_none());
    assert!(chunk.get_cell_mut((255, 0)).is_some());
}

#[test]
fn place_mine_in_the_middle() {
    let mut chunk = Chunk::empty(Vec2i::new(0, 0));
    chunk.place_mine(5, 7);
    for x in 0..16u32 {
        for y in 0..16u32 {
            let expected = if (x, y) == (5, 7) {
                CellContents::Mine
            } else if (4..=6).contains(&x) && (6..=8).contains(&y) {
                CellContents::Empty(1)
            } else {
                CellContents::Empty(0)
            };
            assert_eq!(cell(&chunk, x, y).contents, expected, "at ({}, {})", x, y);
            assert!(!cell(&chunk, x, y).revealed);
            assert!(!cell(&chunk, x, y).flag);
        }
    }
}

#[test]
fn place_mine_in_the_corners() {
    let mut chunk = Chunk::empty(Vec2i::new(0, 0));
    chunk.place_mine(0, 0);
    chunk.place_mine(15, 15);
    assert_eq!(cell(&chunk, 0, 0).contents, CellContents::Mine);
    assert_eq!(cell(&chunk, 1, 0).contents, CellContents::Empty(1));
    assert_eq!(cell(&chunk, 0, 1).contents, CellContents::Empty(1));
    assert_eq!(cell(&chunk, 1, 1).contents, CellContents::Empty(1));
    assert_eq!(cell(&chunk, 2, 0).contents, CellContents::Empty(0));
    assert_eq!(cell(&chunk, 15, 15).contents, CellContents::Mine);
    assert_eq!(cell(&chunk, 14, 15).contents, CellContents::Empty(1));
    assert_eq!(cell(&chunk, 15, 14).contents, CellContents::Empty(1));
    assert_eq!(cell(&chunk, 14, 14).contents, CellContents::Empty(1));
    assert_eq!(count_mines(&chunk), 2);
    assert!(counts_are_right(&chunk));
}

#[test]
fn place_mines_side_by_side() {
    let mut chunk = Chunk::empty(Vec2i::new(0, 0));
    chunk.place_mine(5, 5);
    chunk.place_mine(6, 5);
    chunk.place_mine(7, 5);
    assert_eq!(cell(&chunk, 6, 4).contents, CellContents::Empty(3));
    assert_eq!(cell(&chunk, 6, 6).contents, CellContents::Empty(3));
    assert_eq!(cell(&chunk, 5, 4).contents, CellContents::Empty(2));
    assert_eq!(cell(&chunk, 4, 5).contents, CellContents::Empty(1));
    assert_eq!(cell(&chunk, 8, 6).contents, CellContents::Empty(1));
    assert_eq!(cell(&chunk, 6, 5).contents, CellContents::Mine);
    assert!(counts_are_right(&chunk));
}

#[test]
fn place_mine_keeps_flags_and_reveals() {
    let mut chunk = Chunk::empty(Vec2i::new(0, 0));
    match chunk.get_cell_mut((4, 4)) {
        Some(c) => c.flag = true,
        None => panic!("no cell"),
    }
    match chunk.get_cell_mut((5, 5)) {
        Some(c) => c.revealed = true,
        None => panic!("no cell"),
    }
    chunk.place_mine(5, 5);
    assert_eq!(
        cell(&chunk, 4, 4),
        Cell { revealed: false, flag: true, contents: CellContents::Empty(1) }
    );
    assert_eq!(
        cell(&chunk, 5, 5),
        Cell { revealed: true, flag: false, contents: CellContents::Mine }
    );
}

#[test]
fn place_drawn_mine_refuses_a_cell_with_a_mine() {
    let mut chunk = Chunk::empty(Vec2i::new(0, 0));
    assert!(chunk.place_drawn_mine(9, 9));
    assert!(!chunk.place_drawn_mine(9, 9));
    assert_eq!(count_mines(&chunk), 1);
    assert_eq!(cell(&chunk, 8, 8).contents, CellContents::Empty(1));
    assert!(chunk.place_drawn_mine(8, 8));
    assert_eq!(count_mines(&chunk), 2);
    assert!(counts_are_right(&chunk));
}

#[test]
fn show_all_mines_reveals_the_mines_only() {
    let mut chunk = Chunk::empty(Vec2i::new(0, 0));
    chunk.place_mine(1, 2);
    chunk.place_mine(10, 12);
    chunk.show_all_mines();
    for x in 0..16u32 {
        for y in 0..16u32 {
            let mine = (x, y) == (1, 2) || (x, y) == (10, 12);
            assert_eq!(cell(&chunk, x, y).revealed, mine);
        }
    }
    assert_eq!(chunk.position(), Vec2i::new(0, 0));
}

#[test]
fn new_chunk_has_its_mines_and_right_counts() {
    for n in [0u32, 1, 25, 100, 256, 257, u32::MAX] {
        let chunk = Chunk::new(Vec2i::new(7, -7), n);
        assert_eq!(chunk.position(), Vec2i::new(7, -7));
        // A chunk holds a mine on every cell at most.
        assert_eq!(count_mines(&chunk), n.min(256) as usize);
        assert!(counts_are_right(&chunk));
        for x in 0..16 {
            for y in 0..16 {
                assert!(!cell(&chunk, x, y).revealed);
                assert!(!cell(&chunk, x, y).flag);
            }
        }
    }
}

#[test]
fn new_chunks_differ() {
    // Two chunks of 25 mines among 256 cells agree by chance once in about 10^34 times.
    let a = Chunk::new(Vec2i::new(0, 0), 25);
    let b = Chunk::new(Vec2i::new(0, 0), 25);
    let mut same = true;
    for x in 0..16 {
        for y in 0..16 {
            if cell(&a, x, y) != cell(&b, x, y) {
                same = false;
            }
        }
    }
    assert!(!same);
}

#[test]
fn sprites_of_a_cell() {
    assert_eq!((SPRITE_HIDDEN, SPRITE_FLAG, SPRITE_MINE, SPRITE_0), ((0, 2), (1, 2), (2, 2), (3, 2)));
    let hidden = Cell { revealed: false, flag: false, contents: CellContents::Empty(3) };
    assert_eq!(cell_sprites(&hidden), ((0, 2), None));
    let flagged = Cell { revealed: false, flag: true, contents: CellContents::Mine };
    assert_eq!(cell_sprites(&flagged), ((0, 2), Some((1, 2))));
    let open = Cell { revealed: true, flag: true, contents: CellContents::Empty(0) };
    assert_eq!(cell_sprites(&open), ((3, 2), None));
    let mine = Cell { revealed: true, flag: false, contents: CellContents::Mine };
    assert_eq!(cell_sprites(&mine), ((3, 2), Some((2, 2))));
    let expected = [(0, 0), (1, 0), (2, 0), (3, 0), (0, 1), (1, 1), (2, 1), (3, 1)];
    for nb in 1..=8 {
        let number = Cell { revealed: true, flag: false, contents: CellContents::Empty(nb) };
        assert_eq!(cell_sprites(&number), ((3, 2), Some(expected[nb as usize - 1])));
    }
    let below = Cell { revealed: true, flag: false, contents: CellContents::Empty(-6) };
    assert_eq!(cell_sprites(&below), ((3, 2), Some((-3, -1))));
    let least = Cell { revealed: true, flag: false, contents: CellContents::Empty(i32::MIN) };
    assert_eq!(cell_sprites(&least), ((3, 2), Some((-1, -536870912))));
}
