//! A chunk of the mine field: sixteen by sixteen cells, each of which knows
//! how many of its neighbours in the chunk hold a mine.

use vstd::prelude::*;
use crate::vector::Vec2i;

verus! {

/// The number of cells along each side of a chunk.
pub const CHUNK_SIZE: u32 = 16;

/// The number of cells of a chunk.
pub const CHUNK_LEN: usize = 256;

/// What a cell holds: a mine, or the number of mines around it.
#[derive(Clone, Copy, Debug, PartialEq, Eq, Structural)]
pub enum CellContents {
    Empty(i32),
    Mine,
}

/// A cell of the mine field.
#[derive(Clone, Copy, Debug, PartialEq, Eq, Structural)]
pub struct Cell {
    pub revealed: bool,
    pub flag: bool,
    pub contents: CellContents,
}

impl Default for Cell {
    /// A hidden cell without a flag, a mine or a mine around it.
    fn default() -> (r: Cell)
        ensures
            r == (Cell { revealed: false, flag: false, contents: CellContents::Empty(0) }),
    {
        Cell { revealed: false, flag: false, contents: CellContents::Empty(0) }
    }
}

/// The sprite of a hidden cell, by its column and row on the sheet.
pub const SPRITE_HIDDEN: (i32, i32) = (0, 2);

/// The sprite of a flag.
pub const SPRITE_FLAG: (i32, i32) = (1, 2);

/// The sprite of a mine.
pub const SPRITE_MINE: (i32, i32) = (2, 2);

/// The sprite of a revealed cell.
pub const SPRITE_0: (i32, i32) = (3, 2);

/// The sprite of the number `nb`: the numbers stand four to a row, from 1
/// on. (Below 1, the remainder and the quotient are rounded towards zero.)
pub open spec fn number_sprite(nb: int) -> (i32, i32) {
    let m = nb - 1;
    if m >= 0 {
        ((m % 4) as i32, (m / 4) as i32)
    } else {
        ((-((-m) % 4)) as i32, (-((-m) / 4)) as i32)
    }
}

/// The sprite under a cell and the one over it, if any: a flag over a
/// hidden cell that carries one, and over a revealed cell its mine or the
/// number of mines around it, unless there is none.
pub open spec fn cell_sprites_spec(cell: Cell) -> ((i32, i32), Option<(i32, i32)>) {
    if !cell.revealed {
        (
            SPRITE_HIDDEN,
            if cell.flag {
                Some(SPRITE_FLAG)
            } else {
                None
            },
        )
    } else {
        (
            SPRITE_0,
            match cell.contents {
                CellContents::Empty(nb) => if nb != 0 {
                    Some(number_sprite(nb as int))
                } else {
                    None
                },
                CellContents::Mine => Some(SPRITE_MINE),
            },
        )
    }
}

/// The sprite under a cell and the one over it, if any.
pub fn cell_sprites(cell: &Cell) -> (r: ((i32, i32), Option<(i32, i32)>))
    ensures
        r == cell_sprites_spec(*cell),
{
    let bckg = if !cell.revealed { SPRITE_HIDDEN } else { SPRITE_0 };
    if !cell.revealed {
        if cell.flag {
            (bckg, Some(SPRITE_FLAG))
        } else {
            (bckg, None)
        }
    } else {
        match cell.contents {
            CellContents::Empty(nb) => {
                if nb != 0 {
                    let m: i64 = nb as i64 - 1;
                    (bckg, Some(((m % 4) as i32, (m / 4) as i32)))
                } else {
                    (bckg, None)
                }
            },
            CellContents::Mine => (bckg, Some(SPRITE_MINE)),
        }
    }
}

/// A chunk as contracts see it: its place among the chunks, and its cells
/// row by row.
pub ghost struct ChunkView {
    pub position: Vec2i,
    pub cells: Seq<Cell>,
}

/// The place in `cells` of the cell in column `x` of row `y`.
pub open spec fn cell_index(x: int, y: int) -> int {
    x + y * 16
}

/// Whether column `x` and row `y` name a cell of a chunk.
pub open spec fn in_chunk(x: int, y: int) -> bool {
    0 <= x < 16 && 0 <= y < 16
}

/// Whether `(x, y)` is a cell of the chunk that holds a mine.
pub open spec fn is_mine_at(cells: Seq<Cell>, x: int, y: int) -> bool {
    in_chunk(x, y) && cells[cell_index(x, y)].contents is Mine
}

/// 1 where `(x, y)` is a cell of the chunk that holds a mine, else 0.
pub open spec fn mine_at(cells: Seq<Cell>, x: int, y: int) -> int {
    if is_mine_at(cells, x, y) {
        1
    } else {
        0
    }
}

/// The number of mines in the up to eight cells of the chunk around `(x, y)`.
#[verifier::opaque]
pub open spec fn mines_around(cells: Seq<Cell>, x: int, y: int) -> int {
    mine_at(cells, x - 1, y - 1) + mine_at(cells, x, y - 1) + mine_at(cells, x + 1, y - 1)
        + mine_at(cells, x - 1, y) + mine_at(cells, x + 1, y) + mine_at(cells, x - 1, y + 1)
        + mine_at(cells, x, y + 1) + mine_at(cells, x + 1, y + 1)
}

/// Every cell without a mine counts the mines around it.
pub open spec fn counts_consistent(cells: Seq<Cell>) -> bool {
    forall|x: int, y: int|
        in_chunk(x, y) ==> (#[trigger] cells[cell_index(x, y)].contents matches CellContents::Empty(
            n,
        ) ==> n == mines_around(cells, x, y))
}

/// The number of mines among the first `n` cells.
pub open spec fn mine_count(cells: Seq<Cell>, n: nat) -> nat
    decreases n,
{
    if n == 0 {
        0
    } else {
        mine_count(cells, (n - 1) as nat) + (if cells[n - 1].contents is Mine {
            1nat
        } else {
            0nat
        })
    }
}

/// Whether `(x2, y2)` is one of the cells around `(x, y)`.
pub open spec fn is_neighbour(x: int, y: int, x2: int, y2: int) -> bool {
    &&& x - 1 <= x2 <= x + 1
    &&& y - 1 <= y2 <= y + 1
    &&& !(x2 == x && y2 == y)
}

/// The cell with one more mine around it; a mine stays as it is.
pub open spec fn bumped(c: Cell) -> Cell {
    match c.contents {
        CellContents::Empty(n) => Cell { contents: CellContents::Empty((n + 1) as i32), ..c },
        CellContents::Mine => c,
    }
}

/// Cell `i` after a mine was placed at `(x, y)`: the cell itself holds the
/// mine, and the cells around it count one mine more.
pub open spec fn cell_after_mine(cells: Seq<Cell>, x: int, y: int, i: int) -> Cell {
    if i == cell_index(x, y) {
        Cell { contents: CellContents::Mine, ..cells[i] }
    } else if is_neighbour(x, y, i % 16, i / 16) {
        bumped(cells[i])
    } else {
        cells[i]
    }
}

/// The cells after a mine was placed at `(x, y)`.
pub open spec fn cells_after_mine(cells: Seq<Cell>, x: int, y: int) -> Seq<Cell> {
    Seq::new(cells.len(), |i: int| cell_after_mine(cells, x, y, i))
}

/// The cells with every mine revealed.
pub open spec fn cells_with_mines_shown(cells: Seq<Cell>) -> Seq<Cell> {
    Seq::new(
        cells.len(),
        |i: int|
            if cells[i].contents is Mine {
                Cell { revealed: true, ..cells[i] }
            } else {
                cells[i]
            },
    )
}

/// Whether a mine can be placed at `(x, y)`: no counter around it is at its limit.
pub open spec fn can_place_mine(cells: Seq<Cell>, x: int, y: int) -> bool {
    forall|i: int|
        0 <= i < cells.len() && is_neighbour(x, y, i % 16, i / 16) ==> (
        #[trigger] cells[i].contents matches CellContents::Empty(n) ==> n < i32::MAX)
}

/// No cell is revealed or carries a flag.
pub open spec fn all_hidden(cells: Seq<Cell>) -> bool {
    forall|i: int| 0 <= i < cells.len() ==> !(#[trigger] cells[i]).revealed && !cells[i].flag
}

/// Placing a mine on a cell without one keeps the counts right, and is
/// possible wherever the counts were right.
pub proof fn lemma_place_mine_keeps_counts(cells: Seq<Cell>, x: int, y: int)
    requires
        cells.len() == CHUNK_LEN,
        in_chunk(x, y),
        counts_consistent(cells),
        !(cells[cell_index(x, y)].contents is Mine),
    ensures
        can_place_mine(cells, x, y),
        counts_consistent(cells_after_mine(cells, x, y)),
{
    let after = cells_after_mine(cells, x, y);
    lemma_counts_allow_mine(cells, x, y);
    assert forall|u: int, v: int| in_chunk(u, v) implies (
    #[trigger] after[cell_index(u, v)].contents matches CellContents::Empty(n) ==> n
        == mines_around(after, u, v)) by {
        lemma_count_after(cells, x, y, u, v);
    }
}

/// Where the counts are right, a mine can be placed anywhere.
pub proof fn lemma_counts_allow_mine(cells: Seq<Cell>, x: int, y: int)
    requires
        cells.len() == CHUNK_LEN,
        counts_consistent(cells),
    ensures
        can_place_mine(cells, x, y),
{
    assert forall|i: int| 0 <= i < cells.len() && is_neighbour(x, y, i % 16, i / 16) implies (
    #[trigger] cells[i].contents matches CellContents::Empty(n) ==> n < i32::MAX) by {
        let u = i % 16;
        let v = i / 16;
        assert(i == cell_index(u, v));
        assert(in_chunk(u, v));
        lemma_count_in_range(cells, u, v);
    }
}

/// A right count is 8 at most.
proof fn lemma_count_in_range(cells: Seq<Cell>, u: int, v: int)
    requires
        in_chunk(u, v),
        counts_consistent(cells),
    ensures
        cells[cell_index(u, v)].contents matches CellContents::Empty(n) ==> 0 <= n <= 8,
{
    lemma_around_in_range(cells, u, v);
}

/// There are 8 mines around a cell at most.
pub proof fn lemma_around_in_range(cells: Seq<Cell>, u: int, v: int)
    ensures
        0 <= mines_around(cells, u, v) <= 8,
{
    reveal(mines_around);
}

/// The count of one cell stays right when a mine is placed on a cell without one.
proof fn lemma_count_after(cells: Seq<Cell>, x: int, y: int, u: int, v: int)
    requires
        cells.len() == CHUNK_LEN,
        in_chunk(x, y),
        in_chunk(u, v),
        counts_consistent(cells),
        !(cells[cell_index(x, y)].contents is Mine),
    ensures
        cells_after_mine(cells, x, y)[cell_index(u, v)].contents matches CellContents::Empty(n)
            ==> n == mines_around(cells_after_mine(cells, x, y), u, v),
{
    let after = cells_after_mine(cells, x, y);
    let i = cell_index(u, v);
    assert(i % 16 == u && i / 16 == v);
    assert(after[i] == cell_after_mine(cells, x, y, i));
    lemma_count_in_range(cells, u, v);
    lemma_around_after(cells, x, y, u, v);
    if let CellContents::Empty(n) = cells[i].contents {
        assert(n == mines_around(cells, u, v));
    }
}

/// After a mine was placed at `(x, y)`, on a cell without one, the mines
/// are those of before and the new one.
proof fn lemma_mine_at_after(cells: Seq<Cell>, x: int, y: int, u: int, v: int)
    requires
        cells.len() == CHUNK_LEN,
        in_chunk(x, y),
        !(cells[cell_index(x, y)].contents is Mine),
    ensures
        mine_at(cells_after_mine(cells, x, y), u, v) == mine_at(cells, u, v) + (if u == x && v == y {
            1int
        } else {
            0int
        }),
{
    if in_chunk(u, v) {
        let i = cell_index(u, v);
        assert(i % 16 == u && i / 16 == v);
        assert(cells_after_mine(cells, x, y)[i] == cell_after_mine(cells, x, y, i));
    }
}

/// After a mine was placed at `(x, y)`, on a cell without one, the cells
/// around it have one mine more around them, and no other cell has.
proof fn lemma_around_after(cells: Seq<Cell>, x: int, y: int, u: int, v: int)
    requires
        cells.len() == CHUNK_LEN,
        in_chunk(x, y),
        !(cells[cell_index(x, y)].contents is Mine),
    ensures
        mines_around(cells_after_mine(cells, x, y), u, v) == mines_around(cells, u, v) + (
        if is_neighbour(x, y, u, v) {
            1int
        } else {
            0int
        }),
{
    reveal(mines_around);
    lemma_mine_at_after(cells, x, y, u - 1, v - 1);
    lemma_mine_at_after(cells, x, y, u, v - 1);
    lemma_mine_at_after(cells, x, y, u + 1, v - 1);
    lemma_mine_at_after(cells, x, y, u - 1, v);
    lemma_mine_at_after(cells, x, y, u + 1, v);
    lemma_mine_at_after(cells, x, y, u - 1, v + 1);
    lemma_mine_at_after(cells, x, y, u, v + 1);
    lemma_mine_at_after(cells, x, y, u + 1, v + 1);
}

/// The cells of `b` hold what those of `a` hold: a mine or a count.
pub open spec fn same_contents(a: Seq<Cell>, b: Seq<Cell>) -> bool {
    &&& a.len() == b.len()
    &&& forall|i: int| 0 <= i < a.len() ==> (#[trigger] b[i]).contents == a[i].contents
}

/// Counts that are right stay right while the cells hold what they held.
pub proof fn lemma_same_contents_counts(a: Seq<Cell>, b: Seq<Cell>)
    requires
        a.len() == CHUNK_LEN,
        same_contents(a, b),
        counts_consistent(a),
    ensures
        counts_consistent(b),
{
    assert forall|x: int, y: int| in_chunk(x, y) implies (
    #[trigger] b[cell_index(x, y)].contents matches CellContents::Empty(n) ==> n == mines_around(
        b,
        x,
        y,
    )) by {
        lemma_same_contents_around(a, b, x, y);
        assert(b[cell_index(x, y)].contents == a[cell_index(x, y)].contents);
    }
}

/// Cells that hold what they held have as many mines around them.
proof fn lemma_same_contents_around(a: Seq<Cell>, b: Seq<Cell>, x: int, y: int)
    requires
        a.len() == CHUNK_LEN,
        same_contents(a, b),
    ensures
        mines_around(b, x, y) == mines_around(a, x, y),
{
    reveal(mines_around);
    assert forall|u: int, v: int| mine_at(b, u, v) == mine_at(a, u, v) by {
        if in_chunk(u, v) {
            assert(b[cell_index(u, v)].contents == a[cell_index(u, v)].contents);
        }
    }
}

/// Where each of the first `n` cells holds a mine, there are `n` to count.
proof fn lemma_all_mines(cells: Seq<Cell>, n: nat)
    requires
        n <= cells.len(),
        forall|i: int| 0 <= i < n ==> (#[trigger] cells[i]).contents is Mine,
    ensures
        mine_count(cells, n) == n,
    decreases n,
{
    if n > 0 {
        lemma_all_mines(cells, (n - 1) as nat);
    }
}

/// Where no cell holds a mine, there are none to count.
proof fn lemma_no_mines(cells: Seq<Cell>, n: nat)
    requires
        n <= cells.len(),
        forall|i: int| 0 <= i < cells.len() ==> !((#[trigger] cells[i]).contents is Mine),
    ensures
        mine_count(cells, n) == 0,
    decreases n,
{
    if n > 0 {
        lemma_no_mines(cells, (n - 1) as nat);
    }
}

/// Placing a mine on a cell without one makes one mine more.
pub proof fn lemma_place_mine_counts_one(cells: Seq<Cell>, x: int, y: int, n: nat)
    requires
        cells.len() == CHUNK_LEN,
        in_chunk(x, y),
        !(cells[cell_index(x, y)].contents is Mine),
        n <= CHUNK_LEN,
    ensures
        mine_count(cells_after_mine(cells, x, y), n) == mine_count(cells, n) + (if cell_index(x, y)
            < n {
            1nat
        } else {
            0nat
        }),
    decreases n,
{
    if n > 0 {
        lemma_place_mine_counts_one(cells, x, y, (n - 1) as nat);
        let i = n - 1;
        assert(cells_after_mine(cells, x, y)[i] == cell_after_mine(cells, x, y, i));
    }
}

/// `rand::random::<u32>()`: a number from the thread's random generator.
/// Nothing is claimed of it.
#[verifier::external_body]
fn random_u32() -> u32 {
    rand::random::<u32>()
}

/// A chunk of the mine field.
pub struct Chunk {
    elems: Vec<Cell>,
    position: Vec2i,
}

impl View for Chunk {
    type V = ChunkView;

    closed spec fn view(&self) -> ChunkView {
        ChunkView { position: self.position, cells: self.elems@ }
    }
}

impl Chunk {
    /// A chunk has `CHUNK_LEN` cells.
    pub open spec fn wf(&self) -> bool {
        self@.cells.len() == CHUNK_LEN
    }

    /// The place of the cell in column `x` of row `y`.
    pub fn idx(x: u32, y: u32) -> (r: usize)
        requires
            x + y * CHUNK_SIZE <= u32::MAX,
        ensures
            r == cell_index(x as int, y as int),
    {
        (x + y * CHUNK_SIZE) as usize
    }

    /// The chunk's place among the chunks.
    pub fn position(&self) -> (r: Vec2i)
        ensures
            r == self@.position,
    {
        self.position
    }

    /// A chunk at `position` without a mine, every cell hidden.
    pub fn empty(position: Vec2i) -> (r: Chunk)
        ensures
            r.wf(),
            r@.position == position,
            forall|i: int|
                0 <= i < CHUNK_LEN ==> #[trigger] r@.cells[i] == (Cell {
                    revealed: false,
                    flag: false,
                    contents: CellContents::Empty(0),
                }),
    {
        let mut elems: Vec<Cell> = Vec::new();
        let mut i: usize = 0;
        while i < CHUNK_LEN
            invariant
                i <= CHUNK_LEN,
                elems.len() == i,
                forall|j: int|
                    0 <= j < i ==> #[trigger] elems@[j] == (Cell {
                        revealed: false,
                        flag: false,
                        contents: CellContents::Empty(0),
                    }),
            decreases CHUNK_LEN - i,
        {
            elems.push(Cell::default());
            i = i + 1;
        }
        Chunk { elems, position }
    }

    /// A chunk at `position` with `nb_mines` mines, placed by chance; with
    /// a mine on every cell where `nb_mines` is `CHUNK_LEN` or more.
    ///
    /// Each mine goes to a cell that two random numbers name; where that cell
    /// holds a mine already, two more are drawn. After `u64::MAX` vain draws
    /// the mine goes to the first cell without one.
    pub fn new(position: Vec2i, nb_mines: u32) -> (r: Chunk)
        ensures
            r.wf(),
            r@.position == position,
            all_hidden(r@.cells),
            counts_consistent(r@.cells),
            mine_count(r@.cells, CHUNK_LEN as nat) == (if nb_mines <= CHUNK_LEN {
                nb_mines as int
            } else {
                CHUNK_LEN as int
            }),
    {
        let mut result = Chunk::empty(position);
        proof {
            assert forall|x: int, y: int| in_chunk(x, y) implies (
            #[trigger] result@.cells[cell_index(x, y)].contents matches CellContents::Empty(n) ==> n
                == mines_around(result@.cells, x, y)) by {
                reveal(mines_around);
            }
            lemma_no_mines(result@.cells, CHUNK_LEN as nat);
        }
        let wanted: u32 = if nb_mines <= CHUNK_LEN as u32 { nb_mines } else { CHUNK_LEN as u32 };
        let mut m: u32 = 0;
        while m < wanted
            invariant
                m <= wanted <= CHUNK_LEN,
                result.wf(),
                result@.position == position,
                all_hidden(result@.cells),
                counts_consistent(result@.cells),
                mine_count(result@.cells, CHUNK_LEN as nat) == m,
            decreases wanted - m,
        {
            let mut tries: u64 = u64::MAX;
            let mut placed = false;
            while tries > 0 && !placed
                invariant
                    m < wanted <= CHUNK_LEN,
                    result.wf(),
                    result@.position == position,
                    all_hidden(result@.cells),
                    counts_consistent(result@.cells),
                    mine_count(result@.cells, CHUNK_LEN as nat) == m + (if placed {
                        1int
                    } else {
                        0int
                    }),
                decreases tries,
            {
                tries = tries - 1;
                let x = random_u32() % CHUNK_SIZE;
                let y = random_u32() % CHUNK_SIZE;
                proof {
                    lemma_counts_allow_mine(result@.cells, x as int, y as int);
                }
                placed = result.place_drawn_mine(x, y);
            }
            let mut i: u32 = 0;
            while i < CHUNK_LEN as u32
                invariant
                    i <= CHUNK_LEN,
                    m < wanted <= CHUNK_LEN,
                    result.wf(),
                    result@.position == position,
                    all_hidden(result@.cells),
                    counts_consistent(result@.cells),
                    mine_count(result@.cells, CHUNK_LEN as nat) == m + (if placed {
                        1int
                    } else {
                        0int
                    }),
                    !placed ==> forall|j: int| 0 <= j < i ==> (#[trigger] result@.cells[j]).contents is Mine,
                decreases CHUNK_LEN - i,
            {
                if !placed {
                    proof {
                        lemma_counts_allow_mine(
                            result@.cells,
                            (i % CHUNK_SIZE) as int,
                            (i / CHUNK_SIZE) as int,
                        );
                        assert(cell_index((i % CHUNK_SIZE) as int, (i / CHUNK_SIZE) as int) == i);
                    }
                    placed = result.place_drawn_mine(i % CHUNK_SIZE, i / CHUNK_SIZE);
                }
                i = i + 1;
            }
            proof {
                if !placed {
                    lemma_all_mines(result@.cells, CHUNK_LEN as nat);
                }
            }
            m = m + 1;
        }
        result
    }

    /// Puts a mine at `(x, y)` unless the cell holds one, and says whether it did.
    pub fn place_drawn_mine(&mut self, x: u32, y: u32) -> (placed: bool)
        requires
            old(self).wf(),
            x < CHUNK_SIZE,
            y < CHUNK_SIZE,
            can_place_mine(old(self)@.cells, x as int, y as int),
        ensures
            final(self)@.position == old(self)@.position,
            placed == !(old(self)@.cells[cell_index(x as int, y as int)].contents is Mine),
            final(self)@.cells == (if placed {
                cells_after_mine(old(self)@.cells, x as int, y as int)
            } else {
                old(self)@.cells
            }),
            final(self).wf(),
            counts_consistent(old(self)@.cells) ==> counts_consistent(final(self)@.cells),
            all_hidden(old(self)@.cells) ==> all_hidden(final(self)@.cells),
            mine_count(final(self)@.cells, CHUNK_LEN as nat) == mine_count(
                old(self)@.cells,
                CHUNK_LEN as nat,
            ) + (if placed {
                1int
            } else {
                0int
            }),
    {
        let idx = Chunk::idx(x, y);
        match self.elems[idx].contents {
            CellContents::Mine => false,
            _ => {
                proof {
                    if counts_consistent(self@.cells) {
                        lemma_place_mine_keeps_counts(self@.cells, x as int, y as int);
                    }
                    lemma_place_mine_counts_one(self@.cells, x as int, y as int, CHUNK_LEN as nat);
                }
                self.place_mine(x, y);
                true
            },
        }
    }

    /// Puts a mine at `(x, y)` and lets the cells around it count it.
    pub fn place_mine(&mut self, x: u32, y: u32)
        requires
            old(self).wf(),
            x < CHUNK_SIZE,
            y < CHUNK_SIZE,
            can_place_mine(old(self)@.cells, x as int, y as int),
        ensures
            final(self)@.position == old(self)@.position,
            final(self)@.cells == cells_after_mine(old(self)@.cells, x as int, y as int),
    {
        let idx = Chunk::idx(x, y);
        self.elems[idx].contents = CellContents::Mine;
        let start_x: u32 = if x == 0 { 0 } else { x - 1 };
        let end_x: u32 = if x == CHUNK_SIZE - 1 { CHUNK_SIZE - 1 } else { x + 1 };
        let start_y: u32 = if y == 0 { 0 } else { y - 1 };
        let end_y: u32 = if y == CHUNK_SIZE - 1 { CHUNK_SIZE - 1 } else { y + 1 };
        let ghost before = old(self)@.cells;
        let mut x2: u32 = start_x;
        while x2 <= end_x
            invariant
                before.len() == CHUNK_LEN,
                self.elems@.len() == CHUNK_LEN,
                self.position == old(self).position,
                x < CHUNK_SIZE,
                y < CHUNK_SIZE,
                start_x == (if x == 0 { 0 } else { x - 1 }),
                end_x == (if x == 15 { 15 } else { x + 1 }),
                start_y == (if y == 0 { 0 } else { y - 1 }),
                end_y == (if y == 15 { 15 } else { y + 1 }),
                start_x <= x2 <= end_x + 1,
                can_place_mine(before, x as int, y as int),
                forall|i: int|
                    0 <= i < CHUNK_LEN ==> #[trigger] self.elems@[i] == (if i % 16 < x2 {
                        cell_after_mine(before, x as int, y as int, i)
                    } else if i == cell_index(x as int, y as int) {
                        Cell { contents: CellContents::Mine, ..before[i] }
                    } else {
                        before[i]
                    }),
            decreases end_x + 1 - x2,
        {
            let mut y2: u32 = start_y;
            while y2 <= end_y
                invariant
                    before.len() == CHUNK_LEN,
                    self.elems@.len() == CHUNK_LEN,
                    self.position == old(self).position,
                    x < CHUNK_SIZE,
                    y < CHUNK_SIZE,
                    start_x == (if x == 0 { 0 } else { x - 1 }),
                    end_x == (if x == 15 { 15 } else { x + 1 }),
                    start_y == (if y == 0 { 0 } else { y - 1 }),
                    end_y == (if y == 15 { 15 } else { y + 1 }),
                    start_x <= x2 <= end_x,
                    start_y <= y2 <= end_y + 1,
                    can_place_mine(before, x as int, y as int),
                    forall|i: int|
                        0 <= i < CHUNK_LEN ==> #[trigger] self.elems@[i] == (if i % 16 < x2 || (i
                            % 16 == x2 && i / 16 < y2) {
                            cell_after_mine(before, x as int, y as int, i)
                        } else if i == cell_index(x as int, y as int) {
                            Cell { contents: CellContents::Mine, ..before[i] }
                        } else {
                            before[i]
                        }),
                decreases end_y + 1 - y2,
            {
                if !(x2 == x && y2 == y) {
                    let idx = Chunk::idx(x2, y2);
                    assert(is_neighbour(x as int, y as int, idx as int % 16, idx as int / 16));
                    if let CellContents::Empty(nb) = self.elems[idx].contents {
                        self.elems[idx].contents = CellContents::Empty(nb + 1);
                    }
                }
                y2 = y2 + 1;
            }
            x2 = x2 + 1;
        }
        assert(self.elems@ =~= cells_after_mine(before, x as int, y as int));
    }

    /// Reveals every mine of the chunk.
    pub fn show_all_mines(&mut self)
        requires
            old(self).wf(),
        ensures
            final(self)@.position == old(self)@.position,
            final(self)@.cells == cells_with_mines_shown(old(self)@.cells),
    {
        let mut i: usize = 0;
        while i < CHUNK_LEN
            invariant
                i <= CHUNK_LEN,
                self.elems@.len() == CHUNK_LEN,
                old(self).elems@.len() == CHUNK_LEN,
                self.position == old(self).position,
                forall|j: int|
                    0 <= j < i ==> #[trigger] self.elems@[j] == cells_with_mines_shown(
                        old(self).elems@,
                    )[j],
                forall|j: int| i <= j < CHUNK_LEN ==> #[trigger] self.elems@[j] == old(self).elems@[j],
            decreases CHUNK_LEN - i,
        {
            if let CellContents::Mine = self.elems[i].contents {
                self.elems[i].revealed = true;
            }
            i = i + 1;
        }
        assert(self.elems@ =~= cells_with_mines_shown(old(self).elems@));
    }

    /// The cell in column `pos.0` of row `pos.1`, if there is one.
    pub fn get_cell(&self, pos: (u32, u32)) -> (r: Option<&Cell>)
        requires
            self.wf(),
        ensures
            r is Some <==> in_chunk(pos.0 as int, pos.1 as int),
            r matches Some(c) ==> *c == self@.cells[cell_index(pos.0 as int, pos.1 as int)],
    {
        if pos.0 >= CHUNK_SIZE || pos.1 >= CHUNK_SIZE {
            return None;
        }
        let i = Chunk::idx(pos.0, pos.1);
        Some(&self.elems[i])
    }

    /// The cell at the place `pos.0 + 16 * pos.1`, if the chunk has as many
    /// cells, to be changed.
    pub fn get_cell_mut(&mut self, pos: (u32, u32)) -> (r: Option<&mut Cell>)
        requires
            old(self).wf(),
            pos.0 + pos.1 * CHUNK_SIZE <= u32::MAX,
        ensures
            r is Some <==> cell_index(pos.0 as int, pos.1 as int) < CHUNK_LEN,
            r is None ==> final(self)@ == old(self)@,
            r matches Some(c) ==> *c == old(self)@.cells[cell_index(pos.0 as int, pos.1 as int)]
                && final(self)@.position == old(self)@.position && final(self)@.cells == old(self)@.cells.update(cell_index(pos.0 as int, pos.1 as int), *final(c)),
    {
        let i = Chunk::idx(pos.0, pos.1);
        if i < self.elems.len() {
            Some(&mut self.elems[i])
        } else {
            None
        }
    }
}

} // verus!
