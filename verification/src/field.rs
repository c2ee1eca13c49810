//! The mine field as contracts see it: the chunks in their order, the cells
//! found through them, and what choosing a cell, turning a flag and moving
//! the camera make of it.

use vstd::prelude::*;
use crate::camera::trunc_div;
use crate::chunk::{
    all_hidden, cell_index, cells_with_mines_shown, counts_consistent, in_chunk,
    lemma_same_contents_counts, mine_count, same_contents, Cell, CellContents, ChunkView,
    CHUNK_LEN,
};
use crate::vector::Vec2i;

verus! {

/// The place of the chunk in which the cell at `pos` is looked for: each
/// coordinate divided by 16 and rounded towards zero.
pub open spec fn chunk_coord(pos: Vec2i) -> Vec2i {
    Vec2i { x: trunc_div(pos.x as int, 16) as i32, y: trunc_div(pos.y as int, 16) as i32 }
}

/// Whether some chunk lies at `coord`.
pub open spec fn has_chunk(g: Seq<ChunkView>, coord: Vec2i) -> bool {
    exists|i: int| 0 <= i < g.len() && (#[trigger] g[i]).position == coord
}

/// Chunk `i` is the first that lies at `coord`.
pub open spec fn is_first_chunk_at(g: Seq<ChunkView>, coord: Vec2i, i: int) -> bool {
    &&& 0 <= i < g.len()
    &&& g[i].position == coord
    &&& forall|j: int| 0 <= j < i ==> (#[trigger] g[j]).position != coord
}

/// The index of the first chunk that lies at `coord`.
pub open spec fn chunk_index(g: Seq<ChunkView>, coord: Vec2i) -> int {
    choose|i: int| is_first_chunk_at(g, coord, i)
}

/// Where the cell at `pos` is kept: the index of its chunk and its place
/// among the chunk's cells. There is none where no chunk lies at
/// `chunk_coord(pos)`, and none where `pos` lies to the left of that chunk
/// or below it, as it does for a negative coordinate that 16 does not divide.
pub open spec fn cell_place(g: Seq<ChunkView>, pos: Vec2i) -> Option<(int, int)> {
    let coord = chunk_coord(pos);
    let x = pos.x - coord.x * 16;
    let y = pos.y - coord.y * 16;
    if has_chunk(g, coord) && in_chunk(x, y) {
        Some((chunk_index(g, coord), cell_index(x, y)))
    } else {
        None
    }
}

/// The cell at `pos`, if there is one.
pub open spec fn cell_at(g: Seq<ChunkView>, pos: Vec2i) -> Option<Cell> {
    match cell_place(g, pos) {
        Some((i, k)) => Some(g[i].cells[k]),
        None => None,
    }
}

/// The field with `c` for the cell at `pos`; the field itself where there is no such cell.
pub open spec fn with_cell(g: Seq<ChunkView>, pos: Vec2i, c: Cell) -> Seq<ChunkView> {
    match cell_place(g, pos) {
        Some((i, k)) => g.update(i, ChunkView { cells: g[i].cells.update(k, c), ..g[i] }),
        None => g,
    }
}

/// Every chunk has `CHUNK_LEN` cells.
pub open spec fn grid_wf(g: Seq<ChunkView>) -> bool {
    forall|i: int| 0 <= i < g.len() ==> (#[trigger] g[i]).cells.len() == CHUNK_LEN
}

/// No two chunks lie at one place.
pub open spec fn distinct_places(g: Seq<ChunkView>) -> bool {
    forall|i: int, j: int|
        0 <= i < j < g.len() ==> (#[trigger] g[i]).position != (#[trigger] g[j]).position
}

/// In every chunk, every cell without a mine counts the mines around it.
pub open spec fn counts_right(g: Seq<ChunkView>) -> bool {
    forall|i: int| 0 <= i < g.len() ==> counts_consistent((#[trigger] g[i]).cells)
}

/// The field with the flag of the cell at `pos` turned.
pub open spec fn with_flag_turned(g: Seq<ChunkView>, pos: Vec2i) -> Seq<ChunkView> {
    match cell_at(g, pos) {
        Some(c) => with_cell(g, pos, Cell { flag: !c.flag, ..c }),
        None => g,
    }
}

/// The field with every mine revealed.
pub open spec fn with_mines_shown(g: Seq<ChunkView>) -> Seq<ChunkView> {
    Seq::new(
        g.len(),
        |i: int| ChunkView { cells: cells_with_mines_shown(g[i].cells), ..g[i] },
    )
}

/// The field with the cell at `pos` revealed.
pub open spec fn with_revealed(g: Seq<ChunkView>, pos: Vec2i) -> Seq<ChunkView> {
    match cell_at(g, pos) {
        Some(c) => with_cell(g, pos, Cell { revealed: true, ..c }),
        None => g,
    }
}

/// Whether the flood goes on into a cell: it is hidden and holds no mine.
pub open spec fn floods(c: Cell) -> bool {
    !c.revealed && c.contents is Empty
}

/// The `k`-th of the four cells beside `pos`: to the left, to the right,
/// below, above.
pub open spec fn beside(pos: Vec2i, k: int) -> Vec2i {
    if k == 0 {
        Vec2i { x: (pos.x - 1) as i32, y: pos.y }
    } else if k == 1 {
        Vec2i { x: (pos.x + 1) as i32, y: pos.y }
    } else if k == 2 {
        Vec2i { x: pos.x, y: (pos.y - 1) as i32 }
    } else {
        Vec2i { x: pos.x, y: (pos.y + 1) as i32 }
    }
}

/// The deepest that the flood goes from the cell where it starts.
pub const FLOOD_DEPTH: u32 = 8;

/// Whether the flood can reach every cell within `reach` steps of `pos`
/// without leaving the range of the coordinates.
pub open spec fn flood_in_range(pos: Vec2i, reach: int) -> bool {
    &&& i32::MIN + reach <= pos.x <= i32::MAX - reach
    &&& i32::MIN + reach <= pos.y <= i32::MAX - reach
}

/// The field after the flood has passed through the cell at `pos`, `depth`
/// steps from where it started: the cell is revealed, and the flood goes on,
/// one after the other, into those of the four cells beside it that are
/// hidden and hold no mine when their turn comes. At `FLOOD_DEPTH` it stops.
pub open spec fn reveal_recurse_spec(g: Seq<ChunkView>, pos: Vec2i, depth: nat) -> Seq<ChunkView>
    decreases FLOOD_DEPTH - depth, 5nat,
{
    if depth >= FLOOD_DEPTH {
        g
    } else {
        flood_beside(with_revealed(g, pos), pos, depth, 4)
    }
}

/// The field after the flood has been offered the first `k` cells beside `pos`.
pub open spec fn flood_beside(g: Seq<ChunkView>, pos: Vec2i, depth: nat, k: nat) -> Seq<ChunkView>
    decreases FLOOD_DEPTH - depth, k,
{
    if k == 0 || depth >= FLOOD_DEPTH {
        g
    } else {
        let h = flood_beside(g, pos, depth, (k - 1) as nat);
        let p = beside(pos, k - 1);
        match cell_at(h, p) {
            Some(c) => if floods(c) {
                reveal_recurse_spec(h, p, depth + 1)
            } else {
                h
            },
            None => h,
        }
    }
}

/// The field after the cell at `pos` was chosen, and whether it held a mine:
/// the cell is revealed, and where neither it nor a cell around it holds a
/// mine, the flood starts from it.
pub open spec fn reveal_spec(g: Seq<ChunkView>, pos: Vec2i) -> (Seq<ChunkView>, bool) {
    let h = with_revealed(g, pos);
    match cell_at(g, pos) {
        Some(c) => match c.contents {
            CellContents::Mine => (h, true),
            CellContents::Empty(n) => if n != 0 {
                (h, false)
            } else {
                (reveal_recurse_spec(h, pos, 0), false)
            },
        },
        None => (g, false),
    }
}

/// The number of mines that a new chunk is given.
pub const MINES_PER_CHUNK: u32 = 25;

/// Whether the chunk place `p` lies between `min` and `max` on both axes.
pub open spec fn in_extent(p: Vec2i, min: Vec2i, max: Vec2i) -> bool {
    &&& min.x <= p.x <= max.x
    &&& min.y <= p.y <= max.y
}

/// Those of the first `n` chunks that lie between `min` and `max`, in their order.
pub open spec fn kept_chunks(g: Seq<ChunkView>, min: Vec2i, max: Vec2i, n: nat) -> Seq<ChunkView>
    decreases n,
{
    if n == 0 {
        Seq::empty()
    } else {
        let k = kept_chunks(g, min, max, (n - 1) as nat);
        if in_extent(g[n - 1].position, min, max) {
            k.push(g[n - 1])
        } else {
            k
        }
    }
}

/// The place `dx` columns and `dy` rows from `min`.
pub open spec fn place_from(min: Vec2i, dx: int, dy: int) -> Vec2i {
    Vec2i { x: (min.x + dx) as i32, y: (min.y + dy) as i32 }
}

/// Those of the first `n` places of column `dx`, counted from `min`, at
/// which no chunk of `kept` lies, from the bottom up.
pub open spec fn missing_in_column(kept: Seq<ChunkView>, min: Vec2i, dx: int, n: nat) -> Seq<Vec2i>
    decreases n,
{
    if n == 0 {
        Seq::empty()
    } else {
        let m = missing_in_column(kept, min, dx, (n - 1) as nat);
        let p = place_from(min, dx, n - 1);
        if has_chunk(kept, p) {
            m
        } else {
            m.push(p)
        }
    }
}

/// The places of the first `cols` columns of `rows` places each, counted
/// from `min`, at which no chunk of `kept` lies: column after column, each
/// from the bottom up.
pub open spec fn missing_places(kept: Seq<ChunkView>, min: Vec2i, rows: nat, cols: nat) -> Seq<
    Vec2i,
>
    decreases cols,
{
    if cols == 0 {
        Seq::empty()
    } else {
        missing_places(kept, min, rows, (cols - 1) as nat) + missing_in_column(
            kept,
            min,
            cols - 1,
            rows,
        )
    }
}

/// A chunk as it is made for the place `p`: every cell hidden,
/// `MINES_PER_CHUNK` mines, and the counts right.
pub open spec fn is_new_chunk(c: ChunkView, p: Vec2i) -> bool {
    &&& c.position == p
    &&& c.cells.len() == CHUNK_LEN
    &&& all_hidden(c.cells)
    &&& counts_consistent(c.cells)
    &&& mine_count(c.cells, CHUNK_LEN as nat) == MINES_PER_CHUNK
}

/// The field `new` is the field `old` brought up to the places from `min`
/// to `max`: the chunks of `old` that lie there are kept, in their order,
/// and behind them stands a new chunk for every place without one.
pub open spec fn is_updated(old: Seq<ChunkView>, new: Seq<ChunkView>, min: Vec2i, max: Vec2i) -> bool {
    let kept = kept_chunks(old, min, max, old.len());
    let missing = missing_places(
        kept,
        min,
        (max.y - min.y + 1) as nat,
        (max.x - min.x + 1) as nat,
    );
    &&& new.len() == kept.len() + missing.len()
    &&& new.take(kept.len() as int) == kept
    &&& forall|j: int|
        0 <= j < missing.len() ==> is_new_chunk(#[trigger] new[kept.len() + j], missing[j])
}

/// The field `now` holds the chunks of `kept`, and behind them a new chunk
/// for every place of `added`.
pub open spec fn is_grown(kept: Seq<ChunkView>, now: Seq<ChunkView>, added: Seq<Vec2i>) -> bool {
    &&& now.len() == kept.len() + added.len()
    &&& forall|k: int| 0 <= k < kept.len() ==> #[trigger] now[k] == kept[k]
    &&& forall|k: int| 0 <= k < added.len() ==> is_new_chunk(#[trigger] now[kept.len() + k], added[k])
}

/// The chunks of `h` lie where those of `g` lie, and their cells hold what
/// those of `g` hold.
pub open spec fn same_field(g: Seq<ChunkView>, h: Seq<ChunkView>) -> bool {
    &&& h.len() == g.len()
    &&& forall|i: int|
        0 <= i < g.len() ==> (#[trigger] h[i]).position == g[i].position && same_contents(
            g[i].cells,
            h[i].cells,
        )
}

/// The field `h` is the field `g` with some more cells revealed: the chunks
/// lie where they lay, no flag and no content has changed, no cell is
/// hidden again, and no mine is among the cells newly revealed.
pub open spec fn is_more_revealed(g: Seq<ChunkView>, h: Seq<ChunkView>) -> bool {
    &&& h.len() == g.len()
    &&& forall|i: int|
        0 <= i < g.len() ==> (#[trigger] h[i]).position == g[i].position && h[i].cells.len()
            == g[i].cells.len()
    &&& forall|i: int, k: int|
        0 <= i < g.len() && 0 <= k < g[i].cells.len() ==> ({
            let c = g[i].cells[k];
            let d = #[trigger] h[i].cells[k];
            &&& d.flag == c.flag
            &&& d.contents == c.contents
            &&& c.revealed ==> d.revealed
            &&& d.revealed && !c.revealed ==> d.contents is Empty
        })
}

/// Where a chunk lies at `coord`, `chunk_index` names the first that does.
pub proof fn lemma_first_chunk(g: Seq<ChunkView>, coord: Vec2i)
    requires
        has_chunk(g, coord),
    ensures
        is_first_chunk_at(g, coord, chunk_index(g, coord)),
{
    let i = choose|i: int| 0 <= i < g.len() && (#[trigger] g[i]).position == coord;
    let j = lemma_least_chunk(g, coord, i);
}

/// Before any chunk at `coord` there is a first one.
proof fn lemma_least_chunk(g: Seq<ChunkView>, coord: Vec2i, i: int) -> (j: int)
    requires
        0 <= i < g.len(),
        g[i].position == coord,
    ensures
        is_first_chunk_at(g, coord, j),
        j <= i,
    decreases i,
{
    if exists|k: int| 0 <= k < i && (#[trigger] g[k]).position == coord {
        let k = choose|k: int| 0 <= k < i && (#[trigger] g[k]).position == coord;
        lemma_least_chunk(g, coord, k)
    } else {
        i
    }
}

/// The first chunk at `coord` is the one that `chunk_index` names.
pub proof fn lemma_chunk_index(g: Seq<ChunkView>, coord: Vec2i, i: int)
    requires
        is_first_chunk_at(g, coord, i),
    ensures
        has_chunk(g, coord),
        chunk_index(g, coord) == i,
{
    let j = chunk_index(g, coord);
    assert(is_first_chunk_at(g, coord, j));
    assert(g[i].position == coord && g[j].position == coord);
}

/// Two fields whose chunks lie at the same places find the same chunk at `coord`.
pub proof fn lemma_same_positions(g: Seq<ChunkView>, h: Seq<ChunkView>, coord: Vec2i)
    requires
        g.len() == h.len(),
        forall|i: int| 0 <= i < g.len() ==> (#[trigger] g[i]).position == h[i].position,
    ensures
        has_chunk(g, coord) == has_chunk(h, coord),
        has_chunk(g, coord) ==> chunk_index(g, coord) == chunk_index(h, coord),
{
    if has_chunk(g, coord) {
        let i = choose|i: int| 0 <= i < g.len() && (#[trigger] g[i]).position == coord;
        assert(h[i].position == coord);
    }
    if has_chunk(h, coord) {
        let i = choose|i: int| 0 <= i < h.len() && (#[trigger] h[i]).position == coord;
        assert(g[i].position == coord);
    }
    if has_chunk(g, coord) {
        lemma_first_chunk(g, coord);
        let i = chunk_index(g, coord);
        assert(h[i].position == coord);
        assert forall|j: int| 0 <= j < i implies (#[trigger] h[j]).position != coord by {
            assert(g[j].position != coord);
        }
        lemma_chunk_index(h, coord, i);
    }
}

/// Changing a cell leaves every chunk with as many cells as it had.
pub proof fn lemma_with_cell_wf(g: Seq<ChunkView>, pos: Vec2i)
    requires
        grid_wf(g),
    ensures
        forall|c: Cell| grid_wf(#[trigger] with_cell(g, pos, c)),
{
    assert forall|c: Cell| grid_wf(#[trigger] with_cell(g, pos, c)) by {
        let h = with_cell(g, pos, c);
        if cell_place(g, pos) is Some {
            lemma_first_chunk(g, chunk_coord(pos));
        }
        assert forall|i: int| 0 <= i < h.len() implies (#[trigger] h[i]).cells.len()
            == CHUNK_LEN by {
            assert(g[i].cells.len() == CHUNK_LEN);
        }
    }
}

/// Changing a cell moves no cell: every cell is kept where it was.
pub proof fn lemma_with_cell_keeps_places(g: Seq<ChunkView>, pos: Vec2i, c: Cell, other: Vec2i)
    requires
        grid_wf(g),
    ensures
        cell_place(with_cell(g, pos, c), other) == cell_place(g, other),
        cell_at(with_cell(g, pos, c), other) == (if other == pos && cell_place(g, pos) is Some {
            Some(c)
        } else {
            cell_at(g, other)
        }),
{
    let h = with_cell(g, pos, c);
    if cell_place(g, pos) is Some {
        lemma_first_chunk(g, chunk_coord(pos));
        lemma_same_positions(g, h, chunk_coord(other));
        if cell_place(g, other) is Some {
            lemma_first_chunk(g, chunk_coord(other));
        }
    }
}

/// A field that holds what a field held has no two chunks at one place
/// where that had none.
pub proof fn lemma_same_field_distinct(g: Seq<ChunkView>, h: Seq<ChunkView>)
    requires
        same_field(g, h),
        distinct_places(g),
    ensures
        distinct_places(h),
{
    assert forall|i: int, j: int| 0 <= i < j < h.len() implies (#[trigger] h[i]).position != (
    #[trigger] h[j]).position by {
        assert(g[i].position != g[j].position);
    }
}

/// Changing what is seen of a cell, and not what it holds, leaves the field
/// with what it held.
pub proof fn lemma_with_cell_same_field(g: Seq<ChunkView>, pos: Vec2i, c: Cell)
    requires
        grid_wf(g),
        cell_at(g, pos) matches Some(d) ==> c.contents == d.contents,
    ensures
        same_field(g, with_cell(g, pos, c)),
{
    let h = with_cell(g, pos, c);
    if cell_place(g, pos) is Some {
        lemma_first_chunk(g, chunk_coord(pos));
    }
    assert forall|i: int| 0 <= i < g.len() implies (#[trigger] h[i]).position == g[i].position
        && same_contents(g[i].cells, h[i].cells) by {
        assert(g[i].cells.len() == CHUNK_LEN);
    }
}

/// "Holds what it held" carries over.
pub proof fn lemma_same_field_chain(g: Seq<ChunkView>, h: Seq<ChunkView>, j: Seq<ChunkView>)
    requires
        same_field(g, h),
        same_field(h, j),
    ensures
        same_field(g, j),
{
    assert forall|i: int| 0 <= i < g.len() implies (#[trigger] j[i]).position == g[i].position
        && same_contents(g[i].cells, j[i].cells) by {
        assert(h[i].position == g[i].position);
        assert forall|k: int| 0 <= k < g[i].cells.len() implies (#[trigger] j[i].cells[k]).contents
            == g[i].cells[k].contents by {
            assert(h[i].cells[k].contents == g[i].cells[k].contents);
        }
    }
}

/// Counts that are right stay right while the cells hold what they held.
pub proof fn lemma_same_field_counts(g: Seq<ChunkView>, h: Seq<ChunkView>)
    requires
        grid_wf(g),
        same_field(g, h),
        counts_right(g),
    ensures
        counts_right(h),
{
    assert forall|i: int| 0 <= i < h.len() implies counts_consistent((#[trigger] h[i]).cells) by {
        assert(g[i].cells.len() == CHUNK_LEN);
        assert(counts_consistent(g[i].cells));
        assert(h[i].position == g[i].position);
        lemma_same_contents_counts(g[i].cells, h[i].cells);
    }
}

/// Turning a flag leaves the field with what it held.
pub proof fn lemma_flag_same_field(g: Seq<ChunkView>, pos: Vec2i)
    requires
        grid_wf(g),
    ensures
        same_field(g, with_flag_turned(g, pos)),
{
    match cell_at(g, pos) {
        Some(c) => {
            lemma_with_cell_same_field(g, pos, Cell { flag: !c.flag, ..c });
        },
        None => {
            assert forall|i: int| 0 <= i < g.len() implies same_contents(
                (#[trigger] g[i]).cells,
                g[i].cells,
            ) by {}
        },
    }
}

/// Showing the mines leaves the field with what it held.
pub proof fn lemma_mines_shown_same_field(g: Seq<ChunkView>)
    ensures
        same_field(g, with_mines_shown(g)),
{
    let h = with_mines_shown(g);
    assert forall|i: int| 0 <= i < g.len() implies (#[trigger] h[i]).position == g[i].position
        && same_contents(g[i].cells, h[i].cells) by {
        assert forall|k: int| 0 <= k < g[i].cells.len() implies (#[trigger] h[i].cells[k]).contents
            == g[i].cells[k].contents by {}
    }
}

/// A field is more revealed than itself, and "more revealed" carries over.
pub proof fn lemma_more_revealed_chain(g: Seq<ChunkView>, h: Seq<ChunkView>, j: Seq<ChunkView>)
    requires
        is_more_revealed(g, h),
        is_more_revealed(h, j),
    ensures
        is_more_revealed(g, g),
        is_more_revealed(g, j),
{
    assert forall|i: int| 0 <= i < g.len() implies (#[trigger] j[i]).position == g[i].position
        && j[i].cells.len() == g[i].cells.len() by {
        assert(h[i].position == g[i].position);
    }
    assert forall|i: int, k: int| 0 <= i < g.len() && 0 <= k < g[i].cells.len() implies {
        let c = g[i].cells[k];
        let d = #[trigger] j[i].cells[k];
        &&& d.flag == c.flag
        &&& d.contents == c.contents
        &&& c.revealed ==> d.revealed
        &&& d.revealed && !c.revealed ==> d.contents is Empty
    } by {
        assert(h[i].position == g[i].position);
        let e = h[i].cells[k];
        assert(e.flag == g[i].cells[k].flag);
    }
}

/// A more revealed field holds what the field held.
pub proof fn lemma_more_revealed_same_field(g: Seq<ChunkView>, h: Seq<ChunkView>)
    requires
        is_more_revealed(g, h),
    ensures
        same_field(g, h),
{
    assert forall|i: int| 0 <= i < g.len() implies (#[trigger] h[i]).position == g[i].position
        && same_contents(g[i].cells, h[i].cells) by {
        assert(h[i].cells.len() == g[i].cells.len());
        assert forall|k: int| 0 <= k < g[i].cells.len() implies (#[trigger] h[i].cells[k]).contents
            == g[i].cells[k].contents by {}
    }
}

/// Revealing a cell without a mine makes the field more revealed.
pub proof fn lemma_with_revealed(g: Seq<ChunkView>, pos: Vec2i)
    requires
        grid_wf(g),
        cell_at(g, pos) matches Some(c) ==> c.contents is Empty,
    ensures
        is_more_revealed(g, with_revealed(g, pos)),
{
    let h = with_revealed(g, pos);
    if cell_place(g, pos) is Some {
        lemma_first_chunk(g, chunk_coord(pos));
    }
    assert forall|i: int, k: int| 0 <= i < g.len() && 0 <= k < g[i].cells.len() implies {
        let c = g[i].cells[k];
        let d = #[trigger] h[i].cells[k];
        &&& d.flag == c.flag
        &&& d.contents == c.contents
        &&& c.revealed ==> d.revealed
        &&& d.revealed && !c.revealed ==> d.contents is Empty
    } by {
        assert(g[i].cells.len() == CHUNK_LEN);
    }
}

/// The flood reveals cells and does nothing else; it reveals no mine.
pub proof fn lemma_flood_only_reveals(g: Seq<ChunkView>, pos: Vec2i, depth: nat)
    requires
        grid_wf(g),
        cell_at(g, pos) matches Some(c) ==> c.contents is Empty,
    ensures
        is_more_revealed(g, reveal_recurse_spec(g, pos, depth)),
        grid_wf(reveal_recurse_spec(g, pos, depth)),
    decreases FLOOD_DEPTH - depth, 5nat,
{
    if depth < FLOOD_DEPTH {
        let h = with_revealed(g, pos);
        lemma_with_revealed(g, pos);
        lemma_with_cell_wf(g, pos);
        lemma_flood_beside_only_reveals(h, pos, depth, 4);
        lemma_more_revealed_chain(g, h, flood_beside(h, pos, depth, 4));
    } else {
        lemma_more_revealed_chain(g, g, g);
    }
}

/// The same of the flood through the first `k` cells beside `pos`.
pub proof fn lemma_flood_beside_only_reveals(g: Seq<ChunkView>, pos: Vec2i, depth: nat, k: nat)
    requires
        grid_wf(g),
    ensures
        is_more_revealed(g, flood_beside(g, pos, depth, k)),
        grid_wf(flood_beside(g, pos, depth, k)),
    decreases FLOOD_DEPTH - depth, k,
{
    if k == 0 || depth >= FLOOD_DEPTH {
        lemma_more_revealed_chain(g, g, g);
    } else {
        let h = flood_beside(g, pos, depth, (k - 1) as nat);
        lemma_flood_beside_only_reveals(g, pos, depth, (k - 1) as nat);
        let p = beside(pos, k - 1);
        match cell_at(h, p) {
            Some(c) => {
                if floods(c) {
                    lemma_flood_only_reveals(h, p, depth + 1);
                    lemma_more_revealed_chain(g, h, reveal_recurse_spec(h, p, depth + 1));
                }
            },
            None => {},
        }
    }
}

/// Choosing a cell reveals cells and does nothing else, and where the cell
/// holds no mine, no mine is revealed.
pub proof fn lemma_reveal_only_reveals(g: Seq<ChunkView>, pos: Vec2i)
    requires
        grid_wf(g),
        cell_at(g, pos) matches Some(c) ==> c.contents is Empty,
    ensures
        is_more_revealed(g, reveal_spec(g, pos).0),
        !reveal_spec(g, pos).1,
{
    let h = with_revealed(g, pos);
    lemma_with_revealed(g, pos);
    lemma_with_cell_wf(g, pos);
    lemma_more_revealed_chain(g, g, g);
    match cell_at(g, pos) {
        Some(c) => {
            lemma_with_cell_keeps_places(g, pos, Cell { revealed: true, ..c }, pos);
            lemma_flood_only_reveals(h, pos, 0);
            lemma_more_revealed_chain(g, h, reveal_recurse_spec(h, pos, 0));
        },
        None => {},
    }
}

/// Choosing a cell leaves the field with what it held.
pub proof fn lemma_reveal_same_field(g: Seq<ChunkView>, pos: Vec2i)
    requires
        grid_wf(g),
    ensures
        same_field(g, reveal_spec(g, pos).0),
        grid_wf(reveal_spec(g, pos).0),
{
    let h = with_revealed(g, pos);
    match cell_at(g, pos) {
        Some(c) => {
            lemma_with_cell_same_field(g, pos, Cell { revealed: true, ..c });
            lemma_with_cell_wf(g, pos);
            if c.contents == CellContents::Empty(0) {
                lemma_with_cell_keeps_places(g, pos, Cell { revealed: true, ..c }, pos);
                lemma_flood_only_reveals(h, pos, 0);
                lemma_more_revealed_same_field(h, reveal_recurse_spec(h, pos, 0));
                lemma_same_field_chain(g, h, reveal_recurse_spec(h, pos, 0));
            }
        },
        None => {
            assert(same_field(g, g)) by {
                assert forall|i: int| 0 <= i < g.len() implies same_contents(
                    (#[trigger] g[i]).cells,
                    g[i].cells,
                ) by {}
            }
        },
    }
}

/// The chunks that are kept have as many cells as they had.
pub proof fn lemma_kept_wf(g: Seq<ChunkView>, min: Vec2i, max: Vec2i, n: nat)
    requires
        grid_wf(g),
        n <= g.len(),
    ensures
        grid_wf(kept_chunks(g, min, max, n)),
    decreases n,
{
    if n > 0 {
        lemma_kept_wf(g, min, max, (n - 1) as nat);
        assert(g[n - 1].cells.len() == CHUNK_LEN);
    }
}

/// The chunks that are kept keep their counts.
proof fn lemma_kept_counts(g: Seq<ChunkView>, min: Vec2i, max: Vec2i, n: nat)
    requires
        counts_right(g),
        n <= g.len(),
    ensures
        counts_right(kept_chunks(g, min, max, n)),
    decreases n,
{
    if n > 0 {
        lemma_kept_counts(g, min, max, (n - 1) as nat);
        assert(counts_consistent(g[n - 1].cells));
    }
}

/// A field grown by chunks at other places than `pos` has a chunk at `pos`
/// exactly where it had one before.
pub proof fn lemma_grown_has_chunk(
    kept: Seq<ChunkView>,
    now: Seq<ChunkView>,
    added: Seq<Vec2i>,
    pos: Vec2i,
)
    requires
        is_grown(kept, now, added),
        forall|k: int| 0 <= k < added.len() ==> #[trigger] added[k] != pos,
    ensures
        has_chunk(now, pos) == has_chunk(kept, pos),
{
    if has_chunk(kept, pos) {
        let i = choose|i: int| 0 <= i < kept.len() && (#[trigger] kept[i]).position == pos;
        assert(now[i].position == pos);
    }
    if has_chunk(now, pos) {
        let i = choose|i: int| 0 <= i < now.len() && (#[trigger] now[i]).position == pos;
        if i < kept.len() {
            assert(kept[i].position == pos);
        } else {
            let k = i - kept.len();
            assert(is_new_chunk(now[kept.len() + k], added[k]));
            assert(added[k] != pos);
        }
    }
}

/// Bringing a field up to date keeps the counts right.
pub proof fn lemma_updated_counts(old: Seq<ChunkView>, new: Seq<ChunkView>, min: Vec2i, max: Vec2i)
    requires
        is_updated(old, new, min, max),
        counts_right(old),
    ensures
        counts_right(new),
{
    let kept = kept_chunks(old, min, max, old.len());
    let missing = missing_places(
        kept,
        min,
        (max.y - min.y + 1) as nat,
        (max.x - min.x + 1) as nat,
    );
    lemma_kept_counts(old, min, max, old.len());
    assert forall|i: int| 0 <= i < new.len() implies counts_consistent((#[trigger] new[i]).cells) by {
        if i < kept.len() {
            assert(new.take(kept.len() as int)[i] == new[i]);
            assert(counts_consistent(kept[i].cells));
        } else {
            assert(is_new_chunk(new[kept.len() + (i - kept.len())], missing[i - kept.len()]));
        }
    }
}

/// The chunks that are kept are chunks of the field, and no two of them lie
/// at one place where no two chunks of the field did.
pub proof fn lemma_kept_distinct(g: Seq<ChunkView>, min: Vec2i, max: Vec2i, n: nat)
    requires
        distinct_places(g),
        n <= g.len(),
    ensures
        distinct_places(kept_chunks(g, min, max, n)),
        forall|k: int|
            0 <= k < kept_chunks(g, min, max, n).len() ==> exists|i: int|
                0 <= i < n && #[trigger] kept_chunks(g, min, max, n)[k] == g[i],
    decreases n,
{
    if n > 0 {
        let before = kept_chunks(g, min, max, (n - 1) as nat);
        let kept = kept_chunks(g, min, max, n);
        lemma_kept_distinct(g, min, max, (n - 1) as nat);
        assert forall|k: int| 0 <= k < kept.len() implies exists|i: int|
            0 <= i < n && #[trigger] kept[k] == g[i] by {
            if k < before.len() {
                let i = choose|i: int| 0 <= i < n - 1 && before[k] == g[i];
                assert(kept[k] == g[i]);
            } else {
                assert(kept[k] == g[n - 1]);
            }
        }
        assert forall|i: int, j: int| 0 <= i < j < kept.len() implies (#[trigger] kept[i]).position
            != (#[trigger] kept[j]).position by {
            if j < before.len() {
                assert(before[i].position != before[j].position);
            } else {
                let o = choose|o: int| 0 <= o < n - 1 && before[i] == g[o];
                assert(g[o].position != g[n - 1].position);
            }
        }
    }
}

/// The places that are missing in a column lie in that column, one above
/// the other, and no kept chunk lies at any of them.
pub proof fn lemma_missing_in_column(kept: Seq<ChunkView>, min: Vec2i, dx: int, n: nat)
    requires
        i32::MIN <= min.x + dx <= i32::MAX,
        min.y + n - 1 <= i32::MAX,
    ensures
        forall|k: int|
            0 <= k < missing_in_column(kept, min, dx, n).len() ==> ({
                let p = #[trigger] missing_in_column(kept, min, dx, n)[k];
                &&& p.x == min.x + dx
                &&& min.y <= p.y < min.y + n
                &&& !has_chunk(kept, p)
            }),
        forall|j: int, k: int|
            0 <= j < k < missing_in_column(kept, min, dx, n).len() ==> (
            #[trigger] missing_in_column(kept, min, dx, n)[j]).y < (#[trigger] missing_in_column(
                kept,
                min,
                dx,
                n,
            )[k]).y,
    decreases n,
{
    if n > 0 {
        lemma_missing_in_column(kept, min, dx, (n - 1) as nat);
        let before = missing_in_column(kept, min, dx, (n - 1) as nat);
        let m = missing_in_column(kept, min, dx, n);
        let p = place_from(min, dx, n - 1);
        assert forall|k: int| 0 <= k < m.len() implies {
            let q = #[trigger] m[k];
            &&& q.x == min.x + dx
            &&& min.y <= q.y < min.y + n
            &&& !has_chunk(kept, q)
        } by {
            if k < before.len() {
                assert(m[k] == before[k]);
            }
        }
        assert forall|j: int, k: int| 0 <= j < k < m.len() implies (#[trigger] m[j]).y < (
        #[trigger] m[k]).y by {
            assert(m[j] == before[j]);
            if k < before.len() {
                assert(m[k] == before[k]);
            }
        }
    }
}

/// The places that are missing lie in the columns and rows that were asked
/// for, no two of them are one place, and no kept chunk lies at any of them.
pub proof fn lemma_missing_places(kept: Seq<ChunkView>, min: Vec2i, rows: nat, cols: nat)
    requires
        min.x + cols - 1 <= i32::MAX,
        min.y + rows - 1 <= i32::MAX,
    ensures
        forall|k: int|
            0 <= k < missing_places(kept, min, rows, cols).len() ==> ({
                let p = #[trigger] missing_places(kept, min, rows, cols)[k];
                &&& min.x <= p.x < min.x + cols
                &&& min.y <= p.y < min.y + rows
                &&& !has_chunk(kept, p)
            }),
        forall|j: int, k: int|
            0 <= j < k < missing_places(kept, min, rows, cols).len() ==> (
            #[trigger] missing_places(kept, min, rows, cols)[j]) != (#[trigger] missing_places(
                kept,
                min,
                rows,
                cols,
            )[k]),
    decreases cols,
{
    if cols > 0 {
        lemma_missing_places(kept, min, rows, (cols - 1) as nat);
        lemma_missing_in_column(kept, min, cols - 1, rows);
        let before = missing_places(kept, min, rows, (cols - 1) as nat);
        let column = missing_in_column(kept, min, cols - 1, rows);
        let m = missing_places(kept, min, rows, cols);
        assert(m == before + column);
        assert forall|k: int| 0 <= k < m.len() implies {
            let p = #[trigger] m[k];
            &&& min.x <= p.x < min.x + cols
            &&& min.y <= p.y < min.y + rows
            &&& !has_chunk(kept, p)
        } by {
            if k < before.len() {
                assert(m[k] == before[k]);
            } else {
                assert(m[k] == column[k - before.len()]);
            }
        }
        assert forall|j: int, k: int| 0 <= j < k < m.len() implies (#[trigger] m[j]) != (
        #[trigger] m[k]) by {
            if k < before.len() {
                assert(m[j] == before[j] && m[k] == before[k]);
            } else if j < before.len() {
                assert(m[j] == before[j] && m[k] == column[k - before.len()]);
                assert(before[j].x < min.x + cols - 1);
            } else {
                assert(m[j] == column[j - before.len()] && m[k] == column[k - before.len()]);
                assert(column[j - before.len()].y < column[k - before.len()].y);
            }
        }
    }
}

/// Bringing a field up to date leaves no two chunks at one place where
/// there were none.
pub proof fn lemma_updated_distinct(
    old: Seq<ChunkView>,
    new: Seq<ChunkView>,
    min: Vec2i,
    max: Vec2i,
)
    requires
        is_updated(old, new, min, max),
        distinct_places(old),
        min.x <= max.x,
        min.y <= max.y,
    ensures
        distinct_places(new),
{
    let kept = kept_chunks(old, min, max, old.len());
    let rows = (max.y - min.y + 1) as nat;
    let cols = (max.x - min.x + 1) as nat;
    let missing = missing_places(kept, min, rows, cols);
    lemma_kept_distinct(old, min, max, old.len());
    lemma_missing_places(kept, min, rows, cols);
    assert forall|i: int, j: int| 0 <= i < j < new.len() implies (#[trigger] new[i]).position != (
    #[trigger] new[j]).position by {
        let n = kept.len() as int;
        if j < n {
            assert(new.take(n)[i] == new[i] && new.take(n)[j] == new[j]);
            assert(kept[i].position != kept[j].position);
        } else if i < n {
            assert(new.take(n)[i] == new[i]);
            assert(is_new_chunk(new[n + (j - n)], missing[j - n]));
            assert(!has_chunk(kept, missing[j - n]));
            assert(kept[i].position != missing[j - n]);
        } else {
            assert(is_new_chunk(new[n + (i - n)], missing[i - n]));
            assert(is_new_chunk(new[n + (j - n)], missing[j - n]));
            assert(missing[i - n] != missing[j - n]);
        }
    }
}

} // verus!
