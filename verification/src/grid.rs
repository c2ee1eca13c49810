//! The mine field: the chunks that exist, and what is done to their cells.

use vstd::prelude::*;
use crate::camera::Camera;
use crate::chunk::{Cell, CellContents, Chunk, ChunkView, CHUNK_LEN, CHUNK_SIZE};
use crate::field::{
    beside, cell_at, chunk_index, flood_beside, flood_in_range, floods, grid_wf, has_chunk,
    is_first_chunk_at, is_grown, is_more_revealed, is_new_chunk, is_updated, kept_chunks,
    lemma_chunk_index, lemma_flood_only_reveals, lemma_grown_has_chunk, lemma_kept_wf,
    lemma_reveal_only_reveals, lemma_with_cell_keeps_places, lemma_with_cell_wf,
    missing_in_column, missing_places, place_from, reveal_recurse_spec, reveal_spec, with_cell,
    with_flag_turned, with_mines_shown, with_revealed, FLOOD_DEPTH, MINES_PER_CHUNK,
};
use crate::vector::Vec2i;

verus! {

/// The mine field.
pub struct Grid {
    chunks: Vec<Chunk>,
}

impl View for Grid {
    type V = Seq<ChunkView>;

    closed spec fn view(&self) -> Seq<ChunkView> {
        Seq::new(self.chunks@.len(), |i: int| self.chunks@[i]@)
    }
}

impl Grid {
    /// Every chunk is well formed.
    pub open spec fn wf(&self) -> bool {
        grid_wf(self@)
    }

    /// A field without a chunk.
    pub fn new() -> (r: Grid)
        ensures
            r@ == Seq::<ChunkView>::empty(),
    {
        let r = Grid { chunks: Vec::new() };
        assert(r@ =~= Seq::<ChunkView>::empty());
        r
    }

    /// The chunks, in their order.
    pub fn chunks(&self) -> (r: &Vec<Chunk>)
        ensures
            r@.len() == self@.len(),
            forall|i: int| 0 <= i < r@.len() ==> (#[trigger] r@[i])@ == self@[i],
    {
        &self.chunks
    }

    /// The index of the first chunk at `chunk_coord`.
    fn find_index(&self, chunk_coord: Vec2i) -> (r: Option<usize>)
        ensures
            r is Some <==> has_chunk(self@, chunk_coord),
            r matches Some(i) ==> i == chunk_index(self@, chunk_coord) && i < self.chunks.len()
                && is_first_chunk_at(self@, chunk_coord, i as int),
    {
        let mut i: usize = 0;
        while i < self.chunks.len()
            invariant
                i <= self.chunks.len(),
                forall|j: int| 0 <= j < i ==> (#[trigger] self@[j]).position != chunk_coord,
            decreases self.chunks.len() - i,
        {
            if self.chunks[i].position() == chunk_coord {
                proof {
                    lemma_chunk_index(self@, chunk_coord, i as int);
                }
                return Some(i);
            }
            i = i + 1;
        }
        None
    }

    /// The first chunk at `chunk_coord`.
    pub fn find_chunk(&self, chunk_coord: Vec2i) -> (r: Option<&Chunk>)
        ensures
            r is Some <==> has_chunk(self@, chunk_coord),
            r matches Some(c) ==> ({
                let i = chunk_index(self@, chunk_coord);
                &&& 0 <= i < self@.len()
                &&& c@ == self@[i]
                &&& c@.position == chunk_coord
            }),
    {
        match self.find_index(chunk_coord) {
            Some(i) => Some(&self.chunks[i]),
            None => None,
        }
    }

    /// The first chunk at `chunk_coord`, to be changed.
    pub fn find_chunk_mut(&mut self, chunk_coord: Vec2i) -> (r: Option<&mut Chunk>)
        ensures
            r is Some <==> has_chunk(old(self)@, chunk_coord),
            r is None ==> final(self)@ == old(self)@,
            r matches Some(c) ==> ({
                let i = chunk_index(old(self)@, chunk_coord);
                &&& 0 <= i < old(self)@.len()
                &&& c@ == old(self)@[i]
                &&& c@.position == chunk_coord
                &&& final(self)@ =~= old(self)@.update(i, final(c)@)
            }),
    {
        match self.find_index(chunk_coord) {
            Some(i) => Some(&mut self.chunks[i]),
            None => None,
        }
    }

    /// The cell at `pos`, if there is one.
    pub fn get_cell(&self, pos: Vec2i) -> (r: Option<&Cell>)
        requires
            self.wf(),
        ensures
            r is Some <==> cell_at(self@, pos) is Some,
            r matches Some(c) ==> cell_at(self@, pos) == Some(*c),
    {
        let coord = Vec2i { x: pos.x / (CHUNK_SIZE as i32), y: pos.y / (CHUNK_SIZE as i32) };
        let chunk = self.find_chunk(coord)?;
        let x = pos.x - chunk.position().x * (CHUNK_SIZE as i32);
        let y = pos.y - chunk.position().y * (CHUNK_SIZE as i32);
        if x < 0 || y < 0 {
            return None;
        }
        chunk.get_cell((x as u32, y as u32))
    }

    /// The cell at `pos`, if there is one, to be changed.
    pub fn get_cell_mut(&mut self, pos: Vec2i) -> (r: Option<&mut Cell>)
        requires
            old(self).wf(),
        ensures
            r is Some <==> cell_at(old(self)@, pos) is Some,
            r is None ==> final(self)@ == old(self)@,
            r matches Some(c) ==> cell_at(old(self)@, pos) == Some(*c) && final(self)@ =~= with_cell(
                old(self)@,
                pos,
                *final(c),
            ),
    {
        let coord = Vec2i { x: pos.x / (CHUNK_SIZE as i32), y: pos.y / (CHUNK_SIZE as i32) };
        let chunk = self.find_chunk_mut(coord)?;
        let x = pos.x - chunk.position().x * (CHUNK_SIZE as i32);
        let y = pos.y - chunk.position().y * (CHUNK_SIZE as i32);
        if x < 0 || y < 0 {
            return None;
        }
        chunk.get_cell_mut((x as u32, y as u32))
    }

    /// Turns the flag of the cell at `pos`, if there is one.
    pub fn flag(&mut self, pos: Vec2i)
        requires
            old(self).wf(),
        ensures
            final(self)@ == with_flag_turned(old(self)@, pos),
            final(self).wf(),
    {
        if let Some(cell) = self.get_cell_mut(pos) {
            cell.flag = !cell.flag;
        }
        proof {
            lemma_with_cell_wf(old(self)@, pos);
        }
    }

    /// Reveals the cell at `pos` and says whether it held a mine. Where
    /// neither the cell nor a cell around it holds a mine, the hidden cells
    /// about it are revealed too, as `reveal_recurse` does from depth 0.
    pub fn reveal_at(&mut self, pos: Vec2i) -> (r: bool)
        requires
            old(self).wf(),
            cell_at(old(self)@, pos) is Some,
            cell_at(old(self)@, pos)->0.contents == CellContents::Empty(0) ==> flood_in_range(
                pos,
                FLOOD_DEPTH as int,
            ),
        ensures
            (final(self)@, r) == reveal_spec(old(self)@, pos),
            r == (cell_at(old(self)@, pos)->0.contents is Mine),
            !r ==> is_more_revealed(old(self)@, final(self)@),
            final(self).wf(),
    {
        proof {
            if !(cell_at(old(self)@, pos)->0.contents is Mine) {
                lemma_reveal_only_reveals(old(self)@, pos);
            }
        }
        let cell = self.get_cell_mut(pos).unwrap();
        cell.revealed = true;
        let contents = cell.contents;
        proof {
            lemma_with_cell_wf(old(self)@, pos);
        }
        if let CellContents::Mine = contents {
            return true;
        }
        if let CellContents::Empty(x) = contents {
            if x != 0 {
                return false;
            }
        }
        proof {
            lemma_with_cell_keeps_places(
                old(self)@,
                pos,
                Cell { revealed: true, ..cell_at(old(self)@, pos)->0 },
                pos,
            );
        }
        self.reveal_recurse(pos, 0);
        false
    }

    /// Lets the flood pass through the cell at `pos`, `depth` steps from
    /// where it started.
    pub fn reveal_recurse(&mut self, pos: Vec2i, depth: u32)
        requires
            old(self).wf(),
            depth < FLOOD_DEPTH ==> cell_at(old(self)@, pos) is Some && flood_in_range(
                pos,
                FLOOD_DEPTH - depth,
            ),
        ensures
            final(self)@ == reveal_recurse_spec(old(self)@, pos, depth as nat),
            (cell_at(old(self)@, pos) matches Some(c) ==> c.contents is Empty) ==> is_more_revealed(
                old(self)@,
                final(self)@,
            ),
            final(self).wf(),
        decreases FLOOD_DEPTH - depth,
    {
        proof {
            if cell_at(old(self)@, pos) matches Some(c) ==> c.contents is Empty {
                lemma_flood_only_reveals(old(self)@, pos, depth as nat);
            }
        }
        if depth >= FLOOD_DEPTH {
            return;
        }
        let cell = self.get_cell_mut(pos).unwrap();
        cell.revealed = true;
        proof {
            lemma_with_cell_wf(old(self)@, pos);
        }
        let ghost start = self@;
        let mut k: u32 = 0;
        while k < 4
            invariant
                k <= 4,
                depth < FLOOD_DEPTH,
                flood_in_range(pos, FLOOD_DEPTH - depth),
                self.wf(),
                start == with_revealed(old(self)@, pos),
                self@ == flood_beside(start, pos, depth as nat, k as nat),
            decreases 4 - k,
        {
            let p = beside_cell(pos, k);
            let visit = match self.get_cell(p) {
                Some(c) => check_cell(c),
                None => false,
            };
            if visit {
                self.reveal_recurse(p, depth + 1);
            }
            k = k + 1;
        }
    }

    /// Brings the field up to what the camera keeps: the chunks outside
    /// leave, and a new chunk is made for every place without one.
    pub fn update_chunks(&mut self, camera: &Camera)
        requires
            old(self).wf(),
            camera.wf(),
        ensures
            is_updated(old(self)@, final(self)@, camera.min_extent(), camera.max_extent()),
            final(self).wf(),
    {
        let (min_extent, max_extent) = camera.extent();
        let ghost j: nat = 0;
        let mut i: usize = 0;
        while i < self.chunks.len()
            invariant
                i <= self.chunks.len(),
                j <= old(self)@.len(),
                self.chunks.len() - i == old(self)@.len() - j,
                self@.take(i as int) == kept_chunks(old(self)@, min_extent, max_extent, j),
                self@.skip(i as int) == old(self)@.skip(j as int),
                grid_wf(old(self)@),
            decreases self.chunks.len() - i,
        {
            let p = self.chunks[i].position();
            let ghost before = self@;
            assert(before[i as int] == before.skip(i as int)[0]);
            assert(before[i as int] == old(self)@[j as int]);
            if p.x >= min_extent.x && p.x <= max_extent.x && p.y >= min_extent.y && p.y
                <= max_extent.y {
                i = i + 1;
                assert(self@.take(i as int) =~= before.take(i - 1).push(before[i - 1]));
                assert(self@.skip(i as int) =~= old(self)@.skip(j as int + 1)) by {
                    assert forall|k: int| 0 <= k < self@.len() - i implies self@.skip(i as int)[k]
                        == old(self)@.skip(j as int + 1)[k] by {
                        assert(before.skip(i - 1)[k + 1] == old(self)@.skip(j as int)[k + 1]);
                    }
                }
            } else {
                self.chunks.remove(i);
                assert(self@ =~= before.remove(i as int));
                assert(self@.take(i as int) =~= before.take(i as int));
                assert(self@.skip(i as int) =~= old(self)@.skip(j as int + 1)) by {
                    assert forall|k: int| 0 <= k < self@.len() - i implies self@.skip(i as int)[k]
                        == old(self)@.skip(j as int + 1)[k] by {
                        assert(before.skip(i as int)[k + 1] == old(self)@.skip(j as int)[k + 1]);
                    }
                }
            }
            proof {
                j = j + 1;
            }
        }
        let ghost kept = self@;
        assert(kept =~= self@.take(i as int));
        assert(j == old(self)@.len());
        assert(grid_wf(kept)) by {
            lemma_kept_wf(old(self)@, min_extent, max_extent, j);
        }
        let ghost rows: nat = (max_extent.y - min_extent.y + 1) as nat;
        let mut x: i32 = min_extent.x;
        while x <= max_extent.x
            invariant
                min_extent.x <= x <= max_extent.x + 1,
                min_extent.y <= max_extent.y < i32::MAX,
                max_extent.x < i32::MAX,
                rows == max_extent.y - min_extent.y + 1,
                grid_wf(kept),
                is_grown(
                    kept,
                    self@,
                    missing_places(kept, min_extent, rows, (x - min_extent.x) as nat),
                ),
                forall|k: int|
                    0 <= k < missing_places(kept, min_extent, rows, (x - min_extent.x) as nat).len()
                        ==> (#[trigger] missing_places(
                        kept,
                        min_extent,
                        rows,
                        (x - min_extent.x) as nat,
                    )[k]).x < x,
            decreases max_extent.x + 1 - x,
        {
            let ghost done = missing_places(kept, min_extent, rows, (x - min_extent.x) as nat);
            let mut y: i32 = min_extent.y;
            while y <= max_extent.y
                invariant
                    min_extent.x <= x <= max_extent.x,
                    min_extent.y <= y <= max_extent.y + 1,
                    max_extent.y < i32::MAX,
                    rows == max_extent.y - min_extent.y + 1,
                    grid_wf(kept),
                    done == missing_places(kept, min_extent, rows, (x - min_extent.x) as nat),
                    forall|k: int| 0 <= k < done.len() ==> (#[trigger] done[k]).x < x,
                    is_grown(
                        kept,
                        self@,
                        done + missing_in_column(
                            kept,
                            min_extent,
                            x - min_extent.x,
                            (y - min_extent.y) as nat,
                        ),
                    ),
                    forall|k: int|
                        0 <= k < missing_in_column(
                            kept,
                            min_extent,
                            x - min_extent.x,
                            (y - min_extent.y) as nat,
                        ).len() ==> (#[trigger] missing_in_column(
                            kept,
                            min_extent,
                            x - min_extent.x,
                            (y - min_extent.y) as nat,
                        )[k]).x == x && missing_in_column(
                            kept,
                            min_extent,
                            x - min_extent.x,
                            (y - min_extent.y) as nat,
                        )[k].y < y,
                decreases max_extent.y + 1 - y,
            {
                let pos = Vec2i::new(x, y);
                let ghost column = missing_in_column(
                    kept,
                    min_extent,
                    x - min_extent.x,
                    (y - min_extent.y) as nat,
                );
                let ghost before = self@;
                proof {
                    assert(pos == place_from(min_extent, x - min_extent.x, y - min_extent.y));
                    lemma_grown_has_chunk(kept, before, done + column, pos);
                }
                if let Some(_) = self.find_chunk(pos) {
                } else {
                    let chunk = Chunk::new(pos, MINES_PER_CHUNK);
                    self.chunks.push(chunk);
                    assert(self@ =~= before.push(chunk@));
                    assert(done + column.push(pos) =~= (done + column).push(pos));
                }
                y = y + 1;
            }
            x = x + 1;
        }
        proof {
            let missing = missing_places(kept, min_extent, rows, (x - min_extent.x) as nat);
            assert(self@.take(kept.len() as int) =~= kept);
            assert forall|k: int| 0 <= k < self@.len() implies (#[trigger] self@[k]).cells.len()
                == CHUNK_LEN by {
                if k < kept.len() {
                    assert(self@[k] == kept[k]);
                } else {
                    assert(is_new_chunk(self@[kept.len() + (k - kept.len())], missing[k - kept.len()]));
                }
            }
        }
    }

    /// Reveals every mine of the field.
    pub fn show_all_mines(&mut self)
        requires
            old(self).wf(),
        ensures
            final(self)@ == with_mines_shown(old(self)@),
            final(self).wf(),
    {
        let n = self.chunks.len();
        let mut i: usize = 0;
        while i < n
            invariant
                n == self.chunks.len(),
                self@.len() == old(self)@.len(),
                i <= n,
                grid_wf(old(self)@),
                forall|j: int| 0 <= j < i ==> #[trigger] self@[j] == with_mines_shown(old(self)@)[j],
                forall|j: int| i <= j < n ==> #[trigger] self@[j] == old(self)@[j],
            decreases n - i,
        {
            let ghost before = self@;
            assert(before[i as int] == self.chunks@[i as int]@);
            self.chunks[i].show_all_mines();
            assert forall|j: int| 0 <= j < n implies #[trigger] self@[j] == (if j == i {
                with_mines_shown(old(self)@)[j]
            } else {
                before[j]
            }) by {
                assert(self@[j] == self.chunks@[j]@);
            }
            i = i + 1;
        }
        assert(self@ =~= with_mines_shown(old(self)@));
    }

}

/// The `k`-th of the four cells beside `pos`.
fn beside_cell(pos: Vec2i, k: u32) -> (r: Vec2i)
    requires
        k < 4,
        flood_in_range(pos, 1),
    ensures
        r == beside(pos, k as int),
{
    if k == 0 {
        Vec2i { x: pos.x - 1, y: pos.y }
    } else if k == 1 {
        Vec2i { x: pos.x + 1, y: pos.y }
    } else if k == 2 {
        Vec2i { x: pos.x, y: pos.y - 1 }
    } else {
        Vec2i { x: pos.x, y: pos.y + 1 }
    }
}

/// Whether the flood goes on into `cell`.
fn check_cell(cell: &Cell) -> (r: bool)
    ensures
        r == floods(*cell),
{
    if cell.revealed == true {
        return false;
    }
    match cell.contents {
        CellContents::Empty(_) => true,
        CellContents::Mine => false,
    }
}

} // verus!
