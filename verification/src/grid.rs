//! The playfield's cells, and which block of a block store fills each.

use vstd::prelude::*;
use crate::block::Block;
use crate::data::{cell_index, in_bounds, linear_index, BLOCKS, COLS, ROWS};

verus! {

/// A fixed sequence of `BLOCKS` handles, one per cell in the order of the
/// cells' linear indices. A handle is a position in a store of blocks that
/// may serve several playfields.
pub struct Grid {
    cells: Vec<usize>,
}

impl View for Grid {
    type V = Seq<usize>;

    closed spec fn view(&self) -> Seq<usize> {
        self.cells@
    }
}

/// Whether every cell of `grid` has its block in `blocks`: the handle lies in
/// the store, and the block found there names the cell as its own.
pub open spec fn indexes(grid: Seq<usize>, blocks: Seq<Block>) -> bool {
    &&& grid.len() == BLOCKS
    &&& forall|i: int|
        0 <= i < BLOCKS ==> 0 <= #[trigger] grid[i] < blocks.len() && blocks[grid[i] as int].id == i
}

/// Whether the block at handle `h` of the store fills a cell of `grid`.
pub open spec fn in_grid(grid: Seq<usize>, blocks: Seq<Block>, h: int) -> bool {
    &&& 0 <= h < blocks.len()
    &&& blocks[h].id < grid.len()
    &&& grid[blocks[h].id as int] == h
}

/// The block in the cell with linear index `i`.
pub open spec fn block_of(grid: Seq<usize>, blocks: Seq<Block>, i: int) -> Block {
    blocks[grid[i] as int]
}

/// The block in column `x` of row `y`.
pub open spec fn block_at(grid: Seq<usize>, blocks: Seq<Block>, x: int, y: int) -> Block {
    block_of(grid, blocks, cell_index(x, y))
}

/// No block fills two cells: where a grid indexes a store, two cells with one
/// handle are the same cell.
pub proof fn lemma_cells_have_their_own_block(grid: Seq<usize>, blocks: Seq<Block>, i: int, j: int)
    requires
        indexes(grid, blocks),
        0 <= i < BLOCKS,
        0 <= j < BLOCKS,
        grid[i] == grid[j],
    ensures
        i == j,
{
}

/// A handle fills a cell exactly if it is the handle of some cell, and the
/// cell is the one that the block names.
pub proof fn lemma_in_grid_iff_some_cell(grid: Seq<usize>, blocks: Seq<Block>, h: int)
    requires
        indexes(grid, blocks),
    ensures
        in_grid(grid, blocks, h) <==> exists|i: int| 0 <= i < BLOCKS && #[trigger] grid[i] == h,
        forall|i: int| 0 <= i < BLOCKS && #[trigger] grid[i] == h ==> blocks[h].id == i,
{
    if in_grid(grid, blocks, h) {
        assert(grid[blocks[h].id as int] == h);
    }
}

impl Grid {
    /// A grid has one handle for each cell.
    pub open spec fn wf(&self) -> bool {
        self@.len() == BLOCKS
    }

    /// Takes over the handles, given in the order of the cells' linear
    /// indices, if there is exactly one for each cell.
    pub fn new(cells: Vec<usize>) -> (r: Option<Grid>)
        ensures
            r is Some <==> cells@.len() == BLOCKS,
            r matches Some(g) ==> g@ == cells@ && g.wf(),
    {
        if cells.len() == BLOCKS {
            Some(Grid { cells })
        } else {
            None
        }
    }

    /// The grid whose cell `i` has handle `i`: the playfield that owns the
    /// first `BLOCKS` blocks of a store.
    pub fn identity() -> (g: Grid)
        ensures
            g.wf(),
            forall|i: int| 0 <= i < BLOCKS ==> g@[i] == i,
    {
        let mut cells: Vec<usize> = Vec::new();
        let mut i: usize = 0;
        while i < BLOCKS
            invariant
                i <= BLOCKS,
                cells@.len() == i,
                forall|j: int| 0 <= j < i ==> cells@[j] == j,
            decreases BLOCKS - i,
        {
            cells.push(i);
            i += 1;
        }
        Grid { cells }
    }

    /// The handle of the cell with linear index `i`, unchecked beyond the
    /// demand that `i` is a cell.
    pub fn at(&self, i: usize) -> (h: usize)
        requires
            self.wf(),
            i < BLOCKS,
        ensures
            h == self@[i as int],
    {
        self.cells[i]
    }

    /// The handle of the cell in column `x` of row `y`, or `None` where the
    /// playfield has no such cell.
    pub fn get(&self, x: usize, y: usize) -> (r: Option<usize>)
        requires
            self.wf(),
        ensures
            r == if in_bounds(x as int, y as int) {
                Some(self@[cell_index(x as int, y as int)])
            } else {
                None
            },
    {
        if x < COLS && y < ROWS {
            Some(self.cells[linear_index(x, y)])
        } else {
            None
        }
    }

    /// Tests whether every cell has its block in `blocks`.
    pub fn indexes_store(&self, blocks: &Vec<Block>) -> (r: bool)
        requires
            self.wf(),
        ensures
            r == indexes(self@, blocks@),
    {
        let mut i: usize = 0;
        while i < BLOCKS
            invariant
                i <= BLOCKS,
                self.wf(),
                forall|j: int|
                    0 <= j < i ==> 0 <= #[trigger] self@[j] < blocks@.len()
                        && blocks@[self@[j] as int].id == j,
            decreases BLOCKS - i,
        {
            let h: usize = self.cells[i];
            if h >= blocks.len() || blocks[h].id as usize != i {
                return false;
            }
            i += 1;
        }
        true
    }
}

} // verus!
