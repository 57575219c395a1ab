//! Fixed dimensions and timings of a playfield.

use vstd::prelude::*;

verus! {

/// Number of columns of the playfield.
pub const COLS: usize = 6;

/// Number of rows of the playfield.
pub const ROWS: usize = 12;

/// Number of cells of the playfield, `COLS * ROWS`.
pub const BLOCKS: usize = 72;

/// The kind of a cell that holds no block.
pub const KIND_EMPTY: i32 = -1;

/// Ticks a matched block flashes before its face changes.
pub const FLASH_TIME: u32 = 44;

/// Ticks a matched block shows its face before the first block pops.
pub const FACE_TIME: u32 = 10;

/// Ticks between the pops of two blocks that follow each other in a batch.
pub const POP_TIME: u32 = 10;

/// Ticks a swap takes.
pub const SWAP_TIME: u32 = 5;

/// Distance a block travels during a swap.
pub const SWAP_DISTANCE: i32 = 16;

/// Ticks an action has to be held before it repeats by itself.
pub const REPEAT_DELAY: u32 = 16;

/// Rows' worth of kinds that a kind generator is asked for at a round reset.
pub const RESET_STACK_HEIGHT: u32 = 5;

/// Number of categories that a kind generator draws from at a round reset.
pub const RESET_CATEGORIES: u32 = 8;

/// Animation steps the cursor spends on one sprite frame.
pub const ANIM_STEPS_PER_FRAME: u32 = 4;

/// Animation step at which the cursor's animation starts over.
pub const ANIM_WRAP: u32 = 28;

/// The cells are exactly the pairs of a column and a row.
pub proof fn lemma_blocks_is_cols_times_rows()
    ensures
        BLOCKS == COLS * ROWS,
{
}

/// Linear index of the cell in column `x` of row `y`: rows follow each other,
/// the bottom row first.
pub open spec fn cell_index(x: int, y: int) -> int {
    y * (COLS as int) + x
}

/// Whether column `x` and row `y` name a cell of the playfield.
pub open spec fn in_bounds(x: int, y: int) -> bool {
    0 <= x < COLS && 0 <= y < ROWS
}

/// Every cell has a linear index below `BLOCKS`, and two cells share one only
/// if they are the same cell.
pub proof fn lemma_cell_index_bijective(x1: int, y1: int, x2: int, y2: int)
    requires
        in_bounds(x1, y1),
        in_bounds(x2, y2),
    ensures
        0 <= cell_index(x1, y1) < BLOCKS,
        cell_index(x1, y1) % (COLS as int) == x1,
        cell_index(x1, y1) / (COLS as int) == y1,
        cell_index(x1, y1) == cell_index(x2, y2) ==> x1 == x2 && y1 == y2,
{
}

/// Every linear index below `BLOCKS` is the index of the cell in column
/// `i % COLS` of row `i / COLS`.
pub proof fn lemma_cell_of_index(i: int)
    requires
        0 <= i < BLOCKS,
    ensures
        in_bounds(i % (COLS as int), i / (COLS as int)),
        cell_index(i % (COLS as int), i / (COLS as int)) == i,
{
}

/// Computes the linear index of a cell of the playfield.
pub fn linear_index(x: usize, y: usize) -> (i: usize)
    requires
        in_bounds(x as int, y as int),
    ensures
        i == cell_index(x as int, y as int),
        i < BLOCKS,
{
    y * COLS + x
}

} // verus!
