//! The swap of two horizontally adjacent blocks, and when it is allowed.

use vstd::prelude::*;
use crate::block::{all_wf, change_state, with_state, Block, BlockState};
use crate::data::{cell_index, linear_index, BLOCKS, COLS, ROWS, SWAP_DISTANCE, SWAP_TIME};
use crate::grid::{block_of, indexes, Grid};

verus! {

/// The block on top of the cell with linear index `i`. The top row has none.
pub open spec fn above(grid: Seq<usize>, blocks: Seq<Block>, i: int) -> Option<Block> {
    if i < BLOCKS - COLS {
        Some(block_of(grid, blocks, i + COLS))
    } else {
        None
    }
}

/// Whether the cell with linear index `i` and its right neighbour trade
/// places when asked to: at least one of them holds a block, and each is
/// swappable against the other under what lies on top of it.
pub open spec fn swap_allowed(grid: Seq<usize>, blocks: Seq<Block>, i: int) -> bool {
    let left = block_of(grid, blocks, i);
    let right = block_of(grid, blocks, i + 1);
    &&& !(left.empty() && right.empty())
    &&& left.swappable(right, above(grid, blocks, i))
    &&& right.swappable(left, above(grid, blocks, i + 1))
}

/// What a swap makes of the block `own` of one cell, whose neighbour held
/// `other`: the block starts a swap towards `dir`, a full swap's distance off
/// its cell on that side, and shows the kind that the neighbour had.
pub open spec fn swapping(own: Block, other: Block, dir: int) -> Block {
    Block {
        kind: other.kind,
        counter: SWAP_TIME,
        offset_x: (SWAP_DISTANCE * dir) as i32,
        move_dir: dir as i32,
        ..with_state(own, BlockState::Swap)
    }
}

/// The store after a swap was asked for at the cell with linear index `i`:
/// where the swap is allowed, the two cells hold what `swapping` makes of
/// them, the left one moving right and the right one left; else nothing has
/// changed.
pub open spec fn swap_result(grid: Seq<usize>, blocks: Seq<Block>, i: int) -> Seq<Block> {
    if swap_allowed(grid, blocks, i) {
        let left = block_of(grid, blocks, i);
        let right = block_of(grid, blocks, i + 1);
        blocks.update(grid[i] as int, swapping(left, right, 1)).update(
            grid[i + 1] as int,
            swapping(right, left, -1),
        )
    } else {
        blocks
    }
}

/// A swap of two empty cells changes nothing: both blocks are as they were,
/// and neither starts a swap.
pub proof fn lemma_swap_of_empties_is_noop(grid: Seq<usize>, blocks: Seq<Block>, i: int)
    requires
        block_of(grid, blocks, i).empty(),
        block_of(grid, blocks, i + 1).empty(),
    ensures
        !swap_allowed(grid, blocks, i),
        swap_result(grid, blocks, i) == blocks,
{
}

/// An allowed swap exchanges the kinds of the two cells and nothing else of
/// their contents: each block keeps its identifier. The left block moves
/// right and the right block left, whichever kind each had, and both are in
/// the swap state for `SWAP_TIME` ticks. No other block changes.
pub proof fn lemma_swap_exchanges_kinds(grid: Seq<usize>, blocks: Seq<Block>, x: int, y: int)
    requires
        indexes(grid, blocks),
        0 <= x,
        x + 1 < COLS,
        0 <= y < ROWS,
        swap_allowed(grid, blocks, cell_index(x, y)),
    ensures
        ({
            let i = cell_index(x, y);
            let after = swap_result(grid, blocks, i);
            let left = block_of(grid, after, i);
            let right = block_of(grid, after, i + 1);
            &&& after.len() == blocks.len()
            &&& indexes(grid, after)
            &&& left.kind == block_of(grid, blocks, i + 1).kind
            &&& right.kind == block_of(grid, blocks, i).kind
            &&& left.id == block_of(grid, blocks, i).id
            &&& right.id == block_of(grid, blocks, i + 1).id
            &&& left.move_dir == 1
            &&& right.move_dir == -1
            &&& left.offset_x == SWAP_DISTANCE
            &&& right.offset_x == -SWAP_DISTANCE
            &&& left.state is Swap
            &&& right.state is Swap
            &&& left.counter == SWAP_TIME
            &&& right.counter == SWAP_TIME
            &&& forall|h: int|
                0 <= h < blocks.len() && h != grid[i] && h != grid[i + 1] ==> after[h] == blocks[h]
        }),
{
    let i = cell_index(x, y);
    assert(0 <= i && i + 1 < BLOCKS);
    assert(grid[i] != grid[i + 1]);
}

/// Two cells that both hold a block at rest, with nothing in the middle of a
/// swap on top of them, may be swapped.
pub proof fn lemma_blocks_at_rest_swap(grid: Seq<usize>, blocks: Seq<Block>, i: int)
    requires
        !block_of(grid, blocks, i).empty(),
        !block_of(grid, blocks, i + 1).empty(),
        block_of(grid, blocks, i).state is Idle,
        block_of(grid, blocks, i + 1).state is Idle,
        above(grid, blocks, i) matches Some(a) ==> !(a.state is Swap),
        above(grid, blocks, i + 1) matches Some(a) ==> !(a.state is Swap),
    ensures
        swap_allowed(grid, blocks, i),
{
}

/// Asks for the swap of the cell in column `x` of row `y` with its right
/// neighbour, and says whether it took place. A swap of two empty cells, or
/// one that a block's state forbids, is passed over without a trace.
pub fn attempt_swap(x: usize, y: usize, grid: &Grid, blocks: &mut Vec<Block>) -> (swapped: bool)
    requires
        grid.wf(),
        indexes(grid@, old(blocks)@),
        x + 1 < COLS,
        y < ROWS,
    ensures
        swapped == swap_allowed(grid@, old(blocks)@, cell_index(x as int, y as int)),
        final(blocks)@ == swap_result(grid@, old(blocks)@, cell_index(x as int, y as int)),
        indexes(grid@, final(blocks)@),
        all_wf(old(blocks)@) ==> all_wf(final(blocks)@),
{
    let i: usize = linear_index(x, y);
    let hl: usize = grid.at(i);
    let hr: usize = grid.at(i + 1);
    let left: Block = blocks[hl];
    let right: Block = blocks[hr];
    if left.is_empty() && right.is_empty() {
        return false;
    }
    let above_left: Option<Block> = if i < BLOCKS - COLS {
        Some(blocks[grid.at(i + COLS)])
    } else {
        None
    };
    let above_right: Option<Block> = if i + 1 < BLOCKS - COLS {
        Some(blocks[grid.at(i + 1 + COLS)])
    } else {
        None
    };
    if !(left.is_swappable(&right, above_left) && right.is_swappable(&left, above_right)) {
        return false;
    }
    let mut a: Block = left;
    change_state(&mut a, BlockState::Swap);
    a.move_dir = 1;
    a.offset_x = SWAP_DISTANCE;
    a.counter = SWAP_TIME;
    a.kind = right.kind;
    let mut b: Block = right;
    change_state(&mut b, BlockState::Swap);
    b.move_dir = -1;
    b.offset_x = -SWAP_DISTANCE;
    b.counter = SWAP_TIME;
    b.kind = left.kind;
    assert(hl != hr);
    blocks[hl] = a;
    blocks[hr] = b;
    assert(blocks@ =~= swap_result(grid@, old(blocks)@, i as int));
    true
}

} // verus!
