//! The match and chain engine: it finds runs of three blocks of one kind,
//! queues them, scores the batch, and starts the blocks' clear animation.

use vstd::prelude::*;
use crate::block::{all_wf, change_state, with_state, Block, BlockState};
use crate::clear::{queue_valid, Clear, ClearEvent};
use crate::data::{
    cell_index, in_bounds, lemma_cell_index_bijective, lemma_cell_of_index, linear_index, BLOCKS,
    COLS, FACE_TIME, FLASH_TIME, POP_TIME,
};
use crate::grid::{block_at, block_of, in_grid, indexes, Grid};

verus! {

/// The identifiers of the block in column `x` of row `y` and of the next two
/// blocks in steps of `dx` columns and `dy` rows, if the three make a match:
/// the first is comboable, the other two lie on the playfield and are
/// comboable with the kind of the first.
pub open spec fn similar_block_ids(
    grid: Seq<usize>,
    blocks: Seq<Block>,
    x: int,
    y: int,
    dx: int,
    dy: int,
) -> Option<Seq<u32>> {
    let b1 = block_at(grid, blocks, x, y);
    let b2 = block_at(grid, blocks, x + dx, y + dy);
    let b3 = block_at(grid, blocks, x + 2 * dx, y + 2 * dy);
    if b1.comboable() && in_bounds(x + dx, y + dy) && in_bounds(x + 2 * dx, y + 2 * dy)
        && b2.comboable_with(b1.kind) && b3.comboable_with(b1.kind) {
        Some(seq![b1.id, b2.id, b3.id])
    } else {
        None
    }
}

/// The identifiers that the cell in column `x` of row `y` gives to a scan:
/// those of its match to the right, then those of its match upwards.
pub open spec fn cell_clears(grid: Seq<usize>, blocks: Seq<Block>, x: int, y: int) -> Seq<u32> {
    let right = match similar_block_ids(grid, blocks, x, y, 1, 0) {
        Some(ids) => ids,
        None => Seq::empty(),
    };
    let up = match similar_block_ids(grid, blocks, x, y, 0, 1) {
        Some(ids) => ids,
        None => Seq::empty(),
    };
    right + up
}

/// The identifiers that the first `n` cells give to a scan, in the order of
/// the cells' linear indices: row by row from the bottom, each row from the
/// left.
pub open spec fn scan_clears(grid: Seq<usize>, blocks: Seq<Block>, n: nat) -> Seq<u32>
    decreases n,
{
    if n == 0 {
        Seq::empty()
    } else {
        scan_clears(grid, blocks, (n - 1) as nat) + cell_clears(
            grid,
            blocks,
            (n - 1) % (COLS as int),
            (n - 1) / (COLS as int),
        )
    }
}

/// The queue `q` after the identifiers of `ids` were offered to it in their
/// order: each is put at the end unless the queue holds it already.
pub open spec fn push_new(q: Seq<u32>, ids: Seq<u32>) -> Seq<u32>
    decreases ids.len(),
{
    if ids.len() == 0 {
        q
    } else {
        let before = push_new(q, ids.drop_last());
        if before.contains(ids.last()) {
            before
        } else {
            before.push(ids.last())
        }
    }
}

/// Whether `id` is one of the three blocks of the match that starts in column
/// `x` of row `y` and runs upwards (`up`) or to the right.
pub open spec fn in_match(
    grid: Seq<usize>,
    blocks: Seq<Block>,
    id: u32,
    x: int,
    y: int,
    up: bool,
) -> bool {
    &&& in_bounds(x, y)
    &&& match similar_block_ids(
        grid,
        blocks,
        x,
        y,
        if up {
            0
        } else {
            1
        },
        if up {
            1
        } else {
            0
        },
    ) {
        Some(ids) => ids.contains(id),
        None => false,
    }
}

/// Whether the block `id` is part of a match somewhere on the playfield.
pub open spec fn matched(grid: Seq<usize>, blocks: Seq<Block>, id: u32) -> bool {
    exists|x: int, y: int, up: bool| in_match(grid, blocks, id, x, y, up)
}

/// Whether one of the queued blocks is marked as chainable.
pub open spec fn any_chainable(grid: Seq<usize>, blocks: Seq<Block>, q: Seq<u32>) -> bool {
    exists|k: int| 0 <= k < q.len() && (#[trigger] block_of(grid, blocks, q[k] as int)).chainable
}

/// Ticks that the clear animation of a batch of `n` blocks takes.
pub open spec fn clear_duration(n: int) -> int {
    FLASH_TIME + FACE_TIME + POP_TIME * n
}

/// What a clear makes of the block `b` that stands at place `k` in a batch of
/// `n`: it enters the clear state for the batch's whole duration, and pops
/// `POP_TIME` ticks after the block before it.
pub open spec fn clearing(b: Block, k: int, n: int) -> Block {
    Block {
        clear_time: clear_duration(k) as u32,
        counter: clear_duration(n) as u32,
        clear_start_counter: clear_duration(n) as u32,
        ..with_state(b, BlockState::Clear)
    }
}

/// The store after the batch `q` was cleared: each queued block of the grid
/// is `clearing` at its place in the queue, and no other block has changed.
pub open spec fn clear_result(grid: Seq<usize>, blocks: Seq<Block>, q: Seq<u32>) -> Seq<Block> {
    Seq::new(
        blocks.len(),
        |h: int|
            if in_grid(grid, blocks, h) && q.contains(blocks[h].id) {
                clearing(blocks[h], q.index_of(blocks[h].id), q.len() as int)
            } else {
                blocks[h]
            },
    )
}

/// Whether `after`, `after_blocks` and `event` are what resolving the queue
/// `q` makes of the state `before` and the store `blocks`.
///
/// An empty queue changes nothing and reports nothing. Else the batch counts
/// its blocks in `combo_counter` and adds them to `blocks_cleared`; the chain
/// grows by one if a queued block is chainable, and starts again at one if
/// none is; `last_chain` keeps the greatest depth; the queue is emptied.
pub open spec fn batch_resolved(
    before: Clear,
    q: Seq<u32>,
    grid: Seq<usize>,
    blocks: Seq<Block>,
    after: Clear,
    after_blocks: Seq<Block>,
    event: Option<ClearEvent>,
) -> bool {
    if q.len() == 0 {
        &&& after.clear_queue@ == q
        &&& after.combo_counter == before.combo_counter
        &&& after.chain == before.chain
        &&& after.last_chain == before.last_chain
        &&& after.blocks_cleared == before.blocks_cleared
        &&& after_blocks == blocks
        &&& event is None
    } else {
        let chained = any_chainable(grid, blocks, q);
        &&& after.clear_queue@ == Seq::<u32>::empty()
        &&& after.combo_counter == q.len()
        &&& after.chain == if chained {
            before.chain + 1
        } else {
            1
        }
        &&& after.last_chain == if chained && before.chain + 1 > before.last_chain {
            before.chain + 1
        } else {
            before.last_chain as int
        }
        &&& after.blocks_cleared == before.blocks_cleared + q.len()
        &&& after_blocks == clear_result(grid, blocks, q)
        &&& event == Some(
            ClearEvent {
                chain: after.chain,
                combo: after.combo_counter,
                blocks_cleared: after.blocks_cleared,
            },
        )
    }
}

/// Offering two runs of identifiers one after the other is offering them
/// joined.
pub proof fn lemma_push_new_concat(q: Seq<u32>, a: Seq<u32>, b: Seq<u32>)
    ensures
        push_new(q, a + b) == push_new(push_new(q, a), b),
    decreases b.len(),
{
    if b.len() == 0 {
        assert(a + b =~= a);
    } else {
        lemma_push_new_concat(q, a, b.drop_last());
        assert((a + b).drop_last() =~= a + b.drop_last());
        assert((a + b).last() == b.last());
    }
}

/// A queue that was offered identifiers holds what it held before and what it
/// was offered, and nothing else; what it held keeps its place; and a queue
/// without duplicates stays without.
pub proof fn lemma_push_new_holds_both(q: Seq<u32>, ids: Seq<u32>)
    ensures
        forall|id: u32| #[trigger]
            push_new(q, ids).contains(id) <==> q.contains(id) || ids.contains(id),
        q.len() <= push_new(q, ids).len(),
        forall|k: int| 0 <= k < q.len() ==> push_new(q, ids)[k] == q[k],
        q.no_duplicates() ==> push_new(q, ids).no_duplicates(),
    decreases ids.len(),
{
    if ids.len() > 0 {
        let rest = ids.drop_last();
        let last = ids.last();
        let before = push_new(q, rest);
        let after = push_new(q, ids);
        lemma_push_new_holds_both(q, rest);
        assert(ids =~= rest.push(last));
        assert forall|id: u32| #[trigger] after.contains(id) <==> q.contains(id) || ids.contains(
            id,
        ) by {
            if after.contains(id) {
                let k = choose|k: int| 0 <= k < after.len() && after[k] == id;
                if k < before.len() {
                    assert(before[k] == id);
                    assert(before.contains(id));
                    if rest.contains(id) {
                        let j = choose|j: int| 0 <= j < rest.len() && rest[j] == id;
                        assert(ids[j] == id);
                    }
                } else {
                    assert(id == last);
                    assert(ids[ids.len() - 1] == id);
                }
            }
            if q.contains(id) {
                assert(before.contains(id));
                let k = choose|k: int| 0 <= k < before.len() && before[k] == id;
                assert(after[k] == id);
            }
            if ids.contains(id) {
                let j = choose|j: int| 0 <= j < ids.len() && ids[j] == id;
                if j < rest.len() {
                    assert(rest[j] == id);
                    assert(rest.contains(id));
                    assert(before.contains(id));
                    let k = choose|k: int| 0 <= k < before.len() && before[k] == id;
                    assert(after[k] == id);
                } else {
                    assert(id == last);
                    if before.contains(last) {
                    } else {
                        assert(after[before.len() as int] == last);
                    }
                }
            }
        }
    }
}

/// A valid queue that is offered identifiers of cells stays valid.
pub proof fn lemma_push_new_valid(q: Seq<u32>, ids: Seq<u32>)
    requires
        queue_valid(q),
        forall|j: int| 0 <= j < ids.len() ==> #[trigger] ids[j] < BLOCKS,
    ensures
        queue_valid(push_new(q, ids)),
    decreases ids.len(),
{
    if ids.len() > 0 {
        lemma_push_new_valid(q, ids.drop_last());
        lemma_push_new_holds_both(q, ids);
    }
}

/// Where a grid indexes its store, whatever a cell gives to a scan is the
/// identifier of a cell.
pub proof fn lemma_cell_clears_are_cells(grid: Seq<usize>, blocks: Seq<Block>, x: int, y: int)
    requires
        indexes(grid, blocks),
        in_bounds(x, y),
    ensures
        forall|j: int|
            0 <= j < cell_clears(grid, blocks, x, y).len() ==> #[trigger] cell_clears(
                grid,
                blocks,
                x,
                y,
            )[j] < BLOCKS,
{
    lemma_cell_index_bijective(x, y, x, y);
    if in_bounds(x + 1, y) {
        lemma_cell_index_bijective(x + 1, y, x, y);
    }
    if in_bounds(x + 2, y) {
        lemma_cell_index_bijective(x + 2, y, x, y);
    }
    if in_bounds(x, y + 1) {
        lemma_cell_index_bijective(x, y + 1, x, y);
    }
    if in_bounds(x, y + 2) {
        lemma_cell_index_bijective(x, y + 2, x, y);
    }
}

/// What the first `n` cells give to a scan are identifiers of cells.
pub proof fn lemma_scan_clears_are_cells(grid: Seq<usize>, blocks: Seq<Block>, n: nat)
    requires
        indexes(grid, blocks),
        n <= BLOCKS,
    ensures
        forall|j: int|
            0 <= j < scan_clears(grid, blocks, n).len() ==> #[trigger] scan_clears(
                grid,
                blocks,
                n,
            )[j] < BLOCKS,
    decreases n,
{
    if n > 0 {
        lemma_scan_clears_are_cells(grid, blocks, (n - 1) as nat);
        lemma_cell_of_index(n - 1);
        lemma_cell_clears_are_cells(grid, blocks, (n - 1) % (COLS as int), (n - 1) / (COLS as int));
        let head = scan_clears(grid, blocks, (n - 1) as nat);
        let tail = cell_clears(grid, blocks, (n - 1) % (COLS as int), (n - 1) / (COLS as int));
        assert forall|j: int| 0 <= j < (head + tail).len() implies #[trigger] (head + tail)[j]
            < BLOCKS by {
            if j < head.len() {
                assert(head[j] < BLOCKS);
            } else {
                assert(tail[j - head.len()] < BLOCKS);
            }
        }
    }
}

/// The first `n` cells give a scan exactly the blocks of the matches that
/// start in one of them.
proof fn lemma_scan_prefix_holds_its_matches(
    grid: Seq<usize>,
    blocks: Seq<Block>,
    n: nat,
    id: u32,
)
    requires
        n <= BLOCKS,
    ensures
        scan_clears(grid, blocks, n).contains(id) <==> exists|c: int, up: bool|
            0 <= c < n && #[trigger] in_match(
                grid,
                blocks,
                id,
                c % (COLS as int),
                c / (COLS as int),
                up,
            ),
    decreases n,
{
    if n > 0 {
        let m = (n - 1) as nat;
        let x = (n - 1) % (COLS as int);
        let y = (n - 1) / (COLS as int);
        let head = scan_clears(grid, blocks, m);
        let tail = cell_clears(grid, blocks, x, y);
        let all = scan_clears(grid, blocks, n);
        lemma_scan_prefix_holds_its_matches(grid, blocks, m, id);
        lemma_cell_of_index(n - 1);
        let right = match similar_block_ids(grid, blocks, x, y, 1, 0) {
            Some(ids) => ids,
            None => Seq::empty(),
        };
        let up = match similar_block_ids(grid, blocks, x, y, 0, 1) {
            Some(ids) => ids,
            None => Seq::empty(),
        };
        assert(tail == right + up);
        if all.contains(id) {
            let k = choose|k: int| 0 <= k < all.len() && all[k] == id;
            if k < head.len() {
                assert(head[k] == id);
                assert(head.contains(id));
            } else {
                let j = k - head.len();
                assert(tail[j] == id);
                if j < right.len() {
                    assert(right[j] == id);
                    assert(right.contains(id));
                    assert(in_match(grid, blocks, id, x, y, false));
                } else {
                    assert(up[j - right.len()] == id);
                    assert(up.contains(id));
                    assert(in_match(grid, blocks, id, x, y, true));
                }
            }
        }
        if exists|c: int, up: bool|
            0 <= c < n && #[trigger] in_match(
                grid,
                blocks,
                id,
                c % (COLS as int),
                c / (COLS as int),
                up,
            ) {
            let (c, dir) = choose|c: int, up: bool|
                0 <= c < n && #[trigger] in_match(
                    grid,
                    blocks,
                    id,
                    c % (COLS as int),
                    c / (COLS as int),
                    up,
                );
            if c < m {
                assert(head.contains(id));
                let k = choose|k: int| 0 <= k < head.len() && head[k] == id;
                assert(all[k] == id);
            } else {
                assert(c == n - 1);
                if dir {
                    assert(up.contains(id));
                    let j = choose|j: int| 0 <= j < up.len() && up[j] == id;
                    assert(all[head.len() + right.len() + j] == id);
                } else {
                    assert(right.contains(id));
                    let j = choose|j: int| 0 <= j < right.len() && right[j] == id;
                    assert(all[head.len() + j] == id);
                }
            }
        }
    }
}

/// A scan of the whole playfield is given exactly the blocks that are part
/// of a match.
pub proof fn lemma_scan_holds_the_matched(grid: Seq<usize>, blocks: Seq<Block>, id: u32)
    ensures
        scan_clears(grid, blocks, BLOCKS as nat).contains(id) <==> matched(grid, blocks, id),
{
    lemma_scan_prefix_holds_its_matches(grid, blocks, BLOCKS as nat, id);
    if matched(grid, blocks, id) {
        let (x, y, up) = choose|x: int, y: int, up: bool| in_match(grid, blocks, id, x, y, up);
        let c = cell_index(x, y);
        lemma_cell_index_bijective(x, y, x, y);
        assert(in_match(grid, blocks, id, c % (COLS as int), c / (COLS as int), up));
    }
}

/// After a scan that began with an empty queue, the queue holds exactly the
/// blocks that are part of a match, each of them once.
pub proof fn lemma_scanned_queue_is_the_matched(grid: Seq<usize>, blocks: Seq<Block>)
    ensures
        push_new(Seq::empty(), scan_clears(grid, blocks, BLOCKS as nat)).no_duplicates(),
        forall|id: u32| #[trigger]
            push_new(Seq::empty(), scan_clears(grid, blocks, BLOCKS as nat)).contains(id)
                <==> matched(grid, blocks, id),
{
    let found = scan_clears(grid, blocks, BLOCKS as nat);
    lemma_push_new_holds_both(Seq::empty(), found);
    assert forall|id: u32| #[trigger]
        push_new(Seq::empty(), found).contains(id) <==> matched(grid, blocks, id) by {
        lemma_scan_holds_the_matched(grid, blocks, id);
    }
}

/// In a queue without duplicates, an identifier is found where it stands.
pub proof fn lemma_place_in_queue(q: Seq<u32>, k: int)
    requires
        q.no_duplicates(),
        0 <= k < q.len(),
    ensures
        q.contains(q[k]),
        q.index_of(q[k]) == k,
{
}

/// The blocks of a cleared batch enter the clear state one pop apart: the
/// block at place `k` of the queue pops at `FLASH_TIME + FACE_TIME + POP_TIME
/// * k`, and each of them counts down from the duration of the whole batch.
/// A block's kind, identifier and chainable mark stay, and a displacement
/// left by a swap is gone.
pub proof fn lemma_clear_timing(grid: Seq<usize>, blocks: Seq<Block>, q: Seq<u32>, k: int)
    requires
        indexes(grid, blocks),
        queue_valid(q),
        0 <= k < q.len(),
    ensures
        ({
            let before = block_of(grid, blocks, q[k] as int);
            let after = block_of(grid, clear_result(grid, blocks, q), q[k] as int);
            &&& after.state is Clear
            &&& after.clear_time == FLASH_TIME + FACE_TIME + POP_TIME * k
            &&& after.counter == FLASH_TIME + FACE_TIME + POP_TIME * q.len()
            &&& after.clear_start_counter == after.counter
            &&& after.kind == before.kind
            &&& after.id == before.id
            &&& after.chainable == before.chainable
            &&& after.offset_x == 0
            &&& after.offset_y == 0
            &&& after.move_dir == 0
        }),
{
    crate::clear::lemma_valid_queue_is_short(q);
    lemma_place_in_queue(q, k);
    let h = grid[q[k] as int] as int;
    assert(in_grid(grid, blocks, h));
}

/// A clear changes no block but those that are queued, keeps every block's
/// identifier, and leaves well-formed what was well-formed.
pub proof fn lemma_clear_spares_the_rest(grid: Seq<usize>, blocks: Seq<Block>, q: Seq<u32>)
    requires
        indexes(grid, blocks),
        queue_valid(q),
    ensures
        clear_result(grid, blocks, q).len() == blocks.len(),
        indexes(grid, clear_result(grid, blocks, q)),
        all_wf(blocks) ==> all_wf(clear_result(grid, blocks, q)),
        forall|h: int|
            0 <= h < blocks.len() ==> (#[trigger] clear_result(grid, blocks, q)[h]).id
                == blocks[h].id,
        forall|i: int|
            0 <= i < BLOCKS && !q.contains(i as u32) ==> #[trigger] block_of(
                grid,
                clear_result(grid, blocks, q),
                i,
            ) == block_of(grid, blocks, i),
        forall|h: int|
            0 <= h < blocks.len() && !in_grid(grid, blocks, h) ==> #[trigger] clear_result(
                grid,
                blocks,
                q,
            )[h] == blocks[h],
{
    let after = clear_result(grid, blocks, q);
    assert forall|i: int| 0 <= i < BLOCKS implies 0 <= #[trigger] grid[i] < after.len()
        && after[grid[i] as int].id == i by {
        assert(after[grid[i] as int].id == blocks[grid[i] as int].id);
    }
}

/// The match and chain engine of a playfield. It runs once per tick, whatever
/// the player does.
pub struct ClearSystem;

/// The block in column `x` of row `y`, if the playfield has such a cell.
fn block_in_bounds(x: usize, y: usize, grid: &Grid, blocks: &Vec<Block>) -> (r: Option<Block>)
    requires
        grid.wf(),
        indexes(grid@, blocks@),
    ensures
        r == if in_bounds(x as int, y as int) {
            Some(block_at(grid@, blocks@, x as int, y as int))
        } else {
            None
        },
{
    match grid.get(x, y) {
        Some(h) => {
            proof {
                if in_bounds(x as int, y as int) {
                    lemma_cell_index_bijective(x as int, y as int, x as int, y as int);
                }
            }
            Some(blocks[h])
        },
        None => None,
    }
}

/// Looks at the block in column `x` of row `y` and at the next two in steps
/// of `x_offset` columns and `y_offset` rows. If the three make a match, their
/// identifiers come back, the first block's first. A step off the playfield
/// makes no match.
pub fn check_similar_block(
    x: usize,
    y: usize,
    x_offset: usize,
    y_offset: usize,
    grid: &Grid,
    blocks: &Vec<Block>,
) -> (r: Option<Vec<u32>>)
    requires
        grid.wf(),
        indexes(grid@, blocks@),
        in_bounds(x as int, y as int),
        x + 2 * x_offset <= usize::MAX,
        y + 2 * y_offset <= usize::MAX,
    ensures
        r is Some <==> similar_block_ids(
            grid@,
            blocks@,
            x as int,
            y as int,
            x_offset as int,
            y_offset as int,
        ) is Some,
        r matches Some(ids) ==> Some(ids@) == similar_block_ids(
            grid@,
            blocks@,
            x as int,
            y as int,
            x_offset as int,
            y_offset as int,
        ),
{
    proof {
        lemma_cell_index_bijective(x as int, y as int, x as int, y as int);
    }
    let b1: Block = blocks[grid.at(linear_index(x, y))];
    let b2: Option<Block> = block_in_bounds(x + x_offset, y + y_offset, grid, blocks);
    let b3: Option<Block> = block_in_bounds(x + x_offset * 2, y + y_offset * 2, grid, blocks);
    if b1.is_comboable() {
        if let Some(block2) = b2 {
            if let Some(block3) = b3 {
                if block2.is_comboable_with(b1.kind) && block3.is_comboable_with(b1.kind) {
                    let mut ids: Vec<u32> = Vec::new();
                    ids.push(b1.id);
                    ids.push(block2.id);
                    ids.push(block3.id);
                    assert(ids@ =~= seq![b1.id, block2.id, block3.id]);
                    return Some(ids);
                }
            }
        }
    }
    None
}

/// Collects what the cell in column `x` of row `y` gives to a scan: the
/// identifiers of its match to the right, then those of its match upwards.
pub fn check_clear(x: usize, y: usize, grid: &Grid, blocks: &Vec<Block>) -> (checks: Vec<u32>)
    requires
        grid.wf(),
        indexes(grid@, blocks@),
        in_bounds(x as int, y as int),
    ensures
        checks@ == cell_clears(grid@, blocks@, x as int, y as int),
{
    let mut checks: Vec<u32> = Vec::new();
    let r_rr: Option<Vec<u32>> = check_similar_block(x, y, 1, 0, grid, blocks);
    let u_uu: Option<Vec<u32>> = check_similar_block(x, y, 0, 1, grid, blocks);
    if let Some(mut right_vec) = r_rr {
        checks.append(&mut right_vec);
    }
    if let Some(mut up_vec) = u_uu {
        checks.append(&mut up_vec);
    }
    assert(checks@ =~= cell_clears(grid@, blocks@, x as int, y as int));
    checks
}

/// Says whether one of the blocks named in `clear_ids` is marked as
/// chainable.
pub fn any_chainable_exists(clear_ids: &Vec<u32>, grid: &Grid, blocks: &Vec<Block>) -> (r: bool)
    requires
        grid.wf(),
        indexes(grid@, blocks@),
        forall|k: int| 0 <= k < clear_ids@.len() ==> #[trigger] clear_ids@[k] < BLOCKS,
    ensures
        r == any_chainable(grid@, blocks@, clear_ids@),
{
    let n: usize = clear_ids.len();
    let mut k: usize = 0;
    while k < n
        invariant
            k <= n,
            n == clear_ids@.len(),
            grid.wf(),
            indexes(grid@, blocks@),
            forall|j: int| 0 <= j < clear_ids@.len() ==> #[trigger] clear_ids@[j] < BLOCKS,
            forall|j: int|
                0 <= j < k ==> !(#[trigger] block_of(
                    grid@,
                    blocks@,
                    clear_ids@[j] as int,
                )).chainable,
        decreases n - k,
    {
        let id: u32 = clear_ids[k];
        if blocks[grid.at(id as usize)].chainable {
            assert(block_of(grid@, blocks@, clear_ids@[k as int] as int).chainable);
            return true;
        }
        k += 1;
    }
    false
}

impl ClearSystem {
    /// Reads the whole playfield and queues every block that is part of a
    /// match, once, in the order in which the cells give them. No block
    /// changes.
    pub fn scan(&self, clear: &mut Clear, grid: &Grid, blocks: &Vec<Block>)
        requires
            old(clear).wf(),
            grid.wf(),
            indexes(grid@, blocks@),
        ensures
            final(clear).clear_queue@ == push_new(
                old(clear).clear_queue@,
                scan_clears(grid@, blocks@, BLOCKS as nat),
            ),
            final(clear).wf(),
            forall|id: u32| #[trigger]
                final(clear).clear_queue@.contains(id) <==> old(clear).clear_queue@.contains(id)
                    || matched(grid@, blocks@, id),
            final(clear).combo_counter == old(clear).combo_counter,
            final(clear).chain == old(clear).chain,
            final(clear).last_chain == old(clear).last_chain,
            final(clear).blocks_cleared == old(clear).blocks_cleared,
    {
        let ghost q0: Seq<u32> = clear.clear_queue@;
        let mut i: usize = 0;
        while i < BLOCKS
            invariant
                i <= BLOCKS,
                grid.wf(),
                indexes(grid@, blocks@),
                clear.clear_queue@ == push_new(q0, scan_clears(grid@, blocks@, i as nat)),
                clear.combo_counter == old(clear).combo_counter,
                clear.chain == old(clear).chain,
                clear.last_chain == old(clear).last_chain,
                clear.blocks_cleared == old(clear).blocks_cleared,
            decreases BLOCKS - i,
        {
            let x: usize = i % COLS;
            let y: usize = i / COLS;
            proof {
                lemma_cell_of_index(i as int);
            }
            let ids: Vec<u32> = check_clear(x, y, grid, blocks);
            let ghost q1: Seq<u32> = clear.clear_queue@;
            let n: usize = ids.len();
            let mut j: usize = 0;
            while j < n
                invariant
                    j <= n,
                    n == ids@.len(),
                    clear.clear_queue@ == push_new(q1, ids@.take(j as int)),
                    clear.combo_counter == old(clear).combo_counter,
                    clear.chain == old(clear).chain,
                    clear.last_chain == old(clear).last_chain,
                    clear.blocks_cleared == old(clear).blocks_cleared,
                decreases n - j,
            {
                let id: u32 = ids[j];
                proof {
                    assert(ids@.take(j + 1).drop_last() =~= ids@.take(j as int));
                    assert(ids@.take(j + 1).last() == id);
                }
                if !clear.holds(id) {
                    clear.clear_queue.push(id);
                }
                j += 1;
            }
            proof {
                assert(ids@.take(n as int) =~= ids@);
                lemma_push_new_concat(q0, scan_clears(grid@, blocks@, i as nat), ids@);
            }
            i += 1;
        }
        proof {
            let found = scan_clears(grid@, blocks@, BLOCKS as nat);
            lemma_scan_clears_are_cells(grid@, blocks@, BLOCKS as nat);
            lemma_push_new_valid(q0, found);
            lemma_push_new_holds_both(q0, found);
            assert forall|id: u32| #[trigger]
                clear.clear_queue@.contains(id) <==> q0.contains(id) || matched(
                    grid@,
                    blocks@,
                    id,
                ) by {
                lemma_scan_holds_the_matched(grid@, blocks@, id);
            }
        }
    }

    /// Resolves the queue. An empty queue is left alone. Else each queued
    /// block starts its clear animation, timed by its place in the queue; the
    /// batch is counted and the chain scored; the queue is emptied; and what
    /// there is to report comes back.
    pub fn resolve(
        &self,
        clear: &mut Clear,
        grid: &Grid,
        blocks: &mut Vec<Block>,
    ) -> (event: Option<ClearEvent>)
        requires
            old(clear).wf(),
            old(clear).has_headroom(),
            grid.wf(),
            indexes(grid@, old(blocks)@),
        ensures
            batch_resolved(
                *old(clear),
                old(clear).clear_queue@,
                grid@,
                old(blocks)@,
                *final(clear),
                final(blocks)@,
                event,
            ),
            final(clear).wf(),
            indexes(grid@, final(blocks)@),
            all_wf(old(blocks)@) ==> all_wf(final(blocks)@),
            old(clear).chain_recorded() ==> final(clear).chain_recorded(),
    {
        let ghost q: Seq<u32> = clear.clear_queue@;
        let ghost before: Seq<Block> = blocks@;
        proof {
            crate::clear::lemma_valid_queue_is_short(q);
            lemma_clear_spares_the_rest(grid@, before, q);
        }
        let clear_size: usize = clear.clear_queue.len();
        if clear_size == 0 {
            return None;
        }
        clear.combo_counter = 0;
        let size: u32 = clear_size as u32;
        let all_time: u32 = FLASH_TIME + FACE_TIME + POP_TIME * size;
        let had_chainable: bool = any_chainable_exists(&clear.clear_queue, grid, blocks);
        if had_chainable {
            clear.chain = clear.chain + 1;
            if clear.chain > clear.last_chain {
                clear.last_chain = clear.chain;
            }
        } else {
            clear.chain = 1;
        }
        let mut k: usize = 0;
        while k < clear_size
            invariant
                k <= clear_size,
                clear_size == q.len(),
                clear_size <= BLOCKS,
                size == clear_size,
                all_time == clear_duration(q.len() as int),
                clear.clear_queue@ == q,
                clear.combo_counter == k,
                clear.chain == if had_chainable {
                    old(clear).chain + 1
                } else {
                    1
                },
                clear.last_chain == if had_chainable && old(clear).chain + 1 > old(clear)
                    .last_chain {
                    old(clear).chain + 1
                } else {
                    old(clear).last_chain as int
                },
                clear.blocks_cleared == old(clear).blocks_cleared,
                queue_valid(q),
                grid.wf(),
                indexes(grid@, before),
                blocks@.len() == before.len(),
                forall|h: int|
                    0 <= h < before.len() ==> #[trigger] blocks@[h] == if in_grid(grid@, before, h)
                        && q.take(k as int).contains(before[h].id) {
                        clearing(before[h], q.index_of(before[h].id), q.len() as int)
                    } else {
                        before[h]
                    },
            decreases clear_size - k,
        {
            let id: u32 = clear.clear_queue[k];
            let h: usize = grid.at(id as usize);
            proof {
                lemma_place_in_queue(q, k as int);
                assert(in_grid(grid@, before, h as int));
                let done = q.take(k as int);
                assert(!done.contains(id)) by {
                    if done.contains(id) {
                        let j = choose|j: int| 0 <= j < done.len() && done[j] == id;
                        assert(q[j] == q[k as int]);
                    }
                }
                assert(blocks@[h as int] == before[h as int]);
            }
            let mut b: Block = blocks[h];
            let set_time: u32 = FLASH_TIME + FACE_TIME + POP_TIME * clear.combo_counter;
            b.clear_time = set_time;
            clear.combo_counter = clear.combo_counter + 1;
            b.counter = all_time;
            b.clear_start_counter = all_time;
            change_state(&mut b, BlockState::Clear);
            blocks[h] = b;
            proof {
                assert(b == clearing(before[h as int], k as int, q.len() as int));
                assert forall|g: int| 0 <= g < before.len() implies #[trigger] blocks@[g]
                    == if in_grid(grid@, before, g) && q.take(k + 1).contains(before[g].id) {
                    clearing(before[g], q.index_of(before[g].id), q.len() as int)
                } else {
                    before[g]
                } by {
                    let gid = before[g].id;
                    let done = q.take(k as int);
                    let next = q.take(k + 1);
                    if next.contains(gid) {
                        let j = choose|j: int| 0 <= j < next.len() && next[j] == gid;
                        if j < k {
                            assert(done[j] == gid);
                            assert(done.contains(gid));
                        }
                    }
                    if done.contains(gid) {
                        let j = choose|j: int| 0 <= j < done.len() && done[j] == gid;
                        assert(next[j] == gid);
                    }
                    if gid == id {
                        assert(next[k as int] == gid);
                    }
                }
            }
            k += 1;
        }
        clear.blocks_cleared = clear.blocks_cleared + clear.combo_counter;
        clear.clear_queue.clear();
        proof {
            assert(q.take(clear_size as int) =~= q);
            assert(blocks@ =~= clear_result(grid@, before, q));
            assert(had_chainable == any_chainable(grid@, before, q));
        }
        Some(
            ClearEvent {
                chain: clear.chain,
                combo: clear.combo_counter,
                blocks_cleared: clear.blocks_cleared,
            },
        )
    }

    /// One tick of the engine: scans the playfield, then resolves what was
    /// found.
    pub fn run(
        &mut self,
        clear: &mut Clear,
        grid: &Grid,
        blocks: &mut Vec<Block>,
    ) -> (event: Option<ClearEvent>)
        requires
            old(clear).wf(),
            old(clear).has_headroom(),
            grid.wf(),
            indexes(grid@, old(blocks)@),
        ensures
            batch_resolved(
                *old(clear),
                push_new(
                    old(clear).clear_queue@,
                    scan_clears(grid@, old(blocks)@, BLOCKS as nat),
                ),
                grid@,
                old(blocks)@,
                *final(clear),
                final(blocks)@,
                event,
            ),
            final(clear).wf(),
            final(clear).clear_queue@ == Seq::<u32>::empty(),
            indexes(grid@, final(blocks)@),
            all_wf(old(blocks)@) ==> all_wf(final(blocks)@),
            old(clear).chain_recorded() ==> final(clear).chain_recorded(),
    {
        self.scan(clear, grid, blocks);
        self.resolve(clear, grid, blocks)
    }
}

} // verus!
