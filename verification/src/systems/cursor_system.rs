//! The cursor's controller: everything the player does to a playfield
//! happens here.

use vstd::prelude::*;
use crate::block::{all_wf, Block};
use crate::clear::Clear;
use crate::cursor::{Cursor, Direction};
use crate::data::{cell_index, BLOCKS};
use crate::grid::{in_grid, indexes, Grid};
use crate::input::{
    action_named, hold_fires, hold_next, press_fires, press_next, Action, HeldActions, KeyPresses,
};
use crate::swap::{attempt_swap, swap_allowed, swap_result};

verus! {

/// The controller of one cursor. It keeps the key press counters from tick
/// to tick.
pub struct CursorSystem {
    key_presses: KeyPresses,
}

/// What one tick of the controller did, for those who show or score it.
#[derive(Clone, Copy, Debug, PartialEq, Eq, Structural)]
pub struct Tick {
    /// The round was reset.
    pub reset: bool,
    /// A swap was asked for.
    pub swap_pressed: bool,
    /// The swap that was asked for took place.
    pub swapped: bool,
    /// The sprite frame that shows the cursor in this tick.
    pub sprite_number: usize,
    /// Whether the stack is to rise: the input source's word, handed on.
    pub signal_raise: bool,
}

/// The cursor after the moves of one tick: up, down, left and right, each
/// made if its flag is set. A tick may make several of them.
pub open spec fn steered(c: Cursor, up: bool, down: bool, left: bool, right: bool) -> Cursor {
    let c1 = if up {
        c.moved(Direction::Up)
    } else {
        c
    };
    let c2 = if down {
        c1.moved(Direction::Down)
    } else {
        c1
    };
    let c3 = if left {
        c2.moved(Direction::Left)
    } else {
        c2
    };
    if right {
        c3.moved(Direction::Right)
    } else {
        c3
    }
}

/// Whatever directions act in a tick, both cells of the cursor stay on the
/// playfield, and a cursor above the bottom row stays above it.
pub proof fn lemma_steering_keeps_bounds(c: Cursor, up: bool, down: bool, left: bool, right: bool)
    ensures
        c.wf() ==> steered(c, up, down, left, right).wf(),
        c.in_play() ==> steered(c, up, down, left, right).in_play(),
        steered(c, up, down, left, right).anim_offset == c.anim_offset,
        !up && !down && !left && !right ==> steered(c, up, down, left, right) == c,
{
}

/// The store after a round reset: every block of the grid is at rest again,
/// with the kind that `kinds` has at the linear index of its cell. Blocks of
/// other playfields are as they were.
pub open spec fn reset_blocks(grid: Seq<usize>, blocks: Seq<Block>, kinds: Seq<i32>) -> Seq<Block> {
    Seq::new(
        blocks.len(),
        |h: int|
            if in_grid(grid, blocks, h) {
                Block::fresh(blocks[h].id, kinds[blocks[h].id as int])
            } else {
                blocks[h]
            },
    )
}

/// After a round reset the cell with linear index `i` holds a block at rest
/// of kind `kinds[i]`, and the grid still indexes the store.
pub proof fn lemma_reset_gives_each_cell_its_kind(
    grid: Seq<usize>,
    blocks: Seq<Block>,
    kinds: Seq<i32>,
    i: int,
)
    requires
        indexes(grid, blocks),
        0 <= i < BLOCKS,
    ensures
        indexes(grid, reset_blocks(grid, blocks, kinds)),
        reset_blocks(grid, blocks, kinds)[grid[i] as int] == Block::fresh(i as u32, kinds[i]),
{
    let after = reset_blocks(grid, blocks, kinds);
    assert forall|j: int| 0 <= j < BLOCKS implies 0 <= #[trigger] grid[j] < after.len()
        && after[grid[j] as int].id == j by {
        assert(in_grid(grid, blocks, grid[j] as int));
    }
    assert(in_grid(grid, blocks, grid[i] as int));
}

/// Starts a round over: every block of the grid comes to rest with its new
/// kind, the clear state and the cursor are as at the start of a round.
/// `kinds` holds the kind for each cell, by linear index.
pub fn reset_round(
    kinds: &Vec<i32>,
    cursor: &mut Cursor,
    clear: &mut Clear,
    grid: &Grid,
    blocks: &mut Vec<Block>,
)
    requires
        grid.wf(),
        indexes(grid@, old(blocks)@),
        kinds@.len() >= BLOCKS,
    ensures
        final(blocks)@ == reset_blocks(grid@, old(blocks)@, kinds@),
        indexes(grid@, final(blocks)@),
        all_wf(old(blocks)@) ==> all_wf(final(blocks)@),
        *final(cursor) == Cursor::start(),
        final(clear).is_fresh(),
        final(clear).wf(),
        final(clear).has_headroom(),
{
    let ghost before: Seq<Block> = blocks@;
    let mut i: usize = 0;
    while i < BLOCKS
        invariant
            i <= BLOCKS,
            grid.wf(),
            indexes(grid@, before),
            kinds@.len() >= BLOCKS,
            blocks@.len() == before.len(),
            forall|h: int|
                0 <= h < before.len() ==> #[trigger] blocks@[h] == if in_grid(grid@, before, h)
                    && before[h].id < i {
                    Block::fresh(before[h].id, kinds@[before[h].id as int])
                } else {
                    before[h]
                },
        decreases BLOCKS - i,
    {
        let h: usize = grid.at(i);
        assert(in_grid(grid@, before, h as int));
        let mut b: Block = blocks[h];
        b.reset(kinds[i]);
        blocks[h] = b;
        i += 1;
    }
    assert(blocks@ =~= reset_blocks(grid@, before, kinds@));
    proof {
        lemma_reset_gives_each_cell_its_kind(grid@, before, kinds@, 0);
    }
    clear.reset();
    *cursor = Cursor::new();
}

impl CursorSystem {
    /// The counter of `action`: the ticks for which it has been held, as far
    /// as they were counted.
    pub closed spec fn counter(&self, action: Action) -> u32 {
        self.key_presses.counter(action)
    }

    /// Whether `other` has the same counters but for that of `action`.
    pub open spec fn same_but(&self, other: CursorSystem, action: Action) -> bool {
        forall|a: Action| a != action ==> self.counter(a) == other.counter(a)
    }

    /// Whether a tick with `held` can be counted: no counter of a held
    /// direction is at the end of its range.
    pub open spec fn can_count(&self, held: HeldActions) -> bool {
        &&& held.up ==> self.counter(Action::Up) < u32::MAX
        &&& held.down ==> self.counter(Action::Down) < u32::MAX
        &&& held.left ==> self.counter(Action::Left) < u32::MAX
        &&& held.right ==> self.counter(Action::Right) < u32::MAX
    }

    /// Whether a tick with `held` resets the round.
    pub open spec fn resets(&self, held: HeldActions) -> bool {
        press_fires(self.counter(Action::Space) as nat, held.space)
    }

    /// A controller that has seen no action yet.
    pub fn new() -> (s: CursorSystem)
        ensures
            forall|a: Action| s.counter(a) == 0,
    {
        CursorSystem { key_presses: KeyPresses::new() }
    }

    /// Reads the counter of `action`.
    pub fn count(&self, action: Action) -> (c: u32)
        ensures
            c == self.counter(action),
    {
        self.key_presses.count(action)
    }

    /// Counts one tick of the action that goes by `name`, held or not, and
    /// says whether the action acts in this tick: on the first tick of a
    /// hold, and on every tick after `REPEAT_DELAY` further ones.
    pub fn hold(&mut self, held: bool, name: &str) -> (r: bool)
        requires
            action_named(name@) is Some,
            held ==> old(self).counter(action_named(name@).unwrap()) < u32::MAX,
        ensures
            r == hold_fires(old(self).counter(action_named(name@).unwrap()) as nat, held),
            final(self).counter(action_named(name@).unwrap()) == hold_next(
                old(self).counter(action_named(name@).unwrap()) as nat,
                held,
            ),
            final(self).same_but(*old(self), action_named(name@).unwrap()),
    {
        match Action::from_name(name) {
            Some(action) => self.key_presses.hold(held, action),
            None => false,
        }
    }

    /// Counts one tick of the action that goes by `name`, held or not, and
    /// says whether the action was pressed in this tick: on the first tick
    /// of a hold and on no other.
    pub fn press(&mut self, held: bool, name: &str) -> (r: bool)
        requires
            action_named(name@) is Some,
        ensures
            r == press_fires(old(self).counter(action_named(name@).unwrap()) as nat, held),
            final(self).counter(action_named(name@).unwrap()) == press_next(
                old(self).counter(action_named(name@).unwrap()) as nat,
                held,
            ),
            final(self).same_but(*old(self), action_named(name@).unwrap()),
    {
        match Action::from_name(name) {
            Some(action) => self.key_presses.press(held, action),
            None => false,
        }
    }

    /// Tests whether a tick with `held` can be counted.
    pub fn is_countable(&self, held: &HeldActions) -> (r: bool)
        ensures
            r == self.can_count(*held),
    {
        (!held.up || self.key_presses.count(Action::Up) < u32::MAX) && (!held.down
            || self.key_presses.count(Action::Down) < u32::MAX) && (!held.left
            || self.key_presses.count(Action::Left) < u32::MAX) && (!held.right
            || self.key_presses.count(Action::Right) < u32::MAX)
    }

    /// Tests whether a tick with `held` resets the round, and so needs new
    /// kinds.
    pub fn will_reset(&self, held: &HeldActions) -> (r: bool)
        ensures
            r == self.resets(*held),
    {
        held.space && self.key_presses.count(Action::Space) == 0
    }

    /// One tick of the controller.
    ///
    /// The four directions are looked at one after the other, and each that
    /// acts moves the cursor by a cell where there is room. A press of
    /// "space" resets the round with `kinds`, which is not read otherwise. A
    /// press of "swap" asks for the swap of the two cells under the cursor.
    /// Last, the cursor's animation goes on by a step.
    pub fn run(
        &mut self,
        held: &HeldActions,
        kinds: &Vec<i32>,
        cursor: &mut Cursor,
        clear: &mut Clear,
        grid: &Grid,
        blocks: &mut Vec<Block>,
    ) -> (tick: Tick)
        requires
            old(self).can_count(*held),
            old(self).resets(*held) ==> kinds@.len() >= BLOCKS,
            old(cursor).wf(),
            grid.wf(),
            indexes(grid@, old(blocks)@),
        ensures
            final(self).counter(Action::Up) == hold_next(
                old(self).counter(Action::Up) as nat,
                held.up,
            ),
            final(self).counter(Action::Down) == hold_next(
                old(self).counter(Action::Down) as nat,
                held.down,
            ),
            final(self).counter(Action::Left) == hold_next(
                old(self).counter(Action::Left) as nat,
                held.left,
            ),
            final(self).counter(Action::Right) == hold_next(
                old(self).counter(Action::Right) as nat,
                held.right,
            ),
            final(self).counter(Action::Space) == press_next(
                old(self).counter(Action::Space) as nat,
                held.space,
            ),
            final(self).counter(Action::Swap) == press_next(
                old(self).counter(Action::Swap) as nat,
                held.swap,
            ),
            ({
                let reset = old(self).resets(*held);
                let swap = press_fires(old(self).counter(Action::Swap) as nat, held.swap);
                let aimed = if reset {
                    Cursor::start()
                } else {
                    steered(
                        *old(cursor),
                        hold_fires(old(self).counter(Action::Up) as nat, held.up),
                        hold_fires(old(self).counter(Action::Down) as nat, held.down),
                        hold_fires(old(self).counter(Action::Left) as nat, held.left),
                        hold_fires(old(self).counter(Action::Right) as nat, held.right),
                    )
                };
                let stocked = if reset {
                    reset_blocks(grid@, old(blocks)@, kinds@)
                } else {
                    old(blocks)@
                };
                let cell = cell_index(aimed.x as int, aimed.y as int);
                &&& *final(cursor) == aimed.animated()
                &&& final(blocks)@ == if swap {
                    swap_result(grid@, stocked, cell)
                } else {
                    stocked
                }
                &&& if reset {
                    final(clear).is_fresh()
                } else {
                    *final(clear) == *old(clear)
                }
                &&& tick == Tick {
                    reset,
                    swap_pressed: swap,
                    swapped: swap && swap_allowed(grid@, stocked, cell),
                    sprite_number: aimed.sprite() as usize,
                    signal_raise: held.raise,
                }
            }),
            final(cursor).wf(),
            old(cursor).in_play() ==> final(cursor).in_play(),
            indexes(grid@, final(blocks)@),
            all_wf(old(blocks)@) ==> all_wf(final(blocks)@),
    {
        if self.key_presses.hold(held.up, Action::Up) {
            cursor.step(Direction::Up);
        }
        if self.key_presses.hold(held.down, Action::Down) {
            cursor.step(Direction::Down);
        }
        if self.key_presses.hold(held.left, Action::Left) {
            cursor.step(Direction::Left);
        }
        if self.key_presses.hold(held.right, Action::Right) {
            cursor.step(Direction::Right);
        }
        let reset: bool = self.key_presses.press(held.space, Action::Space);
        if reset {
            reset_round(kinds, cursor, clear, grid, blocks);
        }
        let swap_pressed: bool = self.key_presses.press(held.swap, Action::Swap);
        let mut swapped: bool = false;
        if swap_pressed {
            swapped = attempt_swap(cursor.x, cursor.y, grid, blocks);
        }
        let sprite_number: usize = cursor.sprite_number();
        cursor.advance_animation();
        Tick { reset, swap_pressed, swapped, sprite_number, signal_raise: held.raise }
    }
}

} // verus!
