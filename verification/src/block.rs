//! One cell's contents and its state machine.

use vstd::prelude::*;
use crate::data::KIND_EMPTY;

verus! {

/// What a block is doing.
#[derive(Clone, Copy, Debug, PartialEq, Eq, Structural)]
pub enum BlockState {
    /// At rest: the block takes part in swaps and matches.
    Idle,
    /// Travelling to the neighbouring cell.
    Swap,
    /// Matched, and running through its clear animation.
    Clear,
}

/// The contents of one cell.
#[derive(Clone, Copy, Debug, PartialEq, Eq, Structural)]
pub struct Block {
    /// Category of the block, or `KIND_EMPTY`.
    pub kind: i32,
    /// Linear index of the cell that the block fills. It never changes.
    pub id: u32,
    /// Current state.
    pub state: BlockState,
    /// Ticks left in the current state.
    pub counter: u32,
    /// Horizontal displacement from the cell while a swap is animated.
    pub offset_x: i32,
    /// Vertical displacement from the cell.
    pub offset_y: i32,
    /// Side that a swap moves the block to: `1` to the right, `-1` to the
    /// left, `0` while no swap is under way.
    pub move_dir: i32,
    /// Ticks after the start of a clear at which this block pops.
    pub clear_time: u32,
    /// Value that `counter` had when the clear started.
    pub clear_start_counter: u32,
    /// Set by whoever lets blocks fall, on a block that landed because
    /// blocks below it were cleared.
    pub chainable: bool,
}

/// The block that `change_state` makes of `b`: the new state is `target`, and
/// every field that belongs to another state is back at its rest value.
pub open spec fn with_state(b: Block, target: BlockState) -> Block {
    Block {
        state: target,
        counter: if target is Idle { 0 } else { b.counter },
        offset_x: if target is Swap { b.offset_x } else { 0 },
        offset_y: if target is Swap { b.offset_y } else { 0 },
        move_dir: if target is Swap { b.move_dir } else { 0 },
        clear_time: if target is Clear { b.clear_time } else { 0 },
        clear_start_counter: if target is Clear { b.clear_start_counter } else { 0 },
        ..b
    }
}

/// Moves `block` into the state `target`. Nothing else may write `state`.
///
/// Fields that only mean something in another state are reset, so that a
/// swap's displacement never shows in a clear animation, nor a clear's timing
/// in a block at rest. An idle block has no ticks left.
pub fn change_state(block: &mut Block, target: BlockState)
    ensures
        *final(block) == with_state(*old(block), target),
        final(block).wf(),
{
    let b: Block = *block;
    let idle: bool = target == BlockState::Idle;
    let swap: bool = target == BlockState::Swap;
    let clear: bool = target == BlockState::Clear;
    *block = Block {
        kind: b.kind,
        id: b.id,
        state: target,
        counter: if idle { 0 } else { b.counter },
        offset_x: if swap { b.offset_x } else { 0 },
        offset_y: if swap { b.offset_y } else { 0 },
        move_dir: if swap { b.move_dir } else { 0 },
        clear_time: if clear { b.clear_time } else { 0 },
        clear_start_counter: if clear { b.clear_start_counter } else { 0 },
        chainable: b.chainable,
    };
}

/// Whether every block of a store is well-formed.
pub open spec fn all_wf(blocks: Seq<Block>) -> bool {
    forall|h: int| 0 <= h < blocks.len() ==> (#[trigger] blocks[h]).wf()
}

impl Block {
    /// An idle block has no ticks left on its counter.
    pub open spec fn wf(&self) -> bool {
        self.state is Idle ==> self.counter == 0
    }

    /// The block at rest with the given identifier and kind.
    pub open spec fn fresh(id: u32, kind: i32) -> Block {
        Block {
            kind,
            id,
            state: BlockState::Idle,
            counter: 0,
            offset_x: 0,
            offset_y: 0,
            move_dir: 0,
            clear_time: 0,
            clear_start_counter: 0,
            chainable: false,
        }
    }

    /// Whether the cell holds no block.
    pub open spec fn empty(&self) -> bool {
        self.kind == KIND_EMPTY
    }

    /// Whether the block can take part in a match: it is there, and it is not
    /// being cleared already.
    pub open spec fn comboable(&self) -> bool {
        !self.empty() && !(self.state is Clear)
    }

    /// Whether the block can take part in a match of blocks of `kind`.
    pub open spec fn comboable_with(&self, kind: i32) -> bool {
        self.comboable() && self.kind == kind
    }

    /// Whether the block may trade places with `other`, its horizontal
    /// neighbour, while `above` lies on top of it: both are at rest, and the
    /// block above, if there is one, is not in the middle of a swap of its own.
    pub open spec fn swappable(&self, other: Block, above: Option<Block>) -> bool {
        &&& self.state is Idle
        &&& other.state is Idle
        &&& match above {
            Some(a) => !(a.state is Swap),
            None => true,
        }
    }

    /// Makes a block at rest.
    pub fn new(id: u32, kind: i32) -> (b: Block)
        ensures
            b == Block::fresh(id, kind),
            b.wf(),
    {
        Block {
            kind,
            id,
            state: BlockState::Idle,
            counter: 0,
            offset_x: 0,
            offset_y: 0,
            move_dir: 0,
            clear_time: 0,
            clear_start_counter: 0,
            chainable: false,
        }
    }

    /// Puts the block back to rest with a new kind, as at the start of a round.
    /// The identifier stays.
    pub fn reset(&mut self, kind: i32)
        ensures
            *final(self) == Block::fresh(old(self).id, kind),
            final(self).wf(),
    {
        *self = Block::new(self.id, kind);
    }

    /// Says whether the cell holds no block.
    pub fn is_empty(&self) -> (r: bool)
        ensures
            r == self.empty(),
    {
        self.kind == KIND_EMPTY
    }

    /// Says whether the block can take part in a match.
    pub fn is_comboable(&self) -> (r: bool)
        ensures
            r == self.comboable(),
    {
        self.kind != KIND_EMPTY && self.state != BlockState::Clear
    }

    /// Says whether the block can take part in a match of blocks of `kind`.
    pub fn is_comboable_with(&self, kind: i32) -> (r: bool)
        ensures
            r == self.comboable_with(kind),
    {
        self.is_comboable() && self.kind == kind
    }

    /// Says whether the block may trade places with `other`, its horizontal
    /// neighbour, while `above` lies on top of it.
    pub fn is_swappable(&self, other: &Block, above: Option<Block>) -> (r: bool)
        ensures
            r == self.swappable(*other, above),
    {
        if self.state != BlockState::Idle || other.state != BlockState::Idle {
            return false;
        }
        match above {
            Some(a) => a.state != BlockState::Swap,
            None => true,
        }
    }
}

} // verus!
