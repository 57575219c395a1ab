//! The cursor: it lies over two horizontally adjacent cells.

use vstd::prelude::*;
use crate::data::{cell_index, linear_index, ANIM_STEPS_PER_FRAME, ANIM_WRAP, COLS, ROWS};

verus! {

/// A direction in which the cursor moves by one cell.
#[derive(Clone, Copy, Debug, PartialEq, Eq, Structural)]
pub enum Direction {
    Up,
    Down,
    Left,
    Right,
}

/// The cursor of a playfield. `x` and `y` name the left one of its two cells.
/// `anim_offset` counts animation steps, `ANIM_STEPS_PER_FRAME` of them to one
/// sprite frame.
#[derive(Clone, Copy, Debug, PartialEq, Eq, Structural)]
pub struct Cursor {
    pub x: usize,
    pub y: usize,
    pub anim_offset: u32,
}

/// The cursor after the moves of `moves`, first to last.
pub open spec fn moved_all(c: Cursor, moves: Seq<Direction>) -> Cursor
    decreases moves.len(),
{
    if moves.len() == 0 {
        c
    } else {
        moved_all(c, moves.drop_last()).moved(moves.last())
    }
}

/// Whatever moves are made, both cells of the cursor stay on the playfield,
/// and a cursor above the bottom row stays above it. Moving changes nothing
/// but the position.
pub proof fn lemma_moves_keep_bounds(c: Cursor, moves: Seq<Direction>)
    ensures
        c.wf() ==> moved_all(c, moves).wf(),
        c.in_play() ==> moved_all(c, moves).in_play(),
        moved_all(c, moves).anim_offset == c.anim_offset,
    decreases moves.len(),
{
    if moves.len() > 0 {
        lemma_moves_keep_bounds(c, moves.drop_last());
    }
}

/// A move against the edge that bounds it leaves the cursor where it is.
pub proof fn lemma_move_at_edge(c: Cursor)
    ensures
        c.y >= ROWS - 1 ==> c.moved(Direction::Up) == c,
        c.y <= 1 ==> c.moved(Direction::Down) == c,
        c.x == 0 ==> c.moved(Direction::Left) == c,
        c.x >= COLS - 2 ==> c.moved(Direction::Right) == c,
{
}

impl Cursor {
    /// Both cells of the cursor lie on the playfield, and the animation is
    /// within its cycle.
    pub open spec fn wf(&self) -> bool {
        &&& self.x <= COLS - 2
        &&& self.y <= ROWS - 1
        &&& self.anim_offset <= ANIM_WRAP
    }

    /// The cursor is well-formed and above the bottom row, which no move
    /// enters.
    pub open spec fn in_play(&self) -> bool {
        self.wf() && 1 <= self.y
    }

    /// Where a round starts: the leftmost cells of the lowest row that the
    /// cursor moves in, with the animation at its beginning.
    pub open spec fn start() -> Cursor {
        Cursor { x: 0, y: 1, anim_offset: 0 }
    }

    /// The cursor after one move. A move that would leave the rows and columns
    /// open to the cursor does nothing.
    pub open spec fn moved(self, dir: Direction) -> Cursor {
        match dir {
            Direction::Up => if self.y < ROWS - 1 {
                Cursor { y: (self.y + 1) as usize, ..self }
            } else {
                self
            },
            Direction::Down => if self.y > 1 {
                Cursor { y: (self.y - 1) as usize, ..self }
            } else {
                self
            },
            Direction::Left => if self.x > 0 {
                Cursor { x: (self.x - 1) as usize, ..self }
            } else {
                self
            },
            Direction::Right => if self.x < COLS - 2 {
                Cursor { x: (self.x + 1) as usize, ..self }
            } else {
                self
            },
        }
    }

    /// The cursor one animation step later: the step counts up to `ANIM_WRAP`
    /// and starts over after it.
    pub open spec fn animated(self) -> Cursor {
        Cursor {
            anim_offset: if self.anim_offset < ANIM_WRAP {
                (self.anim_offset + 1) as u32
            } else {
                0
            },
            ..self
        }
    }

    /// The sprite frame that shows the cursor: the whole frames that the
    /// animation has passed.
    pub open spec fn sprite(self) -> int {
        self.anim_offset as int / ANIM_STEPS_PER_FRAME as int
    }

    /// Makes the cursor of a new round.
    pub fn new() -> (c: Cursor)
        ensures
            c == Cursor::start(),
            c.in_play(),
    {
        Cursor { x: 0, y: 1, anim_offset: 0 }
    }

    /// Moves the cursor by one cell, unless the move would take it off the
    /// rows and columns open to it.
    pub fn step(&mut self, dir: Direction)
        ensures
            *final(self) == old(self).moved(dir),
            old(self).wf() ==> final(self).wf(),
            old(self).in_play() ==> final(self).in_play(),
    {
        match dir {
            Direction::Up => {
                if self.y < ROWS - 1 {
                    self.y = self.y + 1;
                }
            },
            Direction::Down => {
                if self.y > 1 {
                    self.y = self.y - 1;
                }
            },
            Direction::Left => {
                if self.x > 0 {
                    self.x = self.x - 1;
                }
            },
            Direction::Right => {
                if self.x < COLS - 2 {
                    self.x = self.x + 1;
                }
            },
        }
    }

    /// Advances the animation by one step.
    pub fn advance_animation(&mut self)
        ensures
            *final(self) == old(self).animated(),
            final(self).anim_offset <= ANIM_WRAP,
    {
        if self.anim_offset < ANIM_WRAP {
            self.anim_offset = self.anim_offset + 1;
        } else {
            self.anim_offset = 0;
        }
    }

    /// The sprite frame to show.
    pub fn sprite_number(&self) -> (n: usize)
        ensures
            n == self.sprite(),
    {
        (self.anim_offset / ANIM_STEPS_PER_FRAME) as usize
    }

    /// Linear index of the cursor's left cell. Its right cell is the next one.
    pub fn cell(&self) -> (i: usize)
        requires
            self.wf(),
        ensures
            i == cell_index(self.x as int, self.y as int),
            i + 1 == cell_index(self.x + 1, self.y as int),
    {
        linear_index(self.x, self.y)
    }
}

} // verus!
