//! Systems that work on the blocks of one playfield.

pub mod clear_system;
