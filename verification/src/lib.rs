//! Simulation core of a falling-block puzzle with a cursor that swaps
//! horizontally adjacent blocks: input edge detection, cursor control, the
//! swap rules, match scanning with chain scoring, and the block state machine.
//!
//! Everything here works on plain values. A caller reads its input source once
//! per tick, hands the result in as booleans, and renders what comes back.

pub mod block;
pub mod clear;
pub mod cursor;
pub mod data;
pub mod grid;
pub mod input;
pub mod swap;
pub mod systems;
