//! What runs once per tick: the cursor's controller, and the playfield's
//! match and chain engine.

pub mod cursor_system;
pub mod playfield;
