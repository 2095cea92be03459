//! Producers, and adapters that wrap producers.
pub mod cursor;
pub use cursor::{cursor, Cursor, Cursor_};
pub mod inv;
pub use inv::{inv, Inv};
pub mod map_last;
pub use map_last::{map_last, MapLast};
pub mod wrap_noop;
pub mod scramble;
pub use scramble::{scramble, ProduceOperation, ProduceOperations, Scramble};
