//! Consumers, and adapters that wrap consumers.
pub mod cursor;
pub use cursor::{cursor, Cursor};
pub mod into_vec;
pub use into_vec::{into_vec, IntoVec};
pub mod inv;
pub use inv::{inv, Inv};
pub mod wrap_noop;
pub mod scramble;
pub use scramble::{scramble, ConsumeOperation, ConsumeOperations, Scramble};
