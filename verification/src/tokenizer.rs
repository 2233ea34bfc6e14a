//! The tokenizer: byte grammar, cursor, state machine and the pull driver.

pub mod grammar;
pub mod reader;
pub mod render;
pub mod scanner;
pub mod iterator;
pub mod laws;

pub use iterator::StrIterator;
