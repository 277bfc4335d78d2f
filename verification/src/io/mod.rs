//! Buffered process I/O.

pub mod buffer;
pub mod drain;
pub mod writer;
