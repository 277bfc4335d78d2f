//! Process spawning and its lifecycle.
//!
//! The caller gives the exact argument vector and chooses the backend. Nothing
//! is inferred, and no backend stands in for another.

pub mod child;
pub mod options;
pub mod pipes;
pub mod posix;
pub mod process;
pub mod wait;
