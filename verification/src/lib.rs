//! An interpreter core for an eight-instruction tape language.
//!
//! A program is a sequence of bytes. Six of the instructions act on a tape of
//! byte cells, two delimit loops. Before anything runs, the loop brackets are
//! matched and each one is given the position at which execution continues
//! when its branch is taken.

pub mod error;
pub mod instruction;
pub mod tape;
pub mod brackets;
pub mod semantics;
pub mod machine;
