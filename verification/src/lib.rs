//! The Tower of Hanoi: the sequence of single-disk moves that carries a tower
//! of disks from one peg to another, with the proof that the sequence is a
//! solution of the puzzle.
//!
//! [`hanno_tower`] computes the moves. What it returns is defined in
//! [`steps`]; [`pegs`] models the state of the puzzle and its rule;
//! [`simulation`] proves that the moves, replayed on the pegs, obey the rule
//! and rebuild the tower on the peg it was sent to; [`symmetry`] says what
//! becomes of the moves when the pegs exchange their roles.

pub mod moves;
pub mod pegs;
pub mod simulation;
pub mod steps;
pub mod symmetry;
pub mod tower;

pub use moves::{steps_of, Move, Step};
pub use tower::{hanno_tower, try_hanno_tower, HanoiError};
