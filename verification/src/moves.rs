//! A single move of the puzzle, and its mathematical view.

use vstd::prelude::*;

verus! {

/// One move as the library hands it out: the disk that travels and the labels
/// of the peg it leaves and of the peg it lands on. Disks are numbered by
/// size, disk 1 being the smallest.
#[derive(Clone, Copy, Debug, PartialEq, Eq, Structural)]
pub struct Move {
    pub disk: i32,
    pub from: char,
    pub to: char,
}

/// The mathematical view of a [`Move`]: the disk number is an unbounded
/// integer.
pub struct Step {
    pub disk: int,
    pub from: char,
    pub to: char,
}

impl View for Move {
    type V = Step;

    open spec fn view(&self) -> Step {
        Step { disk: self.disk as int, from: self.from, to: self.to }
    }
}

/// The views of a sequence of moves, in the same order.
pub open spec fn steps_of(moves: Seq<Move>) -> Seq<Step> {
    moves.map_values(|m: Move| m@)
}

} // verus!
