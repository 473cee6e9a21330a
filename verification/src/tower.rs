//! The functions that compute the solution of the puzzle.

use crate::moves::{steps_of, Move, Step};
use crate::pegs::{replay, tower_on};
use crate::simulation::lemma_replay_solves;
use crate::steps::{lemma_step_count, tower_steps};
use vstd::arithmetic::power2::pow2;
use vstd::prelude::*;

verus! {

/// Why no solution was computed.
#[derive(Clone, Copy, Debug, PartialEq, Eq, Structural)]
pub enum HanoiError {
    /// The number of disks was negative.
    NegativeDiskCount,
}

/// Appends to `out` the moves that carry `num` disks from peg `a` to peg `c`,
/// with peg `b` as the spare one.
fn emit_moves(num: i32, a: char, b: char, c: char, out: &mut Vec<Move>)
    requires
        num >= 1,
    ensures
        steps_of(final(out)@) == steps_of(old(out)@) + tower_steps(num as nat, a, b, c),
    decreases num,
{
    if num == 1 {
        out.push(Move { disk: 1, from: a, to: c });
        proof {
            reveal_with_fuel(tower_steps, 2);
            assert(steps_of(out@) =~= steps_of(old(out)@) + tower_steps(1, a, b, c));
        }
        return ;
    }
    let ghost before = steps_of(out@);
    emit_moves(num - 1, a, c, b, out);
    let ghost upper = steps_of(out@);
    out.push(Move { disk: num, from: a, to: c });
    let ghost moved = steps_of(out@);
    emit_moves(num - 1, b, a, c, out);
    proof {
        let rest: nat = (num - 1) as nat;
        let largest = Step { disk: num as int, from: a, to: c };
        assert(moved =~= upper.push(largest));
        assert(steps_of(out@) =~= before + (tower_steps(rest, a, c, b).push(largest)
            + tower_steps(rest, b, a, c)));
    }
}

/// The moves that carry a tower of `num` disks from peg `a` to peg `c`, with
/// peg `b` as the spare one, in the order in which they are made.
///
/// They are the steps of [`tower_steps`], `2^num - 1` of them. Where the three
/// pegs differ, replaying them from the tower on `a` breaks no rule of the
/// puzzle and ends with the tower on `c`.
pub fn hanno_tower(num: i32, a: char, b: char, c: char) -> (moves: Vec<Move>)
    requires
        num >= 1,
    ensures
        steps_of(moves@) == tower_steps(num as nat, a, b, c),
        moves@.len() == pow2(num as nat) - 1,
        a != b && b != c && a != c ==> replay(tower_on(num as nat, a, b, c), steps_of(moves@))
            == Some(tower_on(num as nat, c, a, b)),
{
    let mut moves: Vec<Move> = Vec::new();
    emit_moves(num, a, b, c, &mut moves);
    proof {
        assert(steps_of(moves@) =~= tower_steps(num as nat, a, b, c));
        lemma_step_count(num as nat, a, b, c);
        if a != b && b != c && a != c {
            lemma_replay_solves(num as nat, a, b, c);
        }
    }
    moves
}

/// The same for any number of disks: a negative number is refused, no disk
/// takes no move, and one disk or more takes the moves of [`hanno_tower`].
pub fn try_hanno_tower(num: i32, a: char, b: char, c: char) -> (result: Result<
    Vec<Move>,
    HanoiError,
>)
    ensures
        num < 0 <==> result is Err,
        result matches Err(error) ==> error == HanoiError::NegativeDiskCount,
        result matches Ok(moves) ==> {
            &&& steps_of(moves@) == tower_steps(num as nat, a, b, c)
            &&& moves@.len() == pow2(num as nat) - 1
            &&& a != b && b != c && a != c ==> replay(
                tower_on(num as nat, a, b, c),
                steps_of(moves@),
            ) == Some(tower_on(num as nat, c, a, b))
        },
{
    if num < 0 {
        Err(HanoiError::NegativeDiskCount)
    } else if num == 0 {
        let moves: Vec<Move> = Vec::new();
        proof {
            assert(steps_of(moves@) =~= tower_steps(0, a, b, c));
            lemma_step_count(0, a, b, c);
            if a != b && b != c && a != c {
                lemma_replay_solves(0, a, b, c);
            }
        }
        Ok(moves)
    } else {
        Ok(hanno_tower(num, a, b, c))
    }
}

} // verus!
