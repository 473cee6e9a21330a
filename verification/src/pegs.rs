//! A model of the pegs and of the disks on them, and what it means to replay
//! a sequence of steps on it under the rule of the puzzle.

use crate::moves::Step;
use vstd::prelude::*;

verus! {

/// The state of the puzzle: for each peg, by its label, the sizes of the disks
/// on it from the bottom one to the top one.
pub type Pegs = Map<char, Seq<int>>;

/// The tower of the disks `n`, `n - 1`, ..., `1`, the largest at the bottom.
pub open spec fn tower(n: nat) -> Seq<int> {
    Seq::new(n, |i: int| n - i)
}

/// Three pegs: the tower of `n` disks stands on `peg`, and the pegs `spare`
/// and `other` are empty.
pub open spec fn tower_on(n: nat, peg: char, spare: char, other: char) -> Pegs {
    map![spare => Seq::<int>::empty(), other => Seq::<int>::empty(), peg => tower(n)]
}

/// The rule of the puzzle, and that a step tells the truth: both pegs exist
/// and differ, the disk that the step names lies on top of the peg it leaves,
/// and it is smaller than every disk on the peg it lands on.
pub open spec fn legal(pegs: Pegs, step: Step) -> bool {
    &&& pegs.dom().contains(step.from)
    &&& pegs.dom().contains(step.to)
    &&& step.from != step.to
    &&& pegs[step.from].len() > 0
    &&& pegs[step.from].last() == step.disk
    &&& forall|i: int| 0 <= i < pegs[step.to].len() ==> step.disk < #[trigger] pegs[step.to][i]
}

/// The pegs after a step: the top disk of one peg has gone onto another.
pub open spec fn after(pegs: Pegs, step: Step) -> Pegs {
    pegs.insert(step.from, pegs[step.from].drop_last()).insert(
        step.to,
        pegs[step.to].push(step.disk),
    )
}

/// Replays `steps` in order, starting from `pegs`. The result is the state
/// after the last step, or `None` if some step was not legal where it came.
pub open spec fn replay(pegs: Pegs, steps: Seq<Step>) -> Option<Pegs>
    decreases steps.len(),
{
    if steps.len() == 0 {
        Some(pegs)
    } else if legal(pegs, steps[0]) {
        replay(after(pegs, steps[0]), steps.skip(1))
    } else {
        None
    }
}

/// Replaying one step is checking it and making it.
pub proof fn lemma_replay_one(pegs: Pegs, step: Step)
    ensures
        replay(pegs, seq![step]) == if legal(pegs, step) {
            Some(after(pegs, step))
        } else {
            None
        },
{
    reveal_with_fuel(replay, 2);
    assert(seq![step].skip(1) =~= Seq::<Step>::empty());
}

/// Replaying two sequences one after the other is replaying the first and,
/// if that went well, the second from where the first ended.
pub proof fn lemma_replay_concat(pegs: Pegs, first: Seq<Step>, second: Seq<Step>)
    ensures
        replay(pegs, first + second) == match replay(pegs, first) {
            Some(between) => replay(between, second),
            None => None,
        },
    decreases first.len(),
{
    if first.len() == 0 {
        assert(first + second =~= second);
    } else {
        assert((first + second).skip(1) =~= first.skip(1) + second);
        if legal(pegs, first[0]) {
            lemma_replay_concat(after(pegs, first[0]), first.skip(1), second);
        }
    }
}

} // verus!
