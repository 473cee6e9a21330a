//! The proof that the steps of the solution, replayed on the pegs, obey the
//! rule of the puzzle and carry the whole tower to its destination.

use crate::moves::Step;
use crate::pegs::{
    after, legal, lemma_replay_concat, lemma_replay_one, replay, tower, tower_on, Pegs,
};
use crate::steps::tower_steps;
use vstd::prelude::*;

verus! {

/// Every disk of `stack` is larger than `n`.
pub open spec fn all_larger(stack: Seq<int>, n: nat) -> bool {
    forall|i: int| 0 <= i < stack.len() ==> stack[i] > n
}

/// The `n` smallest disks stand as a tower on top of `from`, and every other
/// disk on the three pegs is larger than `n`.
pub open spec fn ready(pegs: Pegs, n: nat, from: char, via: char, to: char) -> bool {
    &&& from != via && via != to && from != to
    &&& pegs.dom().contains(from)
    &&& pegs.dom().contains(via)
    &&& pegs.dom().contains(to)
    &&& pegs[from].len() >= n
    &&& pegs[from].skip(pegs[from].len() - n) == tower(n)
    &&& all_larger(pegs[from].take(pegs[from].len() - n), n)
    &&& all_larger(pegs[via], n)
    &&& all_larger(pegs[to], n)
}

/// The pegs once the tower of the `n` smallest disks has gone from the top of
/// `from` to the top of `to`.
pub open spec fn carried(pegs: Pegs, n: nat, from: char, to: char) -> Pegs {
    pegs.insert(from, pegs[from].take(pegs[from].len() - n)).insert(to, pegs[to] + tower(n))
}

/// Wherever the `n` smallest disks stand as a tower on top of one peg, and
/// whatever larger disks lie below and on the other two pegs, every step of
/// the solution is legal where it comes, and in the end the tower stands on
/// top of the peg it was sent to, with nothing else changed.
pub proof fn lemma_replay_carries(pegs: Pegs, n: nat, from: char, via: char, to: char)
    requires
        ready(pegs, n, from, via, to),
    ensures
        replay(pegs, tower_steps(n, from, via, to)) == Some(carried(pegs, n, from, to)),
    decreases n,
{
    if n == 0 {
        assert(pegs[from].take(pegs[from].len() - 0) =~= pegs[from]);
        assert(pegs[to] + tower(0) =~= pegs[to]);
        assert(carried(pegs, n, from, to) =~= pegs);
    } else {
        let rest: nat = (n - 1) as nat;
        let base = pegs[from].take(pegs[from].len() - n);
        let largest = Step { disk: n as int, from, to };
        let upper = tower_steps(rest, from, to, via);
        let lower = tower_steps(rest, via, from, to);

        // The smaller disks go out of the way.
        assert(pegs[from].skip(pegs[from].len() - rest) =~= tower(rest)) by {
            assert forall|i: int| 0 <= i < rest implies #[trigger] pegs[from].skip(
                pegs[from].len() - rest,
            )[i] == tower(rest)[i] by {
                assert(pegs[from].skip(pegs[from].len() - n)[i + 1] == tower(n)[i + 1]);
            }
        }
        assert(pegs[from].take(pegs[from].len() - rest) =~= base.push(n as int)) by {
            assert(pegs[from].skip(pegs[from].len() - n)[0] == tower(n)[0]);
        }
        lemma_replay_carries(pegs, rest, from, to, via);
        let aside = carried(pegs, rest, from, via);

        // The largest disk goes across.
        assert(legal(aside, largest));
        lemma_replay_one(aside, largest);
        let across = after(aside, largest);

        // The smaller disks follow.
        assert(across[via].skip(across[via].len() - rest) =~= tower(rest));
        assert(across[via].take(across[via].len() - rest) =~= pegs[via]);
        assert(across[from] =~= base);
        lemma_replay_carries(across, rest, via, from, to);
        let done = carried(across, rest, via, to);

        assert(done =~= carried(pegs, n, from, to)) by {
            assert(done[to] =~= pegs[to] + tower(n));
        }
        lemma_replay_concat(pegs, upper, seq![largest]);
        assert(upper.push(largest) =~= upper + seq![largest]);
        lemma_replay_concat(pegs, upper.push(largest), lower);
    }
}

/// The solution solves the puzzle: replayed from the state in which the tower
/// of `n` disks stands on peg `a` and the pegs `b` and `c` are empty, no step
/// takes a disk that is not on top or puts one onto a smaller one, and in the
/// end the tower stands on peg `c` and the pegs `a` and `b` are empty.
pub proof fn lemma_replay_solves(n: nat, a: char, b: char, c: char)
    requires
        a != b,
        b != c,
        a != c,
    ensures
        replay(tower_on(n, a, b, c), tower_steps(n, a, b, c)) == Some(tower_on(n, c, a, b)),
{
    let start = tower_on(n, a, b, c);
    assert(start[a].skip(start[a].len() - n) =~= tower(n));
    assert(start[a].take(start[a].len() - n) =~= Seq::<int>::empty());
    lemma_replay_carries(start, n, a, b, c);
    assert(carried(start, n, a, c) =~= tower_on(n, c, a, b)) by {
        assert(start[c] + tower(n) =~= tower(n));
    }
}

} // verus!
