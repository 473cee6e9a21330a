//! The solution of the puzzle as a sequence of steps, its length and its two
//! ends.

use crate::moves::Step;
use vstd::arithmetic::power2::{lemma2_to64, lemma_pow2_unfold, pow2};
use vstd::prelude::*;

verus! {

/// The steps that carry the `n` smallest disks from peg `from` to peg `to`,
/// with peg `via` as the spare one: first the `n - 1` smaller disks go out of
/// the way onto `via`, then disk `n` goes straight to `to`, then the `n - 1`
/// smaller disks follow it. No disk needs no step.
pub open spec fn tower_steps(n: nat, from: char, via: char, to: char) -> Seq<Step>
    decreases n,
{
    if n == 0 {
        Seq::empty()
    } else {
        tower_steps((n - 1) as nat, from, to, via).push(Step { disk: n as int, from, to })
            + tower_steps((n - 1) as nat, via, from, to)
    }
}

/// A tower of `n` disks takes `2^n - 1` steps.
pub proof fn lemma_step_count(n: nat, from: char, via: char, to: char)
    ensures
        tower_steps(n, from, via, to).len() == pow2(n) - 1,
    decreases n,
{
    if n == 0 {
        lemma2_to64();
    } else {
        lemma_step_count((n - 1) as nat, from, to, via);
        lemma_step_count((n - 1) as nat, via, from, to);
        lemma_pow2_unfold(n);
    }
}

/// The first step takes a disk from the peg where the tower stands.
pub proof fn lemma_first_step(n: nat, a: char, b: char, c: char)
    requires
        n >= 1,
    ensures
        tower_steps(n, a, b, c).len() >= 1,
        tower_steps(n, a, b, c).first().from == a,
    decreases n,
{
    if n == 1 {
        reveal_with_fuel(tower_steps, 2);
    } else {
        lemma_first_step((n - 1) as nat, a, c, b);
    }
}

/// The last step brings a disk from one of the other pegs to the peg where
/// the tower is to stand.
pub proof fn lemma_last_step(n: nat, a: char, b: char, c: char)
    requires
        n >= 1,
    ensures
        tower_steps(n, a, b, c).len() >= 1,
        tower_steps(n, a, b, c).last().to == c,
        tower_steps(n, a, b, c).last().from == a || tower_steps(n, a, b, c).last().from == b,
    decreases n,
{
    if n == 1 {
        reveal_with_fuel(tower_steps, 2);
    } else {
        lemma_last_step((n - 1) as nat, b, a, c);
    }
}

} // verus!
