//! What exchanging the roles of the pegs does to the solution. The labels of
//! the pegs are mere names; the solution of the opposite transfer is the
//! solution undone; and neither the opposite solution nor the solution itself,
//! read backwards, is the solution.

use crate::moves::Step;
use crate::steps::{lemma_first_step, lemma_last_step, lemma_step_count, tower_steps};
use vstd::prelude::*;

verus! {

/// The step that takes a step back: the same disk, in the other direction.
pub open spec fn turned(step: Step) -> Step {
    Step { disk: step.disk, from: step.to, to: step.from }
}

/// The steps that undo `steps`: each step taken back, the last one first.
pub open spec fn undone(steps: Seq<Step>) -> Seq<Step> {
    steps.reverse().map_values(|step: Step| turned(step))
}

/// The step with its pegs renamed.
pub open spec fn renamed(step: Step, name: spec_fn(char) -> char) -> Step {
    Step { disk: step.disk, from: name(step.from), to: name(step.to) }
}

/// The labels are mere names: the solution for renamed pegs is the solution
/// with the pegs renamed in each step.
pub proof fn lemma_renamed_pegs(n: nat, a: char, b: char, c: char, name: spec_fn(char) -> char)
    ensures
        tower_steps(n, name(a), name(b), name(c)) == tower_steps(n, a, b, c).map_values(
            |step: Step| renamed(step, name),
        ),
    decreases n,
{
    let rename = |step: Step| renamed(step, name);
    if n == 0 {
        assert(tower_steps(n, a, b, c).map_values(rename) =~= Seq::<Step>::empty());
    } else {
        let rest: nat = (n - 1) as nat;
        let largest = Step { disk: n as int, from: a, to: c };
        let upper = tower_steps(rest, a, c, b);
        let lower = tower_steps(rest, b, a, c);
        lemma_renamed_pegs(rest, a, c, b, name);
        lemma_renamed_pegs(rest, b, a, c, name);
        assert((upper.push(largest) + lower).map_values(rename) =~= upper.map_values(rename).push(
            rename(largest),
        ) + lower.map_values(rename));
    }
}

/// Undoing two sequences made one after the other is undoing the second and
/// then the first.
pub proof fn lemma_undone_concat(first: Seq<Step>, second: Seq<Step>)
    ensures
        undone(first + second) == undone(second) + undone(first),
{
    assert(undone(first + second) =~= undone(second) + undone(first));
}

/// The solution of the opposite transfer, from `c` to `a`, is the solution of
/// the transfer from `a` to `c` undone.
pub proof fn lemma_opposite_is_undone(n: nat, a: char, b: char, c: char)
    ensures
        tower_steps(n, c, b, a) == undone(tower_steps(n, a, b, c)),
    decreases n,
{
    if n == 0 {
        assert(undone(tower_steps(n, a, b, c)) =~= Seq::<Step>::empty());
    } else {
        let rest: nat = (n - 1) as nat;
        let largest = Step { disk: n as int, from: a, to: c };
        let upper = tower_steps(rest, a, c, b);
        let lower = tower_steps(rest, b, a, c);
        lemma_opposite_is_undone(rest, a, c, b);
        lemma_opposite_is_undone(rest, b, a, c);
        lemma_undone_concat(upper.push(largest), lower);
        assert(undone(upper.push(largest)) =~= seq![turned(largest)] + undone(upper));
        assert(tower_steps(n, c, b, a) =~= undone(lower) + (seq![turned(largest)] + undone(
            upper,
        )));
    }
}

/// The solution of a transfer between two different pegs is not the solution
/// of the opposite transfer read backwards: halfway the largest disk goes one
/// way in the one and the other way in the other.
pub proof fn lemma_opposite_reversed_differs(n: nat, a: char, b: char, c: char)
    requires
        n >= 1,
        a != c,
    ensures
        tower_steps(n, a, b, c) != tower_steps(n, c, b, a).reverse(),
{
    let rest: nat = (n - 1) as nat;
    let forth = tower_steps(n, a, b, c);
    let back = tower_steps(n, c, b, a);
    let half: int = tower_steps(rest, a, c, b).len() as int;
    lemma_step_count(rest, a, c, b);
    lemma_step_count(rest, b, a, c);
    lemma_step_count(rest, c, a, b);
    lemma_step_count(rest, b, c, a);
    assert(forth[half] == Step { disk: n as int, from: a, to: c });
    assert(back[half] == Step { disk: n as int, from: c, to: a });
    assert(back.reverse()[half] == back[back.len() - 1 - half]);
}

/// From two disks on, the solution read backwards is not the solution: the
/// step before the largest disk's brings a disk to the spare peg, and the
/// step after it takes one from there.
pub proof fn lemma_reversed_differs(n: nat, a: char, b: char, c: char)
    requires
        n >= 2,
        a != b,
        b != c,
    ensures
        tower_steps(n, a, b, c) != tower_steps(n, a, b, c).reverse(),
{
    let rest: nat = (n - 1) as nat;
    let steps = tower_steps(n, a, b, c);
    let upper = tower_steps(rest, a, c, b);
    let lower = tower_steps(rest, b, a, c);
    let half: int = upper.len() as int;
    lemma_step_count(rest, a, c, b);
    lemma_step_count(rest, b, a, c);
    lemma_last_step(rest, a, c, b);
    lemma_first_step(rest, b, a, c);
    assert(steps[half - 1] == upper.last());
    assert(steps[half + 1] == lower.first());
    assert(steps.reverse()[half - 1] == steps[steps.len() - 1 - (half - 1)]);
}

} // verus!
