//! Drawing the rolls from a random number generator.

use rand::rngs::StdRng;
use rand::Rng;
use vstd::prelude::*;

use crate::dice::{DieGroup, Roll, RollView};
use crate::flag::FlagSet;
use crate::line::Line;
use crate::report::{all_fit, fits, report, reports_on};

verus! {

/// `rand::rngs::StdRng`, the generator that rolls are drawn from. Its state
/// is hidden: nothing is known of a generator but that it can be drawn from.
#[verifier::external_type_specification]
#[verifier::external_body]
pub struct ExStdRng(rand::rngs::StdRng);

/// One roll of a die of `sides` faces.
///
/// Calls `rand::Rng::gen_range` with the inclusive range from 1 to `sides`.
/// It is taken on trust that the value lies in that range; nothing is said
/// of which value it is, nor of how the values are distributed. The call
/// panics on an empty range, so the die must have a face.
#[verifier::external_body]
fn draw(rng: &mut StdRng, sides: u32) -> (value: u32)
    requires
        sides >= 1,
    ensures
        1 <= value <= sides,
{
    rng.gen_range(1..=sides)
}

/// Rolls each die of `group` once.
pub fn draw_group(group: &DieGroup, rng: &mut StdRng) -> (draws: Vec<u32>)
    requires
        group.wf(),
    ensures
        fits(*group, draws@),
{
    let mut draws: Vec<u32> = Vec::new();
    let mut n: u32 = 0;
    while n < group.amount
        invariant
            n <= group.amount,
            group.wf(),
            draws.len() == n,
            forall|i: int| 0 <= i < draws.len() ==> 1 <= #[trigger] draws@[i] <= group.sides,
        decreases group.amount - n,
    {
        let value = draw(rng, group.sides);
        draws.push(value);
        n = n + 1;
    }
    draws
}

/// Rolls every die of `roll` once: one run of values for each group, in the
/// groups' order.
pub fn draw_all(roll: &Roll, rng: &mut StdRng) -> (draws: Vec<Vec<u32>>)
    requires
        roll.wf(),
    ensures
        all_fit(roll@.groups(), draws.deep_view()),
{
    let mut draws: Vec<Vec<u32>> = Vec::new();
    match roll {
        Roll::Single(group) => {
            assert(roll@.groups()[0] == *group);
            let run = draw_group(group, rng);
            assert(run.deep_view() =~= run@);
            draws.push(run);
        },
        Roll::Multiple(groups) => {
            let mut i: usize = 0;
            while i < groups.len()
                invariant
                    i <= groups.len(),
                    roll.wf(),
                    roll@ == RollView::Multiple(groups@),
                    draws.len() == i,
                    forall|j: int| 0 <= j < i ==> fits(#[trigger] groups@[j], draws.deep_view()[j]),
                decreases groups.len() - i,
            {
                assert(roll@.groups()[i as int].wf());
                let ghost before = draws.deep_view();
                let run = draw_group(&groups[i], rng);
                assert(run.deep_view() =~= run@);
                draws.push(run);
                assert(draws.deep_view() =~= before.push(run@));
                i = i + 1;
            }
        },
    }
    draws
}

/// Rolls the dice of `roll` and lays out the report.
///
/// Which values are drawn is left to the generator; whatever they are,
/// there is one for each die, each is a face of its die, and the lines are
/// the report on exactly those values.
pub fn roll_lines(flags: &FlagSet, roll: &Roll, rng: &mut StdRng) -> (lines: Vec<Line>)
    requires
        roll.wf(),
    ensures
        reports_on(lines@, flags@, roll@),
{
    let draws = draw_all(roll, rng);
    report(flags, roll, &draws).unwrap()
}

} // verus!
