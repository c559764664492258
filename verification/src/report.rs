//! From the values drawn to the lines that report them.

use vstd::prelude::*;

use crate::dice::{DieGroup, Roll, RollView};
use crate::flag::{Flag, FlagSet};
use crate::line::Line;

verus! {

/// The sum of the values drawn for one group.
pub open spec fn sum_of(draws: Seq<u32>) -> nat
    decreases draws.len(),
{
    if draws.len() == 0 {
        0
    } else {
        sum_of(draws.drop_last()) + draws.last() as nat
    }
}

/// The sum of the values drawn for all groups.
pub open spec fn grand_total(draws: Seq<Seq<u32>>) -> nat
    decreases draws.len(),
{
    if draws.len() == 0 {
        0
    } else {
        grand_total(draws.drop_last()) + sum_of(draws.last())
    }
}

/// Whether `draws` can be the rolls of `group`: one value for each die,
/// each a face of the die.
pub open spec fn fits(group: DieGroup, draws: Seq<u32>) -> bool {
    &&& draws.len() == group.amount
    &&& forall|i: int| 0 <= i < draws.len() ==> 1 <= #[trigger] draws[i] <= group.sides
}

/// Whether `draws` can be the rolls of `groups`, group by group.
pub open spec fn all_fit(groups: Seq<DieGroup>, draws: Seq<Seq<u32>>) -> bool {
    &&& draws.len() == groups.len()
    &&& forall|i: int| 0 <= i < groups.len() ==> fits(#[trigger] groups[i], draws[i])
}

/// One bare line for each value.
pub open spec fn value_lines(draws: Seq<u32>) -> Seq<Line> {
    Seq::new(draws.len(), |i: int| Line::Value(draws[i]))
}

/// One indented line for each value.
pub open spec fn entry_lines(draws: Seq<u32>) -> Seq<Line> {
    Seq::new(draws.len(), |i: int| Line::Entry(draws[i]))
}

/// The line of the sum of all rolls, if it is asked for.
pub open spec fn total_lines(flags: Set<Flag>, sum: nat) -> Seq<Line> {
    if flags.contains(Flag::Total) {
        seq![Line::Total(sum as u128)]
    } else {
        Seq::empty()
    }
}

/// The line of the sum of one group, if it is asked for.
pub open spec fn subtotal_lines(flags: Set<Flag>, sides: u32, sum: nat) -> Seq<Line> {
    if flags.contains(Flag::Subtotals) {
        seq![Line::Subtotal { sides, sum: sum as u64 }]
    } else {
        Seq::empty()
    }
}

/// The part of a report on one of several groups: its heading, a line for
/// each roll, and the subtotal if it is asked for.
pub open spec fn group_lines(flags: Set<Flag>, group: DieGroup, draws: Seq<u32>) -> Seq<Line> {
    seq![Line::Header(group.sides)] + entry_lines(draws) + subtotal_lines(
        flags,
        group.sides,
        sum_of(draws),
    )
}

/// The parts of a report on several groups, one after the other.
pub open spec fn groups_lines(flags: Set<Flag>, groups: Seq<DieGroup>, draws: Seq<Seq<u32>>) -> Seq<
    Line,
>
    decreases groups.len(),
{
    if groups.len() == 0 {
        Seq::empty()
    } else {
        groups_lines(flags, groups.drop_last(), draws.drop_last()) + group_lines(
            flags,
            groups.last(),
            draws.last(),
        )
    }
}

/// The report on a roll for which `draws` were drawn, one run of values for
/// each group.
///
/// A single group is reported by one bare line for each roll. Several groups
/// are reported one after the other, each under its heading and with its
/// subtotal if `Flag::Subtotals` is set. Either report ends with the total
/// of all rolls if `Flag::Total` is set.
pub open spec fn report_lines(flags: Set<Flag>, roll: RollView, draws: Seq<Seq<u32>>) -> Seq<Line> {
    match roll {
        RollView::Single(_) => value_lines(draws[0]) + total_lines(flags, sum_of(draws[0])),
        RollView::Multiple(groups) => groups_lines(flags, groups, draws) + total_lines(
            flags,
            grand_total(draws),
        ),
    }
}

/// Whether `lines` report on `roll`: they are the report for some values
/// that can be its rolls.
pub open spec fn reports_on(lines: Seq<Line>, flags: Set<Flag>, roll: RollView) -> bool {
    exists|draws: Seq<Seq<u32>>|
        all_fit(roll.groups(), draws) && lines == #[trigger] report_lines(flags, roll, draws)
}

/// The values that the first `n` lines show, where each is a bare value.
pub open spec fn shown_values(lines: Seq<Line>, n: nat) -> Seq<u32> {
    Seq::new(n, |i: int| lines[i]->Value_0)
}

/// A report on a single group of `n` dice holds one bare line for each die,
/// each showing a face of the die; then, if and only if `Flag::Total` is
/// set, one more line with the sum of the values shown.
pub proof fn lemma_single_report(lines: Seq<Line>, flags: Set<Flag>, group: DieGroup)
    requires
        reports_on(lines, flags, RollView::Single(group)),
    ensures
        lines.len() == group.amount + if flags.contains(Flag::Total) {
            1nat
        } else {
            0nat
        },
        forall|i: int|
            0 <= i < group.amount ==> (#[trigger] lines[i]) is Value && 1 <= lines[i]->Value_0
                <= group.sides,
        flags.contains(Flag::Total) ==> lines[group.amount as int] == Line::Total(
            sum_of(shown_values(lines, group.amount as nat)) as u128,
        ),
        sum_of(shown_values(lines, group.amount as nat)) <= u64::MAX,
{
    let roll = RollView::Single(group);
    let draws = choose|draws: Seq<Seq<u32>>|
        all_fit(roll.groups(), draws) && lines == #[trigger] report_lines(flags, roll, draws);
    assert(fits(roll.groups()[0], draws[0]));
    assert(shown_values(lines, group.amount as nat) =~= draws[0]);
    lemma_group_sum_bound(group, draws[0]);
}

/// A group of no dice is drawn no values: it adds no line for a roll and
/// nothing to any sum. Among several groups it still has its heading, and
/// its subtotal is zero.
pub proof fn lemma_empty_group(flags: Set<Flag>, group: DieGroup, draws: Seq<u32>)
    requires
        group.amount == 0,
        fits(group, draws),
    ensures
        draws == Seq::<u32>::empty(),
        sum_of(draws) == 0,
        value_lines(draws) == Seq::<Line>::empty(),
        entry_lines(draws) == Seq::<Line>::empty(),
        group_lines(flags, group, draws) == seq![Line::Header(group.sides)] + subtotal_lines(
            flags,
            group.sides,
            0,
        ),
        forall|others: Seq<Seq<u32>>| grand_total(#[trigger] others.push(draws)) == grand_total(others),
{
    assert(draws =~= Seq::<u32>::empty());
    assert(value_lines(draws) =~= Seq::<Line>::empty());
    assert(entry_lines(draws) =~= Seq::<Line>::empty());
    assert forall|others: Seq<Seq<u32>>| grand_total(#[trigger] others.push(draws)) == grand_total(
        others,
    ) by {
        assert(others.push(draws).drop_last() =~= others);
    }
}

/// The report on several groups goes group by group: the report on the
/// groups so far, then the part on the next group.
pub proof fn lemma_report_by_group(
    flags: Set<Flag>,
    groups: Seq<DieGroup>,
    draws: Seq<Seq<u32>>,
    group: DieGroup,
    run: Seq<u32>,
)
    ensures
        groups_lines(flags, groups.push(group), draws.push(run)) == groups_lines(
            flags,
            groups,
            draws,
        ) + group_lines(flags, group, run),
        grand_total(draws.push(run)) == grand_total(draws) + sum_of(run),
{
    assert(groups.push(group).drop_last() =~= groups);
    assert(draws.push(run).drop_last() =~= draws);
}

/// The most that the rolls of one group can sum to.
pub open spec fn sum_limit() -> nat {
    0xffff_ffff * 0xffff_ffff
}

/// Values that are each at most `bound` sum to at most `bound` times their
/// number.
pub proof fn lemma_sum_bound(draws: Seq<u32>, bound: nat)
    requires
        forall|i: int| 0 <= i < draws.len() ==> #[trigger] draws[i] <= bound,
    ensures
        sum_of(draws) <= draws.len() * bound,
    decreases draws.len(),
{
    if draws.len() > 0 {
        lemma_sum_bound(draws.drop_last(), bound);
        assert(sum_of(draws) <= (draws.len() - 1) * bound + bound);
        assert((draws.len() - 1) * bound + bound == draws.len() * bound) by (nonlinear_arith);
    }
}

/// The rolls of a group sum to less than 2^64.
pub proof fn lemma_group_sum_bound(group: DieGroup, draws: Seq<u32>)
    requires
        fits(group, draws),
    ensures
        sum_of(draws) <= sum_limit(),
{
    lemma_sum_bound(draws, 0xffff_ffff);
    assert(draws.len() * 0xffff_ffff <= 0xffff_ffff * 0xffff_ffff) by (nonlinear_arith)
        requires
            draws.len() <= 0xffff_ffff,
    ;
}

/// The rolls of all groups sum to at most `sum_limit()` times the number of
/// groups.
pub proof fn lemma_grand_total_bound(groups: Seq<DieGroup>, draws: Seq<Seq<u32>>)
    requires
        all_fit(groups, draws),
    ensures
        grand_total(draws) <= groups.len() * sum_limit(),
    decreases groups.len(),
{
    if groups.len() > 0 {
        assert(all_fit(groups.drop_last(), draws.drop_last()));
        lemma_grand_total_bound(groups.drop_last(), draws.drop_last());
        lemma_group_sum_bound(groups.last(), draws.last());
        assert((groups.len() - 1) * sum_limit() + sum_limit() == groups.len() * sum_limit())
            by (nonlinear_arith);
    }
}

/// Checks that `draws` can be the rolls of `group`, and sums them.
pub fn tally(group: &DieGroup, draws: &Vec<u32>) -> (sum: Option<u64>)
    ensures
        sum is Some <==> fits(*group, draws@),
        sum is Some ==> sum.unwrap() == sum_of(draws@),
{
    if draws.len() > 0xffff_ffff || draws.len() as u64 != group.amount as u64 {
        return None;
    }
    let mut sum: u64 = 0;
    let mut i: usize = 0;
    while i < draws.len()
        invariant
            i <= draws.len() == group.amount,
            fits(DieGroup { amount: i as u32, sides: group.sides }, draws@.take(i as int)),
            sum == sum_of(draws@.take(i as int)),
        decreases draws.len() - i,
    {
        let value = draws[i];
        if value < 1 || value > group.sides {
            return None;
        }
        proof {
            let longer = draws@.take(i + 1);
            assert(longer.drop_last() == draws@.take(i as int));
            assert(fits(DieGroup { amount: (i + 1) as u32, sides: group.sides }, longer));
            lemma_group_sum_bound(DieGroup { amount: (i + 1) as u32, sides: group.sides }, longer);
        }
        sum = sum + value as u64;
        i = i + 1;
    }
    assert(draws@.take(i as int) == draws@);
    Some(sum)
}

/// Appends one bare line for each value.
fn push_values(lines: &mut Vec<Line>, draws: &Vec<u32>)
    ensures
        final(lines)@ == old(lines)@ + value_lines(draws@),
{
    let mut i: usize = 0;
    while i < draws.len()
        invariant
            i <= draws.len(),
            lines@ == old(lines)@ + value_lines(draws@.take(i as int)),
        decreases draws.len() - i,
    {
        lines.push(Line::Value(draws[i]));
        i = i + 1;
    }
    assert(draws@.take(i as int) == draws@);
}

/// Appends one indented line for each value.
fn push_entries(lines: &mut Vec<Line>, draws: &Vec<u32>)
    ensures
        final(lines)@ == old(lines)@ + entry_lines(draws@),
{
    let mut i: usize = 0;
    while i < draws.len()
        invariant
            i <= draws.len(),
            lines@ == old(lines)@ + entry_lines(draws@.take(i as int)),
        decreases draws.len() - i,
    {
        lines.push(Line::Entry(draws[i]));
        i = i + 1;
    }
    assert(draws@.take(i as int) == draws@);
}

/// Lays out the report on `roll` for which `draws` were drawn, one run of
/// values for each group in the groups' order.
///
/// The result is `None` exactly when `draws` cannot be the rolls of `roll`:
/// the number of runs is not the number of groups, a run has not one value
/// for each die of its group, or a value is not a face of the die.
pub fn report(flags: &FlagSet, roll: &Roll, draws: &Vec<Vec<u32>>) -> (lines: Option<Vec<Line>>)
    ensures
        lines is Some <==> all_fit(roll@.groups(), draws.deep_view()),
        lines is Some ==> lines.unwrap()@ == report_lines(flags@, roll@, draws.deep_view()),
{
    let ghost runs = draws.deep_view();
    assert forall|i: int| 0 <= i < draws.len() implies #[trigger] runs[i] == draws@[i]@ by {
        assert(draws@[i].deep_view() =~= draws@[i]@);
    }
    let mut lines: Vec<Line> = Vec::new();
    match roll {
        Roll::Single(group) => {
            if draws.len() != 1 {
                return None;
            }
            assert(roll@.groups()[0] == *group);
            let sum = match tally(group, &draws[0]) {
                Some(sum) => sum,
                None => {
                    return None;
                },
            };
            push_values(&mut lines, &draws[0]);
            if flags.contains(&Flag::Total) {
                lines.push(Line::Total(sum as u128));
            }
            Some(lines)
        },
        Roll::Multiple(groups) => {
            if draws.len() != groups.len() {
                return None;
            }
            let mut total: u128 = 0;
            let mut i: usize = 0;
            while i < groups.len()
                invariant
                    i <= groups.len() == draws.len(),
                    roll@ == RollView::Multiple(groups@),
                    runs == draws.deep_view(),
                    forall|j: int| 0 <= j < draws.len() ==> #[trigger] runs[j] == draws@[j]@,
                    all_fit(groups@.take(i as int), runs.take(i as int)),
                    lines@ == groups_lines(flags@, groups@.take(i as int), runs.take(i as int)),
                    total == grand_total(runs.take(i as int)),
                decreases groups.len() - i,
            {
                let group = groups[i];
                let sum = match tally(&group, &draws[i]) {
                    Some(sum) => sum,
                    None => {
                        assert(!fits(groups@[i as int], runs[i as int]));
                        return None;
                    },
                };
                proof {
                    let more_groups = groups@.take(i + 1);
                    let more_runs = runs.take(i + 1);
                    assert(more_groups.drop_last() == groups@.take(i as int));
                    assert(more_runs.drop_last() == runs.take(i as int));
                    assert(all_fit(more_groups, more_runs));
                    lemma_grand_total_bound(more_groups, more_runs);
                    assert(more_groups.len() * sum_limit() <= u128::MAX) by (nonlinear_arith)
                        requires
                            more_groups.len() <= 0xffff_ffff_ffff_ffff,
                            sum_limit() == 0xffff_ffff * 0xffff_ffff,
                    ;
                }
                lines.push(Line::Header(group.sides));
                push_entries(&mut lines, &draws[i]);
                if flags.contains(&Flag::Subtotals) {
                    lines.push(Line::Subtotal { sides: group.sides, sum });
                }
                total = total + sum as u128;
                i = i + 1;
            }
            assert(groups@.take(i as int) == groups@);
            assert(runs.take(i as int) == runs);
            if flags.contains(&Flag::Total) {
                lines.push(Line::Total(total));
            }
            Some(lines)
        },
    }
}

} // verus!
