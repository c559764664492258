//! Dice groups and the decoding of dice tokens of the form `[AMOUNT]dSIDES`.

use vstd::prelude::*;

use crate::error::ParseError;
use crate::numeral::{
    decimal, is_digit, lemma_decimal_denotes, lemma_read_written, numeral_u32, read_u32,
    unsigned_part,
};
use crate::text::chars_of;

verus! {

/// A number of dice of one kind.
#[derive(Debug, Clone, Copy, PartialEq, Eq, Structural)]
pub struct DieGroup {
    /// How many dice are rolled.
    pub amount: u32,
    /// How many faces each die has.
    pub sides: u32,
}

impl DieGroup {
    /// A die has at least one face.
    pub open spec fn wf(&self) -> bool {
        self.sides >= 1
    }

    /// Whether the group is well formed.
    pub fn is_valid(&self) -> (b: bool)
        ensures
            b == self.wf(),
    {
        self.sides >= 1
    }
}

/// What is to be rolled.
#[derive(Debug, PartialEq, Eq)]
pub enum Roll {
    /// One group of dice, reported without a heading.
    Single(DieGroup),
    /// Several groups of dice, each reported under its own heading.
    Multiple(Vec<DieGroup>),
}

/// The mathematical content of a `Roll`.
pub enum RollView {
    /// One group.
    Single(DieGroup),
    /// Several groups, in order.
    Multiple(Seq<DieGroup>),
}

impl RollView {
    /// The groups of the roll, in order.
    pub open spec fn groups(self) -> Seq<DieGroup> {
        match self {
            RollView::Single(group) => seq![group],
            RollView::Multiple(groups) => groups,
        }
    }

    /// Every group is well formed.
    pub open spec fn wf(self) -> bool {
        forall|i: int| 0 <= i < self.groups().len() ==> (#[trigger] self.groups()[i]).wf()
    }
}

impl View for Roll {
    type V = RollView;

    open spec fn view(&self) -> RollView {
        match self {
            Roll::Single(group) => RollView::Single(*group),
            Roll::Multiple(groups) => RollView::Multiple(groups@),
        }
    }
}

impl Roll {
    /// Every group is well formed.
    pub open spec fn wf(&self) -> bool {
        self@.wf()
    }

    /// Whether every group is well formed.
    pub fn is_valid(&self) -> (b: bool)
        ensures
            b == self.wf(),
    {
        match self {
            Roll::Single(group) => {
                assert(self@.groups()[0] == *group);
                group.is_valid()
            },
            Roll::Multiple(groups) => {
                let mut i: usize = 0;
                while i < groups.len()
                    invariant
                        i <= groups.len(),
                        self@.groups() == groups@,
                        forall|j: int| 0 <= j < i ==> (#[trigger] groups@[j]).wf(),
                    decreases groups.len() - i,
                {
                    if !groups[i].is_valid() {
                        return false;
                    }
                    i = i + 1;
                }
                true
            },
        }
    }
}

/// The amount that the text before the separator stands for: one if there
/// is no text, else the number it denotes.
pub open spec fn amount_of(text: Seq<char>) -> Option<u32> {
    if text.len() == 0 {
        Some(1u32)
    } else {
        numeral_u32(text)
    }
}

/// The number of faces that the text after the separator stands for: the
/// number it denotes, which must not be zero.
pub open spec fn sides_of(text: Seq<char>) -> Option<u32> {
    match numeral_u32(text) {
        Some(n) => if n == 0 {
            None
        } else {
            Some(n)
        },
        None => None,
    }
}

/// The dice group that a token stands for, if it stands for one. The token
/// is split at its first `d`; what stands before is the amount, what stands
/// behind is the number of faces.
pub open spec fn die_group_of(t: Seq<char>) -> Option<DieGroup> {
    match t.index_of_first('d') {
        Some(i) => match (amount_of(t.subrange(0, i)), sides_of(t.subrange(i + 1, t.len() as int))) {
            (Some(amount), Some(sides)) => Some(DieGroup { amount, sides }),
            _ => None,
        },
        None => None,
    }
}

/// What is rolled when no dice are asked for: one die of twenty faces.
pub open spec fn default_group() -> DieGroup {
    DieGroup { amount: 1, sides: 20 }
}

/// What decoding a list of dice tokens comes to. No token: the default
/// group alone. Otherwise each token must stand for a group, and the groups
/// are kept in the tokens' order: one group is a `Single` roll, more are a
/// `Multiple` roll. A token that stands for no group is `ParseError::Dice`.
pub open spec fn dice_outcome(tokens: Seq<Seq<char>>) -> Result<RollView, ParseError> {
    if tokens.len() == 0 {
        Ok(RollView::Single(default_group()))
    } else if forall|i: int| 0 <= i < tokens.len() ==> die_group_of(#[trigger] tokens[i]) is Some {
        if tokens.len() == 1 {
            Ok(RollView::Single(die_group_of(tokens[0]).unwrap()))
        } else {
            Ok(RollView::Multiple(tokens.map_values(|t: Seq<char>| die_group_of(t).unwrap())))
        }
    } else {
        Err(ParseError::Dice)
    }
}

/// A numeral of 32 bits holds no `d`.
pub proof fn lemma_numeral_without_separator(text: Seq<char>)
    requires
        numeral_u32(text) is Some,
    ensures
        !text.contains('d'),
{
    let digits = unsigned_part(text);
    assert forall|i: int| 0 <= i < text.len() implies text[i] != 'd' by {
        if text[0] == '+' {
            if i > 0 {
                assert(is_digit(digits[i - 1]));
            }
        } else {
            assert(is_digit(digits[i]));
        }
    }
}

/// A token is split where its first `d` stands: behind a left part without
/// any `d`, whatever follows.
pub proof fn lemma_split(left: Seq<char>, right: Seq<char>)
    requires
        !left.contains('d'),
    ensures
        ({
            let t = left + seq!['d'] + right;
            &&& t.index_of_first('d') == Some(left.len() as int)
            &&& t.subrange(0, left.len() as int) == left
            &&& t.subrange(left.len() as int + 1, t.len() as int) == right
        }),
{
    let t = left + seq!['d'] + right;
    t.index_of_first_ensures('d');
    assert(t[left.len() as int] == 'd');
    assert forall|j: int| 0 <= j < left.len() implies t[j] != 'd' by {
        assert(t[j] == left[j]);
    }
    assert(t.subrange(0, left.len() as int) =~= left);
    assert(t.subrange(left.len() as int + 1, t.len() as int) =~= right);
}

/// A token written as an amount, a `d` and a number of faces stands for the
/// group of that amount and that number of faces; without an amount it
/// stands for one die.
pub proof fn lemma_token_stands_for_group(left: Seq<char>, right: Seq<char>)
    requires
        amount_of(left) is Some,
        sides_of(right) is Some,
    ensures
        die_group_of(left + seq!['d'] + right) == Some(
            DieGroup { amount: amount_of(left).unwrap(), sides: sides_of(right).unwrap() },
        ),
        left.len() == 0 ==> amount_of(left) == Some(1u32),
        sides_of(right).unwrap() >= 1,
{
    if left.len() > 0 {
        lemma_numeral_without_separator(left);
    }
    lemma_split(left, right);
}

/// The token written for a group in plain decimal stands for that group,
/// and so does the token without the amount for a group of one die.
pub proof fn lemma_written_group_reads_back(group: DieGroup)
    requires
        group.wf(),
    ensures
        die_group_of(decimal(group.amount as nat) + seq!['d'] + decimal(group.sides as nat))
            == Some(group),
        die_group_of(Seq::<char>::empty() + seq!['d'] + decimal(group.sides as nat)) == Some(
            DieGroup { amount: 1, sides: group.sides },
        ),
{
    lemma_read_written(group.amount);
    lemma_read_written(group.sides);
    lemma_decimal_denotes(group.amount as nat);
    lemma_token_stands_for_group(decimal(group.amount as nat), decimal(group.sides as nat));
    lemma_token_stands_for_group(Seq::<char>::empty(), decimal(group.sides as nat));
}

/// A token without a `d` stands for no group.
pub proof fn lemma_no_separator_no_group(t: Seq<char>)
    requires
        !t.contains('d'),
    ensures
        die_group_of(t) is None,
{
    t.index_of_first_ensures('d');
}

/// A token whose part behind a `d` is no number of faces stands for no
/// group, whatever stands before that `d`.
pub proof fn lemma_bad_sides_no_group(left: Seq<char>, right: Seq<char>)
    requires
        sides_of(right) is None,
    ensures
        die_group_of(left + seq!['d'] + right) is None,
{
    let t = left + seq!['d'] + right;
    t.index_of_first_ensures('d');
    assert(t[left.len() as int] == 'd');
    let i = t.index_of_first('d').unwrap();
    let behind = t.subrange(i + 1, t.len() as int);
    if i == left.len() {
        assert(behind =~= right);
    } else {
        assert(i < left.len());
        assert(behind[left.len() - i - 1] == 'd');
        if numeral_u32(behind) is Some {
            lemma_numeral_without_separator(behind);
        }
    }
}

/// A token that asks for dice of zero faces stands for no group, whatever
/// the amount.
pub proof fn lemma_zero_sides_no_group(left: Seq<char>, right: Seq<char>)
    requires
        numeral_u32(right) == Some(0u32),
    ensures
        die_group_of(left + seq!['d'] + right) is None,
{
    lemma_bad_sides_no_group(left, right);
}

/// One token that stands for no group refuses the whole list.
pub proof fn lemma_bad_token_refuses(tokens: Seq<Seq<char>>, i: int)
    requires
        0 <= i < tokens.len(),
        die_group_of(tokens[i]) is None,
    ensures
        dice_outcome(tokens) == Err::<RollView, ParseError>(ParseError::Dice),
{
}

/// One well-formed token is a `Single` roll of its group; two or more are a
/// `Multiple` roll of their groups in the tokens' order. Either way no group
/// has a die without faces.
pub proof fn lemma_groups_in_order(tokens: Seq<Seq<char>>)
    requires
        tokens.len() >= 1,
        forall|i: int| 0 <= i < tokens.len() ==> die_group_of(#[trigger] tokens[i]) is Some,
    ensures
        dice_outcome(tokens) is Ok,
        dice_outcome(tokens).unwrap() is Single <==> tokens.len() == 1,
        dice_outcome(tokens).unwrap().groups().len() == tokens.len(),
        forall|i: int|
            0 <= i < tokens.len() ==> Some(#[trigger] dice_outcome(tokens).unwrap().groups()[i])
                == die_group_of(tokens[i]),
        dice_outcome(tokens).unwrap().wf(),
{
    let groups = dice_outcome(tokens).unwrap().groups();
    assert forall|i: int| 0 <= i < tokens.len() implies Some(#[trigger] groups[i]) == die_group_of(
        tokens[i],
    ) && groups[i].wf() by {
        assert(die_group_of(tokens[i]) is Some);
    }
}

/// Where `c` first occurs in `chars`.
pub fn find_first(chars: &Vec<char>, c: char) -> (r: Option<usize>)
    ensures
        match r {
            Some(i) => chars@.index_of_first(c) == Some(i as int),
            None => chars@.index_of_first(c) is None,
        },
{
    let mut i: usize = 0;
    while i < chars.len()
        invariant
            i <= chars.len(),
            forall|j: int| 0 <= j < i ==> chars@[j] != c,
        decreases chars.len() - i,
    {
        if chars[i] == c {
            proof {
                chars@.index_of_first_ensures(c);
            }
            return Some(i);
        }
        i = i + 1;
    }
    proof {
        chars@.index_of_first_ensures(c);
    }
    None
}

/// Decodes one dice token.
pub fn die_group(token: &str) -> (r: Option<DieGroup>)
    ensures
        r == die_group_of(token@),
{
    let chars = chars_of(token);
    let n = chars.len();
    match find_first(&chars, 'd') {
        None => None,
        Some(i) => {
            proof {
                chars@.index_of_first_ensures('d');
            }
            let amount = if i == 0 {
                Some(1u32)
            } else {
                read_u32(&chars, 0, i)
            };
            let sides = read_u32(&chars, i + 1, n);
            match (amount, sides) {
                (Some(amount), Some(sides)) => if sides == 0 {
                    None
                } else {
                    Some(DieGroup { amount, sides })
                },
                _ => None,
            }
        },
    }
}

/// Decodes dice tokens into what is to be rolled.
///
/// Without tokens the roll is one die of twenty faces. Each token is split
/// at its first `d`: the part before it is the amount (one if empty), the
/// part behind it the number of faces, which must be positive. Both are
/// decimal numerals that fit 32 bits, with an optional leading `+`.
/// The first token that is not of this form ends the decoding with
/// `ParseError::Dice`.
pub fn parsed_dice(string_dice: Vec<String>) -> (r: Result<Roll, ParseError>)
    ensures
        match r {
            Ok(roll) => dice_outcome(string_dice.deep_view()) == Ok::<RollView, ParseError>(roll@),
            Err(e) => dice_outcome(string_dice.deep_view()) == Err::<RollView, ParseError>(e),
        },
        r is Ok ==> r.unwrap().wf(),
{
    let ghost tokens = string_dice.deep_view();
    if string_dice.len() == 0 {
        return Ok(Roll::Single(DieGroup { amount: 1, sides: 20 }));
    }
    let mut dice: Vec<DieGroup> = Vec::new();
    let mut i: usize = 0;
    while i < string_dice.len()
        invariant
            i <= string_dice.len(),
            tokens == string_dice.deep_view(),
            dice.len() == i,
            forall|j: int| 0 <= j < i ==> die_group_of(#[trigger] tokens[j]) == Some(dice@[j]),
        decreases string_dice.len() - i,
    {
        assert(tokens[i as int] == string_dice[i as int]@);
        match die_group(string_dice[i].as_str()) {
            Some(group) => {
                dice.push(group);
            },
            None => {
                return Err(ParseError::Dice);
            },
        }
        i = i + 1;
    }
    assert(dice@ =~= tokens.map_values(|t: Seq<char>| die_group_of(t).unwrap()));
    if dice.len() == 1 {
        return Ok(Roll::Single(dice[0]));
    }
    Ok(Roll::Multiple(dice))
}

} // verus!
