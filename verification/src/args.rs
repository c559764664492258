//! The command line as a whole: flag tokens and dice tokens told apart, and
//! each kind decoded.

use vstd::prelude::*;
use vstd::string::StrSliceExecFns;

use crate::dice::{
    default_group, dice_outcome, die_group_of, lemma_bad_token_refuses, lemma_groups_in_order,
    parsed_dice, Roll, RollView,
};
use crate::error::ParseError;
use crate::flag::{
    flags_asked, flags_outcome, is_flag_token, lemma_flag_set_by_members,
    lemma_unrecognized_refuses, parsed_flags, recognized, Flag, FlagSet,
};

verus! {

/// The flag tokens among `args`, in their order.
pub open spec fn flag_tokens(args: Seq<Seq<char>>) -> Seq<Seq<char>> {
    args.filter(|t: Seq<char>| is_flag_token(t))
}

/// The dice tokens among `args`, in their order: all that are not flag
/// tokens.
pub open spec fn dice_tokens(args: Seq<Seq<char>>) -> Seq<Seq<char>> {
    args.filter(|t: Seq<char>| !is_flag_token(t))
}

/// What parsing a command line comes to: the flags that its flag tokens ask
/// for together with the roll that its dice tokens describe. A flag token
/// that is not recognized refuses the whole line with `ParseError::Flag`;
/// failing that, a malformed dice token refuses it with `ParseError::Dice`.
pub open spec fn args_outcome(args: Seq<Seq<char>>) -> Result<(Set<Flag>, RollView), ParseError> {
    match flags_outcome(flag_tokens(args)) {
        Err(e) => Err(e),
        Ok(flags) => match dice_outcome(dice_tokens(args)) {
            Err(e) => Err(e),
            Ok(roll) => Ok((flags, roll)),
        },
    }
}

/// Appending a token to a command line appends it to the tokens of its kind.
pub proof fn lemma_tokens_push(args: Seq<Seq<char>>, t: Seq<char>)
    ensures
        flag_tokens(args.push(t)) == if is_flag_token(t) {
            flag_tokens(args).push(t)
        } else {
            flag_tokens(args)
        },
        dice_tokens(args.push(t)) == if is_flag_token(t) {
            dice_tokens(args)
        } else {
            dice_tokens(args).push(t)
        },
{
    args.lemma_filter_push(t, |t: Seq<char>| is_flag_token(t));
    args.lemma_filter_push(t, |t: Seq<char>| !is_flag_token(t));
}

/// The flag tokens among `args` are flag tokens, the dice tokens are not,
/// and every token of `args` is among those of its kind.
pub proof fn lemma_tokens_by_kind(args: Seq<Seq<char>>)
    ensures
        forall|i: int|
            0 <= i < flag_tokens(args).len() ==> is_flag_token(#[trigger] flag_tokens(args)[i]),
        forall|i: int|
            0 <= i < dice_tokens(args).len() ==> !is_flag_token(#[trigger] dice_tokens(args)[i]),
        forall|i: int|
            0 <= i < args.len() && is_flag_token(args[i]) ==> flag_tokens(args).contains(
                #[trigger] args[i],
            ),
        forall|i: int|
            0 <= i < args.len() && !is_flag_token(args[i]) ==> dice_tokens(args).contains(
                #[trigger] args[i],
            ),
    decreases args.len(),
{
    reveal(Seq::filter);
    if args.len() > 0 {
        let front = args.drop_last();
        let t = args.last();
        lemma_tokens_by_kind(front);
        assert(front.push(t) == args);
        lemma_tokens_push(front, t);
        let flags = flag_tokens(args);
        let dice = dice_tokens(args);
        assert forall|i: int| 0 <= i < args.len() && is_flag_token(args[i]) implies flags.contains(
            #[trigger] args[i],
        ) by {
            if i < front.len() {
                assert(flag_tokens(front).contains(front[i]));
                let k = choose|k: int|
                    0 <= k < flag_tokens(front).len() && flag_tokens(front)[k] == front[i];
                assert(flags[k] == args[i]);
            } else {
                assert(flags[flags.len() - 1] == args[i]);
            }
        }
        assert forall|i: int| 0 <= i < args.len() && !is_flag_token(args[i]) implies dice.contains(
            #[trigger] args[i],
        ) by {
            if i < front.len() {
                assert(dice_tokens(front).contains(front[i]));
                let k = choose|k: int|
                    0 <= k < dice_tokens(front).len() && dice_tokens(front)[k] == front[i];
                assert(dice[k] == args[i]);
            } else {
                assert(dice[dice.len() - 1] == args[i]);
            }
        }
    }
}

/// A command line of flag tokens alone, or an empty one, rolls the default
/// group as a `Single` roll, if its flags are recognized.
pub proof fn lemma_no_dice_rolls_default(args: Seq<Seq<char>>)
    requires
        forall|i: int| 0 <= i < args.len() ==> is_flag_token(#[trigger] args[i]),
    ensures
        args_outcome(args) == match flags_outcome(args) {
            Ok(flags) => Ok::<(Set<Flag>, RollView), ParseError>(
                (flags, RollView::Single(default_group())),
            ),
            Err(e) => Err(e),
        },
{
    lemma_only_flag_tokens(args);
}

/// Where every token is a flag token, the flag tokens are all of them and
/// there is no dice token.
pub proof fn lemma_only_flag_tokens(args: Seq<Seq<char>>)
    requires
        forall|i: int| 0 <= i < args.len() ==> is_flag_token(#[trigger] args[i]),
    ensures
        flag_tokens(args) == args,
        dice_tokens(args) == Seq::<Seq<char>>::empty(),
    decreases args.len(),
{
    reveal(Seq::filter);
    if args.len() > 0 {
        let front = args.drop_last();
        lemma_only_flag_tokens(front);
        assert(front.push(args.last()) == args);
        lemma_tokens_push(front, args.last());
    }
}

/// One flag token that is not recognized refuses the whole command line
/// with `ParseError::Flag`, whatever else the line holds.
pub proof fn lemma_unrecognized_flag_refuses(args: Seq<Seq<char>>, i: int)
    requires
        0 <= i < args.len(),
        is_flag_token(args[i]),
        !recognized(args[i]),
    ensures
        args_outcome(args) == Err::<(Set<Flag>, RollView), ParseError>(ParseError::Flag),
{
    lemma_tokens_by_kind(args);
    let flags = flag_tokens(args);
    assert(flags.contains(args[i]));
    let k = choose|k: int| 0 <= k < flags.len() && flags[k] == args[i];
    lemma_unrecognized_refuses(flags, k);
}

/// Where the flags are recognized, one malformed dice token refuses the
/// whole command line with `ParseError::Dice`.
pub proof fn lemma_malformed_dice_refuse(args: Seq<Seq<char>>, i: int)
    requires
        0 <= i < args.len(),
        !is_flag_token(args[i]),
        die_group_of(args[i]) is None,
        flags_outcome(flag_tokens(args)) is Ok,
    ensures
        args_outcome(args) == Err::<(Set<Flag>, RollView), ParseError>(ParseError::Dice),
{
    lemma_tokens_by_kind(args);
    let dice = dice_tokens(args);
    assert(dice.contains(args[i]));
    let k = choose|k: int| 0 <= k < dice.len() && dice[k] == args[i];
    lemma_bad_token_refuses(dice, k);
}

/// Where a command line is accepted, its flags are those that its flag
/// tokens ask for, and its roll follows its dice tokens: the default group
/// where there is none, else one group for each token in the tokens' order,
/// as a `Single` roll exactly where there is one token.
pub proof fn lemma_roll_follows_dice_tokens(args: Seq<Seq<char>>)
    requires
        args_outcome(args) is Ok,
    ensures
        args_outcome(args).unwrap().0 == flags_asked(flag_tokens(args)),
        dice_tokens(args).len() == 0 ==> args_outcome(args).unwrap().1 == RollView::Single(
            default_group(),
        ),
        dice_tokens(args).len() >= 1 ==> args_outcome(args).unwrap().1.groups().len()
            == dice_tokens(args).len(),
        forall|i: int|
            0 <= i < dice_tokens(args).len() ==> die_group_of(dice_tokens(args)[i]) == Some(
                #[trigger] args_outcome(args).unwrap().1.groups()[i],
            ),
        args_outcome(args).unwrap().1 is Single <==> dice_tokens(args).len() <= 1,
        args_outcome(args).unwrap().1.wf(),
{
    let dice = dice_tokens(args);
    if dice.len() >= 1 {
        assert forall|i: int| 0 <= i < dice.len() implies die_group_of(
            #[trigger] dice[i],
        ) is Some by {
            if die_group_of(dice[i]) is None {
                lemma_bad_token_refuses(dice, i);
            }
        }
        lemma_groups_in_order(dice);
    }
}

/// What a result of parsing holds, as mathematical values.
pub open spec fn outcome_view(r: Result<(FlagSet, Roll), ParseError>) -> Result<
    (Set<Flag>, RollView),
    ParseError,
> {
    match r {
        Ok((flags, roll)) => Ok((flags@, roll@)),
        Err(e) => Err(e),
    }
}

/// Parsing is a function of the tokens: two results of parsing the same
/// command line are both refusals for the same reason, or both hold the same
/// flag set and rolls of the same shape with the same groups in the same
/// order.
pub proof fn lemma_parsing_twice_agrees(
    args: Seq<Seq<char>>,
    first: Result<(FlagSet, Roll), ParseError>,
    second: Result<(FlagSet, Roll), ParseError>,
)
    requires
        outcome_view(first) == args_outcome(args),
        outcome_view(second) == args_outcome(args),
    ensures
        match (first, second) {
            (Ok((flags1, roll1)), Ok((flags2, roll2))) => flags1 == flags2 && roll1@ == roll2@,
            (Err(e1), Err(e2)) => e1 == e2,
            _ => false,
        },
{
    match (first, second) {
        (Ok((flags1, _)), Ok((flags2, _))) => {
            lemma_flag_set_by_members(flags1, flags2);
        },
        _ => {},
    }
}

/// Whether `token` is a flag token.
pub fn starts_with_dash(token: &str) -> (b: bool)
    ensures
        b == is_flag_token(token@),
{
    !token.is_empty() && token.get_char(0) == '-'
}

/// Parses the command-line arguments, without the program's name, into the
/// flags that are set and the dice to roll.
///
/// Tokens that begin with `-` are flags, all others are dice; the two kinds
/// may come in any order. The result is `Ok` exactly when every flag token
/// is recognized and every dice token is well formed.
pub fn parsed_args(args: Vec<String>) -> (r: Result<(FlagSet, Roll), ParseError>)
    ensures
        outcome_view(r) == args_outcome(args.deep_view()),
        r is Ok ==> r.unwrap().1.wf(),
{
    let ghost tokens = args.deep_view();
    let mut flags: Vec<String> = Vec::new();
    let mut rolls: Vec<String> = Vec::new();
    let mut i: usize = 0;
    proof {
        reveal(Seq::filter);
        assert(tokens.take(0) == Seq::<Seq<char>>::empty());
    }
    while i < args.len()
        invariant
            i <= args.len(),
            tokens == args.deep_view(),
            flags.deep_view() == flag_tokens(tokens.take(i as int)),
            rolls.deep_view() == dice_tokens(tokens.take(i as int)),
        decreases args.len() - i,
    {
        let ghost flags_before = flags.deep_view();
        let ghost rolls_before = rolls.deep_view();
        let token = args[i].clone();
        proof {
            assert(token@ == tokens[i as int]);
            assert(tokens.take(i + 1) == tokens.take(i as int).push(token@));
            lemma_tokens_push(tokens.take(i as int), token@);
        }
        if starts_with_dash(token.as_str()) {
            flags.push(token);
            assert(flags.deep_view() == flags_before.push(token@));
        } else {
            rolls.push(token);
            assert(rolls.deep_view() == rolls_before.push(token@));
        }
        i = i + 1;
    }
    assert(tokens.take(i as int) == tokens);
    let flags = match parsed_flags(flags) {
        Ok(flags) => flags,
        Err(e) => {
            return Err(e);
        },
    };
    let roll = match parsed_dice(rolls) {
        Ok(roll) => roll,
        Err(e) => {
            return Err(e);
        },
    };
    Ok((flags, roll))
}

} // verus!
