use roll::dice::{die_group, find_first};
use roll::text::chars_of;
use roll::{parsed_dice, DieGroup, ParseError, Roll};

fn dice_tokens(tokens: &[&str]) -> Vec<String> {
    tokens.iter().map(|t| t.to_string()).collect()
}

#[test]
fn no_dice_tokens_are_one_d20() {
    assert_eq!(parsed_dice(dice_tokens(&[])), Ok(Roll::Single(DieGroup { amount: 1, sides: 20 })));
}

#[test]
fn one_dice_token_is_single() {
    assert_eq!(
        parsed_dice(dice_tokens(&["3d8"])),
        Ok(Roll::Single(DieGroup { amount: 3, sides: 8 }))
    );
    assert_eq!(
        parsed_dice(dice_tokens(&["1d20"])),
        Ok(Roll::Single(DieGroup { amount: 1, sides: 20 }))
    );
}

#[test]
fn two_dice_tokens_are_multiple() {
    assert_eq!(
        parsed_dice(dice_tokens(&["2d6", "1d4"])),
        Ok(Roll::Multiple(vec![
            DieGroup { amount: 2, sides: 6 },
            DieGroup { amount: 1, sides: 4 }
        ]))
    );
    assert_eq!(
        parsed_dice(dice_tokens(&["1d4", "2d6"])),
        Ok(Roll::Multiple(vec![
            DieGroup { amount: 1, sides: 4 },
            DieGroup { amount: 2, sides: 6 }
        ]))
    );
}

#[test]
fn one_bad_dice_token_refuses_all() {
    assert_eq!(parsed_dice(dice_tokens(&["2d6", "abc", "1d4"])), Err(ParseError::Dice));
    assert_eq!(parsed_dice(dice_tokens(&["3d0"])), Err(ParseError::Dice));
    assert_eq!(parsed_dice(dice_tokens(&["abc"])), Err(ParseError::Dice));
    assert_eq!(parsed_dice(dice_tokens(&["2d6", "2d6", "2d6", "d"])), Err(ParseError::Dice));
}

#[test]
fn dice_token_with_a_dash_is_malformed_here() {
    assert_eq!(parsed_dice(dice_tokens(&["-2d6"])), Err(ParseError::Dice));
    assert_eq!(parsed_dice(dice_tokens(&["-t"])), Err(ParseError::Dice));
}

#[test]
fn single_tokens_are_decoded() {
    assert_eq!(die_group("2d6"), Some(DieGroup { amount: 2, sides: 6 }));
    assert_eq!(die_group("d6"), Some(DieGroup { amount: 1, sides: 6 }));
    assert_eq!(die_group("0d6"), Some(DieGroup { amount: 0, sides: 6 }));
    assert_eq!(die_group("10d1"), Some(DieGroup { amount: 10, sides: 1 }));
    assert_eq!(die_group("+1d+1"), Some(DieGroup { amount: 1, sides: 1 }));
    assert_eq!(die_group("3d0"), None);
    assert_eq!(die_group("abc"), None);
    assert_eq!(die_group(""), None);
    assert_eq!(die_group("d"), None);
    assert_eq!(die_group("6d"), None);
    assert_eq!(die_group("1d2d3"), None);
}

#[test]
fn first_occurrence_is_found() {
    assert_eq!(find_first(&chars_of("2d6"), 'd'), Some(1));
    assert_eq!(find_first(&chars_of("d6"), 'd'), Some(0));
    assert_eq!(find_first(&chars_of("12d6d8"), 'd'), Some(2));
    assert_eq!(find_first(&chars_of("abc"), 'd'), None);
    assert_eq!(find_first(&chars_of(""), 'd'), None);
    assert_eq!(find_first(&chars_of("\u{e9}\u{e9}d"), 'd'), Some(2));
}

#[test]
fn groups_and_rolls_know_their_validity() {
    assert!(DieGroup { amount: 0, sides: 1 }.is_valid());
    assert!(DieGroup { amount: 5, sides: 4294967295 }.is_valid());
    assert!(!DieGroup { amount: 5, sides: 0 }.is_valid());
    assert!(Roll::Single(DieGroup { amount: 1, sides: 20 }).is_valid());
    assert!(!Roll::Single(DieGroup { amount: 1, sides: 0 }).is_valid());
    assert!(Roll::Multiple(vec![]).is_valid());
    assert!(Roll::Multiple(vec![
        DieGroup { amount: 1, sides: 2 },
        DieGroup { amount: 3, sides: 4 }
    ])
    .is_valid());
    assert!(!Roll::Multiple(vec![
        DieGroup { amount: 1, sides: 2 },
        DieGroup { amount: 3, sides: 0 }
    ])
    .is_valid());
}
