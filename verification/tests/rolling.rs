use rand::rngs::StdRng;
use rand::SeedableRng;
use roll::{draw_all, draw_group, parsed_args, report, roll_lines, DieGroup, FlagSet, Line, Roll};

fn seeded(seed: u64) -> StdRng {
    StdRng::seed_from_u64(seed)
}

fn with(total: bool, subtotals: bool) -> FlagSet {
    FlagSet { total, subtotals, help: false }
}

#[test]
fn one_value_is_drawn_for_each_die() {
    let mut rng = seeded(1);
    let group = DieGroup { amount: 500, sides: 6 };
    let draws = draw_group(&group, &mut rng);
    assert_eq!(draws.len(), 500);
    assert!(draws.iter().all(|v| 1 <= *v && *v <= 6));
    for face in 1..=6u32 {
        assert!(draws.contains(&face));
    }
}

#[test]
fn draws_are_not_the_number_of_faces() {
    let mut rng = seeded(2);
    let draws = draw_group(&DieGroup { amount: 64, sides: 1000 }, &mut rng);
    assert_eq!(draws.len(), 64);
    assert!(draws.iter().all(|v| 1 <= *v && *v <= 1000));
    assert!(draws.iter().any(|v| *v != 1000));
    assert!(draws.iter().any(|v| *v != draws[0]));
}

#[test]
fn die_of_one_face_always_shows_one() {
    let mut rng = seeded(3);
    assert_eq!(draw_group(&DieGroup { amount: 5, sides: 1 }, &mut rng), vec![1, 1, 1, 1, 1]);
}

#[test]
fn no_dice_no_draws() {
    let mut rng = seeded(4);
    assert_eq!(draw_group(&DieGroup { amount: 0, sides: 6 }, &mut rng), Vec::<u32>::new());
}

#[test]
fn die_of_the_most_faces_is_drawn() {
    let mut rng = seeded(5);
    let draws = draw_group(&DieGroup { amount: 100, sides: 4294967295 }, &mut rng);
    assert_eq!(draws.len(), 100);
    assert!(draws.iter().all(|v| *v >= 1));
}

#[test]
fn one_run_is_drawn_for_each_group() {
    let mut rng = seeded(6);
    let roll = Roll::Multiple(vec![
        DieGroup { amount: 2, sides: 6 },
        DieGroup { amount: 0, sides: 8 },
        DieGroup { amount: 3, sides: 4 },
    ]);
    let draws = draw_all(&roll, &mut rng);
    assert_eq!(draws.len(), 3);
    assert_eq!(draws[0].len(), 2);
    assert_eq!(draws[1].len(), 0);
    assert_eq!(draws[2].len(), 3);
    assert!(draws[0].iter().all(|v| 1 <= *v && *v <= 6));
    assert!(draws[2].iter().all(|v| 1 <= *v && *v <= 4));
    let single = Roll::Single(DieGroup { amount: 4, sides: 20 });
    let draws = draw_all(&single, &mut rng);
    assert_eq!(draws.len(), 1);
    assert_eq!(draws[0].len(), 4);
    assert!(draws[0].iter().all(|v| 1 <= *v && *v <= 20));
}

#[test]
fn single_roll_reports_each_die_and_the_total() {
    let mut rng = seeded(7);
    let roll = Roll::Single(DieGroup { amount: 10, sides: 6 });
    let lines = roll_lines(&with(true, false), &roll, &mut rng);
    assert_eq!(lines.len(), 11);
    let mut sum: u128 = 0;
    for line in &lines[..10] {
        match line {
            Line::Value(v) => {
                assert!(1 <= *v && *v <= 6);
                sum += *v as u128;
            }
            _ => panic!("expected a value line"),
        }
    }
    assert_eq!(lines[10], Line::Total(sum));
}

#[test]
fn single_roll_without_total_reports_only_the_dice() {
    let mut rng = seeded(8);
    let roll = Roll::Single(DieGroup { amount: 10, sides: 6 });
    let lines = roll_lines(&with(false, true), &roll, &mut rng);
    assert_eq!(lines.len(), 10);
    assert!(lines.iter().all(|l| matches!(l, Line::Value(v) if 1 <= *v && *v <= 6)));
}

#[test]
fn two_groups_are_reported_under_their_headings() {
    let mut rng = seeded(9);
    let roll =
        Roll::Multiple(vec![DieGroup { amount: 2, sides: 6 }, DieGroup { amount: 1, sides: 4 }]);
    let lines = roll_lines(&with(true, true), &roll, &mut rng);
    assert_eq!(lines.len(), 8);
    assert_eq!(lines[0], Line::Header(6));
    let a = match lines[1] {
        Line::Entry(v) => v,
        _ => panic!("expected a roll"),
    };
    let b = match lines[2] {
        Line::Entry(v) => v,
        _ => panic!("expected a roll"),
    };
    assert!(1 <= a && a <= 6 && 1 <= b && b <= 6);
    assert_eq!(lines[3], Line::Subtotal { sides: 6, sum: (a + b) as u64 });
    assert_eq!(lines[4], Line::Header(4));
    let c = match lines[5] {
        Line::Entry(v) => v,
        _ => panic!("expected a roll"),
    };
    assert!(1 <= c && c <= 4);
    assert_eq!(lines[6], Line::Subtotal { sides: 4, sum: c as u64 });
    assert_eq!(lines[7], Line::Total((a + b + c) as u128));
}

#[test]
fn two_groups_without_flags() {
    let mut rng = seeded(10);
    let roll =
        Roll::Multiple(vec![DieGroup { amount: 2, sides: 6 }, DieGroup { amount: 1, sides: 4 }]);
    let lines = roll_lines(&with(false, false), &roll, &mut rng);
    assert_eq!(lines.len(), 5);
    assert_eq!(lines[0], Line::Header(6));
    assert!(matches!(lines[1], Line::Entry(v) if 1 <= v && v <= 6));
    assert!(matches!(lines[2], Line::Entry(v) if 1 <= v && v <= 6));
    assert_eq!(lines[3], Line::Header(4));
    assert!(matches!(lines[4], Line::Entry(v) if 1 <= v && v <= 4));
}

#[test]
fn group_of_no_dice_is_rolled() {
    let mut rng = seeded(11);
    let single = Roll::Single(DieGroup { amount: 0, sides: 6 });
    assert_eq!(roll_lines(&with(false, false), &single, &mut rng), vec![]);
    assert_eq!(roll_lines(&with(true, false), &single, &mut rng), vec![Line::Total(0)]);
    let several =
        Roll::Multiple(vec![DieGroup { amount: 0, sides: 6 }, DieGroup { amount: 0, sides: 4 }]);
    assert_eq!(
        roll_lines(&with(true, true), &several, &mut rng),
        vec![
            Line::Header(6),
            Line::Subtotal { sides: 6, sum: 0 },
            Line::Header(4),
            Line::Subtotal { sides: 4, sum: 0 },
            Line::Total(0),
        ]
    );
}

#[test]
fn rolling_is_the_report_on_what_was_drawn() {
    let roll = Roll::Multiple(vec![
        DieGroup { amount: 3, sides: 12 },
        DieGroup { amount: 2, sides: 100 },
    ]);
    let flags = with(true, true);
    let lines = roll_lines(&flags, &roll, &mut seeded(12));
    let draws = draw_all(&roll, &mut seeded(12));
    assert_eq!(Some(lines), report(&flags, &roll, &draws));
}

#[test]
fn same_seed_gives_the_same_rolls() {
    let roll = Roll::Single(DieGroup { amount: 20, sides: 20 });
    let first = roll_lines(&with(true, false), &roll, &mut seeded(13));
    let second = roll_lines(&with(true, false), &roll, &mut seeded(13));
    assert_eq!(first, second);
}

#[test]
fn parsed_command_line_is_rolled() {
    let tokens: Vec<String> =
        vec!["2d6".to_string(), "-st".to_string(), "1d4".to_string()];
    let (flags, roll) = parsed_args(tokens).unwrap();
    assert!(roll.is_valid());
    let lines = roll_lines(&flags, &roll, &mut seeded(14));
    assert_eq!(lines.len(), 8);
    assert_eq!(lines[0].render(), "d6:");
    assert_eq!(lines[4].render(), "d4:");
    assert!(lines[3].render().starts_with("d6 subtotal: "));
    assert!(lines[7].render().starts_with("total: "));
}
