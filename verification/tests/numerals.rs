use roll::numeral::{decimal_string, parse_u32, read_u32, write_decimal};
use roll::text::{chars_of, same_chars};

#[test]
fn numerals_are_read() {
    assert_eq!(parse_u32("0"), Some(0));
    assert_eq!(parse_u32("7"), Some(7));
    assert_eq!(parse_u32("42"), Some(42));
    assert_eq!(parse_u32("1234567890"), Some(1234567890));
    assert_eq!(parse_u32("4294967295"), Some(4294967295));
    assert_eq!(parse_u32("+17"), Some(17));
    assert_eq!(parse_u32("+0"), Some(0));
    assert_eq!(parse_u32("000"), Some(0));
    assert_eq!(parse_u32("0042"), Some(42));
    assert_eq!(parse_u32("00000000004294967295"), Some(4294967295));
}

#[test]
fn what_is_no_numeral_is_refused() {
    assert_eq!(parse_u32(""), None);
    assert_eq!(parse_u32("+"), None);
    assert_eq!(parse_u32("-"), None);
    assert_eq!(parse_u32("-0"), None);
    assert_eq!(parse_u32("-5"), None);
    assert_eq!(parse_u32("++5"), None);
    assert_eq!(parse_u32("5+"), None);
    assert_eq!(parse_u32("12a"), None);
    assert_eq!(parse_u32("a12"), None);
    assert_eq!(parse_u32(" 12"), None);
    assert_eq!(parse_u32("12 "), None);
    assert_eq!(parse_u32("1_2"), None);
    assert_eq!(parse_u32("0x10"), None);
    assert_eq!(parse_u32("/"), None);
    assert_eq!(parse_u32(":"), None);
    assert_eq!(parse_u32("\u{0663}"), None);
}

#[test]
fn numerals_beyond_32_bits_are_refused() {
    assert_eq!(parse_u32("4294967296"), None);
    assert_eq!(parse_u32("4294967300"), None);
    assert_eq!(parse_u32("42949672950"), None);
    assert_eq!(parse_u32("9999999999"), None);
    assert_eq!(parse_u32("+4294967296"), None);
    assert_eq!(parse_u32("18446744073709551616"), None);
    assert_eq!(parse_u32("340282366920938463463374607431768211456"), None);
}

#[test]
fn part_of_a_text_is_read() {
    let text = chars_of("12d345");
    assert_eq!(read_u32(&text, 0, 2), Some(12));
    assert_eq!(read_u32(&text, 3, 6), Some(345));
    assert_eq!(read_u32(&text, 1, 2), Some(2));
    assert_eq!(read_u32(&text, 0, 3), None);
    assert_eq!(read_u32(&text, 2, 2), None);
    assert_eq!(read_u32(&text, 6, 6), None);
    assert_eq!(read_u32(&text, 0, 6), None);
}

#[test]
fn numbers_are_written_in_decimal() {
    assert_eq!(decimal_string(0), "0");
    assert_eq!(decimal_string(9), "9");
    assert_eq!(decimal_string(10), "10");
    assert_eq!(decimal_string(11), "11");
    assert_eq!(decimal_string(100), "100");
    assert_eq!(decimal_string(1234567890), "1234567890");
    assert_eq!(decimal_string(4294967295), "4294967295");
    assert_eq!(decimal_string(18446744073709551615), "18446744073709551615");
    assert_eq!(
        decimal_string(340282366920938463463374607431768211455),
        "340282366920938463463374607431768211455"
    );
}

#[test]
fn writing_appends() {
    let mut out = String::from("n = ");
    write_decimal(&mut out, 305);
    assert_eq!(out, "n = 305");
    write_decimal(&mut out, 0);
    assert_eq!(out, "n = 3050");
}

#[test]
fn what_is_written_reads_back() {
    let numbers: Vec<u32> = vec![0, 1, 9, 10, 99, 100, 12345, 4294967294, 4294967295];
    for n in numbers {
        let text = decimal_string(n as u128);
        assert_eq!(text, n.to_string());
        assert_eq!(parse_u32(&text), Some(n));
    }
}

#[test]
fn reading_agrees_with_the_standard_parser() {
    let texts = vec![
        "0", "1", "+1", "-1", "", "+", "01", "4294967295", "4294967296", "1e3", "12 ", "\u{0663}", "1d", "d",
    ];
    for text in texts {
        assert_eq!(parse_u32(text), text.parse::<u32>().ok());
    }
}

#[test]
fn characters_of_a_text() {
    assert_eq!(chars_of(""), Vec::<char>::new());
    assert_eq!(chars_of("2d6"), vec!['2', 'd', '6']);
    assert_eq!(chars_of("d\u{e9}"), vec!['d', '\u{e9}']);
}

#[test]
fn texts_are_compared_by_characters() {
    assert!(same_chars(&vec!['-', 't'], "-t"));
    assert!(same_chars(&vec![], ""));
    assert!(!same_chars(&vec!['-', 't'], "-s"));
    assert!(!same_chars(&vec!['-', 't'], "-"));
    assert!(!same_chars(&vec!['-'], "-t"));
}
