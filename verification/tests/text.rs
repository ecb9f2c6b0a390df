use cvm_announcements::number::{decimal_text, parse_number, parse_u32, parse_u64, NumberFault};
use cvm_announcements::text::{
    chars_of, concat2, concat3, copy_texts, is_blank, is_white_space, join, lines_of, same_text,
    text_between, text_order, trimmed, TextOrder,
};
use std::cmp::Ordering;
use std::num::IntErrorKind;

#[test]
fn white_space_is_that_of_the_standard_library() {
    for code in 0..=0x10ffffu32 {
        if let Some(c) = char::from_u32(code) {
            assert_eq!(is_white_space(c), c.is_whitespace(), "{code:x}");
        }
    }
}

#[test]
fn characters_and_parts_of_a_text() {
    let chars = chars_of("aé☃z");
    assert_eq!(chars, vec!['a', 'é', '☃', 'z']);
    assert_eq!(text_between(&chars, 1, 3), "é☃");
    assert_eq!(text_between(&chars, 2, 2), "");
    assert_eq!(concat2("ab", "cd"), "abcd");
    assert_eq!(concat3("ab", "", "cd"), "abcd");
    assert_eq!(copy_texts(&vec!["x".to_string(), String::new()]), vec!["x", ""]);
}

#[test]
fn trimming_agrees_with_the_standard_library() {
    let samples = ["", " ", "a", " a ", "\t\r\n a b \u{3000}\u{85}", "\u{200b}x\u{200b}", "\u{a0}"];
    for sample in samples {
        assert_eq!(trimmed(sample), sample.trim(), "{sample:?}");
        assert_eq!(is_blank(sample), sample.trim().is_empty(), "{sample:?}");
    }
}

#[test]
fn lines_agree_with_the_standard_library() {
    let samples = [
        "", "\n", "a", "a\n", "a\nb", "a\r\nb\r\n", "a\r", "a\r\r\n", "\n\n", "\r\n", "a\n\nb\r", "\r",
    ];
    for sample in samples {
        let expected: Vec<&str> = sample.lines().collect();
        assert_eq!(lines_of(sample), expected, "{sample:?}");
    }
}

#[test]
fn joined_lines_come_back() {
    let parts = vec!["{\"a\":1}".to_string(), String::new(), "x\ry".to_string()];
    let text = concat2(&join(&parts, "\n"), "\n");
    assert_eq!(text, "{\"a\":1}\n\nx\ry\n");
    assert_eq!(lines_of(&text), parts);
}

#[test]
fn joining_puts_the_separator_between() {
    let none: Vec<String> = Vec::new();
    assert_eq!(join(&none, " | "), "");
    assert_eq!(join(&vec!["a".to_string()], " | "), "a");
    assert_eq!(
        join(&vec!["a".to_string(), "b".to_string(), "c".to_string()], " | "),
        "a | b | c"
    );
}

#[test]
fn order_of_texts_is_that_of_strings() {
    let samples = ["", "a", "ab", "b", "B", "é", "\u{ffff}", "\u{10000}", "aé", "a\u{0}"];
    for a in samples {
        for b in samples {
            let expected = match a.cmp(b) {
                Ordering::Less => TextOrder::Before,
                Ordering::Equal => TextOrder::Same,
                Ordering::Greater => TextOrder::After,
            };
            assert_eq!(text_order(a, b), expected, "{a:?} {b:?}");
            assert_eq!(same_text(a, b), a == b);
        }
    }
}

fn fault_of(kind: &IntErrorKind) -> NumberFault {
    match kind {
        IntErrorKind::Empty => NumberFault::Empty,
        IntErrorKind::InvalidDigit => NumberFault::InvalidDigit,
        IntErrorKind::PosOverflow => NumberFault::TooLarge,
        other => panic!("{other:?}"),
    }
}

#[test]
fn numbers_are_read_as_by_the_standard_library() {
    let samples = [
        "", "+", "-", "+0", "-0", "-1", "0", "00", "007", "10", "1 ", " 1", "1_0", "0x1", "++1", "1+",
        "4294967295", "4294967296", "18446744073709551615", "18446744073709551616",
        "99999999999999999999999", "18446744073709551615x", "18446744073709551616x", "٣", "1é",
    ];
    for sample in samples {
        let wide = sample.parse::<u64>().map_err(|error| fault_of(error.kind()));
        assert_eq!(parse_u64(sample), wide, "{sample:?}");
        let narrow = sample.parse::<u32>().map_err(|error| fault_of(error.kind()));
        assert_eq!(parse_u32(sample), narrow, "{sample:?}");
    }
}

#[test]
fn numbers_have_a_largest_value() {
    assert_eq!(parse_number("12", 12), Ok(12));
    assert_eq!(parse_number("13", 12), Err(NumberFault::TooLarge));
    assert_eq!(parse_number("", 12), Err(NumberFault::Empty));
    assert_eq!(parse_number("x", 12), Err(NumberFault::InvalidDigit));
}

#[test]
fn decimal_numbers_come_back() {
    for n in [0, 1, 9, 10, 11316, 4294967295, u64::MAX] {
        assert_eq!(decimal_text(n), n.to_string());
        assert_eq!(parse_u64(&decimal_text(n)), Ok(n));
    }
}
