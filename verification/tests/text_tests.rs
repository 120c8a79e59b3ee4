use std::num::IntErrorKind;
use guessing_game::text::{
    chars_of, count_matches_in, parse_u32, replace_all_in, same_text, string_from_chars, trim,
    u32_to_decimal, ParseErrorKind,
};

fn chars(s: &str) -> Vec<char> {
    s.chars().collect()
}

#[test]
fn trim_removes_surrounding_white_space() {
    assert_eq!(trim("  42 \n"), "42");
    assert_eq!(trim("\t q\r\n"), "q");
    assert_eq!(trim("a b"), "a b");
    assert_eq!(trim("   "), "");
    assert_eq!(trim(""), "");
    assert_eq!(trim("\u{3000}x\u{00a0}"), "x");
}

#[test]
fn trim_agrees_with_std_trim() {
    for s in ["", " ", "x", " x ", "\u{2028}y\u{85}", "\u{200b}z", "a\u{1680}", "\u{180e}w"] {
        assert_eq!(trim(s), s.trim(), "input {:?}", s);
    }
}

#[test]
fn chars_and_strings_round_trip() {
    let v = chars_of("héllo");
    assert_eq!(v, vec!['h', 'é', 'l', 'l', 'o']);
    assert_eq!(string_from_chars(&v), "héllo");
}

#[test]
fn decimal_rendering() {
    assert_eq!(u32_to_decimal(0), "0");
    assert_eq!(u32_to_decimal(7), "7");
    assert_eq!(u32_to_decimal(10), "10");
    assert_eq!(u32_to_decimal(100), "100");
    assert_eq!(u32_to_decimal(4294967295), "4294967295");
}

#[test]
fn parse_accepts_numbers() {
    assert_eq!(parse_u32("0"), Ok(0));
    assert_eq!(parse_u32("42"), Ok(42));
    assert_eq!(parse_u32("+42"), Ok(42));
    assert_eq!(parse_u32("007"), Ok(7));
    assert_eq!(parse_u32("4294967295"), Ok(4294967295));
}

#[test]
fn parse_reports_each_error_kind() {
    assert_eq!(parse_u32(""), Err(ParseErrorKind::Empty));
    assert_eq!(parse_u32("+"), Err(ParseErrorKind::InvalidDigit));
    assert_eq!(parse_u32("-"), Err(ParseErrorKind::InvalidDigit));
    assert_eq!(parse_u32("-5"), Err(ParseErrorKind::InvalidDigit));
    assert_eq!(parse_u32("12a"), Err(ParseErrorKind::InvalidDigit));
    assert_eq!(parse_u32(" 1"), Err(ParseErrorKind::InvalidDigit));
    assert_eq!(parse_u32("4294967296"), Err(ParseErrorKind::PosOverflow));
    assert_eq!(parse_u32("99999999999"), Err(ParseErrorKind::PosOverflow));
}

#[test]
fn parse_agrees_with_std_parse() {
    for s in ["", "+", "-", "1", "+1", "-1", "++1", "1+", "4294967295", "4294967296", "42949672950x", "x42949672950", "٣"] {
        let ours = parse_u32(s);
        let std = s.parse::<u32>();
        match (ours, std) {
            (Ok(a), Ok(b)) => assert_eq!(a, b),
            (Err(k), Err(e)) => {
                let expected = match e.kind() {
                    IntErrorKind::Empty => ParseErrorKind::Empty,
                    IntErrorKind::InvalidDigit => ParseErrorKind::InvalidDigit,
                    IntErrorKind::PosOverflow => ParseErrorKind::PosOverflow,
                    IntErrorKind::NegOverflow => ParseErrorKind::NegOverflow,
                    IntErrorKind::Zero => ParseErrorKind::Zero,
                    _ => panic!("unexpected kind"),
                };
                assert_eq!(k, expected, "input {:?}", s);
            }
            (a, b) => panic!("mismatch on {:?}: {:?} {:?}", s, a, b),
        }
    }
}

#[test]
fn counting_and_replacing_patterns() {
    assert_eq!(count_matches_in(&chars("a{}b{}"), &chars("{}")), 2);
    assert_eq!(count_matches_in(&chars("aaaa"), &chars("aa")), 2);
    assert_eq!(count_matches_in(&chars("aaa"), &chars("aa")), 1);
    assert_eq!(count_matches_in(&chars(""), &chars("{}")), 0);
    assert_eq!(
        replace_all_in(&chars("x{}y{}"), &chars("{}"), &chars("Z")),
        chars("xZyZ")
    );
    assert_eq!(replace_all_in(&chars("aaa"), &chars("aa"), &chars("b")), chars("ba"));
    assert_eq!("aaa".replace("aa", "b"), "ba");
}

#[test]
fn comparing_texts() {
    assert!(same_text("quit", "quit"));
    assert!(!same_text("quit", "quits"));
    assert!(!same_text("q", "Q"));
    assert!(same_text("", ""));
}

#[test]
fn trailing_newline_reads_the_same() {
    for s in ["quit", " 42", "", "  ", "a b"] {
        assert_eq!(trim(&format!("{s}\n")), trim(s));
        assert_eq!(trim(&format!("{s}\r\n")), trim(s));
    }
}
