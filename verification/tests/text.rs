use checkr::number::{parse_u16, push_decimal};
use checkr::text::{chars_of, split_lines, split_words, starts_with, suffix_after_last, without_whitespace};

fn cs(s: &str) -> Vec<char> {
    s.chars().collect()
}

fn strs(v: Vec<Vec<char>>) -> Vec<String> {
    v.into_iter().map(|w| w.into_iter().collect()).collect()
}

#[test]
fn words_split_at_any_whitespace() {
    assert_eq!(strs(split_words(&cs("  a\tbb \u{3000} c\n"))), vec!["a", "bb", "c"]);
    assert!(split_words(&cs(" \t\r\n")).is_empty());
}

#[test]
fn lines_drop_cr_before_newline_and_final_newline() {
    assert_eq!(strs(split_lines(&cs("a\r\nb\n\nc"))), vec!["a", "b", "", "c"]);
    assert_eq!(strs(split_lines(&cs("a\n"))), vec!["a"]);
    assert_eq!(strs(split_lines(&cs("a\r"))), vec!["a\r"]);
    assert!(split_lines(&cs("")).is_empty());
}

#[test]
fn whitespace_is_removed() {
    assert_eq!(without_whitespace(&cs(" 1 - 2\t")), cs("1-2"));
}

#[test]
fn prefix_and_suffix() {
    assert!(starts_with(&cs("users:(("), "users:"));
    assert!(!starts_with(&cs("user"), "users:"));
    assert_eq!(suffix_after_last(&cs("[::1]:8080"), ':'), cs("8080"));
    assert_eq!(suffix_after_last(&cs("nocolon"), ':'), cs("nocolon"));
    assert_eq!(suffix_after_last(&cs("end:"), ':'), cs(""));
}

#[test]
fn u16_numerals() {
    assert_eq!(parse_u16(&cs("0")), Some(0));
    assert_eq!(parse_u16(&cs("+65535")), Some(65535));
    assert_eq!(parse_u16(&cs("65536")), None);
    assert_eq!(parse_u16(&cs("+")), None);
    assert_eq!(parse_u16(&cs("")), None);
    assert_eq!(parse_u16(&cs("1 2")), None);
    assert_eq!(parse_u16(&cs("٣")), None);
    let mut out = cs("x=");
    push_decimal(1200, &mut out);
    assert_eq!(out, cs("x=1200"));
    assert_eq!(chars_of("héllo"), cs("héllo"));
}
