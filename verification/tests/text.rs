use localhost_build::text::{
    chars_of, decimal_chars, join_chars, parse_number, same_text, split_chars, string_of,
    strings_of,
};

fn chars(text: &str) -> Vec<char> {
    text.chars().collect()
}

#[test]
pub fn strings_and_characters() {
    assert_eq!(chars_of("d\u{e9}j\u{e0}"), chars("d\u{e9}j\u{e0}"));
    assert_eq!(string_of(&chars("a b")), "a b");
    assert_eq!(strings_of(&vec![chars("a"), chars("")]), vec!["a", ""]);
    assert!(same_text("abc", "abc"));
    assert!(!same_text("abc", "abd"));
    assert!(!same_text("abc", "ab"));
}

#[test]
pub fn splitting_and_joining() {
    assert_eq!(split_chars(&chars("a b\tc"), ' ', '\t'), vec![chars("a"), chars("b"), chars("c")]);
    assert_eq!(split_chars(&chars(" a  "), ' ', ' '), vec![chars(""), chars("a"), chars(""), chars("")]);
    assert_eq!(split_chars(&chars(""), ' ', ' '), vec![chars("")]);
    assert_eq!(join_chars(&vec![chars("a"), chars(""), chars("b")], &chars(", ")), chars("a, , b"));
    assert_eq!(join_chars(&vec![], &chars(", ")), chars(""));
    assert_eq!(join_chars(&vec![chars("a")], &chars(", ")), chars("a"));
}

#[test]
pub fn decimal_numbers() {
    assert_eq!(decimal_chars(0), chars("0"));
    assert_eq!(decimal_chars(1090), chars("1090"));
    assert_eq!(decimal_chars(u64::MAX), chars("18446744073709551615"));
    assert_eq!(parse_number(&chars("1090"), 2000), Some(1090));
    assert_eq!(parse_number(&chars("+0012"), 12), Some(12));
    assert_eq!(parse_number(&chars("13"), 12), None);
    assert_eq!(parse_number(&chars(""), 12), None);
    assert_eq!(parse_number(&chars("+"), 12), None);
    assert_eq!(parse_number(&chars("1 "), 12), None);
    assert_eq!(parse_number(&chars("-1"), 12), None);
    assert_eq!(parse_number(&chars("99999999999999999999999"), u64::MAX), None);
    assert_eq!(parse_number(&chars("18446744073709551615"), u64::MAX), Some(u64::MAX));
}
