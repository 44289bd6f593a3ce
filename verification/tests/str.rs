use localhost_build::str::{
    get_cache_line, get_line_strings, get_strings, parse_cache, separate_first_value_from_rest,
    try_get_line_strings, try_parse_cache, CacheError, LineError,
};

#[test]
pub fn str_single_value_without_double_quotes_should_be_its_own_string() {
    let strings = get_line_strings(r#"hello-world "string1" "string2" end"#.to_string());
    assert_eq!(strings.len(), 4);
}

#[test]
pub fn str_four_strings() {
    let strings = get_line_strings(r#"hello-world "string1" "string2" end"#.to_string());
    assert_eq!(strings[0], "hello-world");
    assert_eq!(strings[1], "string1");
    assert_eq!(strings[2], "string2");
    assert_eq!(strings[3], "end");
}

#[test]
pub fn a_number() {
    let strings = get_line_strings(r#"3"#.to_string());
    assert_eq!(strings[0], "3");
}

#[test]
pub fn str_space_between_two_strings_should_not_be_its_own_string() {
    let strings = get_line_strings(r#""string1" "string2""#.to_string());
    assert_eq!(strings.len(), 2);
}

#[test]
pub fn str_two_strings() {
    let strings = get_line_strings(r#""string1" "string2""#.to_string() + "\n");
    assert_eq!(strings[0], "string1");
    assert_eq!(strings[1], "string2");
}

#[test]
pub fn str_get_cache_line_as_expected() {
    let cache = get_cache_line((&"bin/test.txt".to_string(), &!0u32));
    assert_eq!(cache, r#""bin/test.txt" "4294967295""#.to_string())
}

#[test]
pub fn str_get_cache_line_into_get_line_strings_as_expected() {
    let cache = get_cache_line((&"bin/test.txt".to_string(), &!0u32));
    let strings = get_line_strings(cache);
    assert_eq!(strings[0], "bin/test.txt");
    assert_eq!(strings[1], "4294967295");
}

fn round_trip(path: &str, crc: u32, expected_path: &str) {
    let line = get_cache_line((&path.to_string(), &crc));
    let parsed = parse_cache(line);
    assert_eq!(parsed.get(expected_path), Some(&crc));
    assert_eq!(parsed.len(), 1);
}

#[test]
pub fn cache_backslashes() {
    round_trip(r#""\\\\?\\C:\\Program Dreams""#, 2, r#"\\\\?\\C:\\Program Dreams"#);
}

#[test]
pub fn cache_backslashes_and_apostrophe() {
    round_trip(r#""\\\\?\\C:\\Program Dream's""#, 3, r#"\\\\?\\C:\\Program Dream's"#);
}

#[test]
pub fn cache_no_extra_backslashes() {
    round_trip(r#""\\?\C:\Program Dream\Subdir""#, 4, r#"\\?\C:\Program Dream\Subdir"#);
}

#[test]
pub fn cache_forward_slashes() {
    round_trip(r#""C:/Program Size (x51)/qemu/file""#, 5, r#"C:/Program Size (x51)/qemu/file"#);
}

#[test]
pub fn cache_unix() {
    round_trip(r#""/home/someone/thing""#, 6, r#"/home/someone/thing"#);
}

#[test]
pub fn cache_round_trip_keeps_odd_characters() {
    round_trip("a \"quoted\" name\twith tab", 0, "a \"quoted\" name\twith tab");
    round_trip("ends with backslash\\", u32::MAX, "ends with backslash\\");
    round_trip("d\u{e9}j\u{e0} vu", 77, "d\u{e9}j\u{e0} vu");
}

#[test]
pub fn cache_line_escapes_quotes_apostrophes_and_backslashes() {
    let line = get_cache_line((&r#"a"b'c\d"#.to_string(), &12));
    assert_eq!(line, r#""a\"b\'c\\d" "12""#);
}

#[test]
pub fn cache_of_several_lines_with_a_later_duplicate() {
    let text = "\"a\" \"1\"\r\n\"b\" \"2\"\n\"a\" \"3\"\n".to_string();
    let parsed = try_parse_cache(text).unwrap();
    assert_eq!(parsed.len(), 2);
    assert_eq!(parsed.get("a"), Some(&3));
    assert_eq!(parsed.get("b"), Some(&2));
    assert_eq!(parsed.key_at(0), "a");
    assert_eq!(parsed.key_at(1), "b");
    assert!(try_parse_cache(String::new()).unwrap().is_empty());
}

#[test]
pub fn cache_with_a_wrong_number_of_fields() {
    assert_eq!(try_parse_cache("\"a\"".to_string()).err(), Some(CacheError::FieldCount));
    assert_eq!(try_parse_cache("\"a\" \"1\" \"2\"".to_string()).err(), Some(CacheError::FieldCount));
    assert_eq!(try_parse_cache("\"\" \"5\"".to_string()).err(), Some(CacheError::FieldCount));
    assert_eq!(try_parse_cache("\n".to_string()).err(), Some(CacheError::FieldCount));
}

#[test]
pub fn cache_with_a_checksum_that_is_no_number() {
    assert_eq!(try_parse_cache("\"a\" \"x\"".to_string()).err(), Some(CacheError::Checksum));
    assert_eq!(try_parse_cache("\"a\" \"4294967296\"".to_string()).err(), Some(CacheError::Checksum));
    assert_eq!(try_parse_cache("\"a\" \"-1\"".to_string()).err(), Some(CacheError::Checksum));
    assert_eq!(try_parse_cache("\"a\" \"+\"".to_string()).err(), Some(CacheError::Checksum));
    assert_eq!(try_parse_cache("\"a\" \"+7\"".to_string()).unwrap().get("a"), Some(&7));
    assert_eq!(try_parse_cache("\"a\" \"007\"".to_string()).unwrap().get("a"), Some(&7));
    assert_eq!(
        try_parse_cache("\"a\" \"4294967295\"".to_string()).unwrap().get("a"),
        Some(&u32::MAX)
    );
}

#[test]
pub fn cache_with_a_line_that_cannot_be_split() {
    assert_eq!(
        try_parse_cache("\"a\\n\" \"1\"".to_string()).err(),
        Some(CacheError::Line(LineError::UnknownEscape))
    );
}

#[test]
pub fn line_strings_know_three_escapes() {
    let strings = try_get_line_strings(r#"a\"b c\'d e\\f"#.to_string()).unwrap();
    assert_eq!(strings, vec!["a\"b", "c'd", "e\\f"]);
    assert_eq!(try_get_line_strings(r#"a\nb"#.to_string()), Err(LineError::UnknownEscape));
    assert_eq!(try_get_line_strings("ends\\".to_string()), Err(LineError::UnknownEscape));
}

#[test]
pub fn line_strings_with_quotes_side_by_side() {
    assert_eq!(try_get_line_strings(r#"a "" b"#.to_string()).unwrap(), vec!["a", "", "b"]);
    assert_eq!(try_get_line_strings(r#""a"" b"#.to_string()), Err(LineError::UnescapedQuote));
}

#[test]
pub fn line_strings_keep_spaces_inside_quotes() {
    assert_eq!(try_get_line_strings(r#"  "a  b"   c  "#.to_string()).unwrap(), vec!["a  b", "c"]);
    assert_eq!(try_get_line_strings(String::new()).unwrap(), Vec::<String>::new());
    assert_eq!(try_get_line_strings("a\nb".to_string()).unwrap(), vec!["a\nb"]);
}

#[test]
pub fn strings_between_quotes() {
    assert_eq!(get_strings(r#""C:/1" "C:/2""#.to_string()), vec!["C:/1", "C:/2"]);
    assert_eq!(get_strings(r#" a "b c" d "#.to_string()), vec![" a ", "b c", " d "]);
    assert_eq!(get_strings("  \r ".to_string()), Vec::<String>::new());
    assert_eq!(get_strings("\t".to_string()), vec!["\t"]);
}

#[test]
pub fn first_value_and_rest() {
    let parts = separate_first_value_from_rest("name  some \t value\n".to_string(), ":set");
    assert_eq!(parts.first, "name");
    assert_eq!(parts.rest, "some value\n");
    let parts = separate_first_value_from_rest(" name value".to_string(), ":set");
    assert_eq!(parts.first, "");
    assert_eq!(parts.rest, "name value");
    let parts = separate_first_value_from_rest("only".to_string(), ":set");
    assert_eq!(parts.first, "only");
    assert_eq!(parts.rest, "");
    let parts = separate_first_value_from_rest("a \n \r b".to_string(), ":set");
    assert_eq!(parts.rest, "b");
}
