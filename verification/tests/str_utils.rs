use localhost_build::str::LineError;
use localhost_build::str_utils::{
    get_cache_line, get_line_strings, get_strings, parse_cache, try_get_line_strings,
    try_parse_cache,
};

#[test]
pub fn str_utils_single_value_without_double_quotes_should_be_its_own_string() {
    let strings =
        get_line_strings(r#"hello-world "string1" "string2" end"#.to_string() + "\n");
    assert_eq!(strings.len(), 4);
}

#[test]
pub fn str_utils_four_strings() {
    let strings =
        get_line_strings(r#"hello-world "string1" "string2" end"#.to_string() + "\n");
    assert_eq!(strings[0], "hello-world");
    assert_eq!(strings[1], "string1");
    assert_eq!(strings[2], "string2");
    assert_eq!(strings[3], "end");
}

#[test]
pub fn str_utils_space_between_two_strings_should_not_be_its_own_string() {
    let strings = get_line_strings(r#""string1" "string2""#.to_string() + "\n");
    assert_eq!(strings.len(), 2);
}

#[test]
pub fn str_utils_two_strings() {
    let strings = get_line_strings(r#""string1" "string2""#.to_string() + "\n");
    assert_eq!(strings[0], "string1");
    assert_eq!(strings[1], "string2");
}

#[test]
pub fn str_utils_get_cache_line_as_expected() {
    let cache = get_cache_line((&"bin/test.txt".to_string(), &!0u32));
    assert_eq!(cache, r#""bin/test.txt" "4294967295""#.to_string())
}

#[test]
pub fn str_utils_get_cache_line_into_get_line_strings_as_expected() {
    let cache = get_cache_line((&"bin/test.txt".to_string(), &!0u32));
    let strings = get_line_strings(cache);
    assert_eq!(strings[0], "bin/test.txt");
    assert_eq!(strings[1], "4294967295");
}

#[test]
pub fn padded_tokenizer_reads_line_feeds_past_the_end() {
    assert_eq!(try_get_line_strings(String::new()).unwrap(), vec!["\n"]);
    assert_eq!(try_get_line_strings("a".to_string()).unwrap(), vec!["a"]);
    assert_eq!(try_get_line_strings("a b\n".to_string()).unwrap(), vec!["a", "b"]);
    assert_eq!(try_get_line_strings("a\nb".to_string()).unwrap(), vec!["a\nb"]);
    assert_eq!(try_get_line_strings("a\n\n".to_string()).unwrap(), vec!["a\n"]);
    assert_eq!(try_get_line_strings("ends\\".to_string()), Err(LineError::UnknownEscape));
    assert_eq!(try_get_line_strings(r#""a"" b"#.to_string()), Err(LineError::UnescapedQuote));
}

#[test]
pub fn padded_cache_round_trip() {
    let line = get_cache_line((&r#""\\?\C:\Program Dream's\Sub dir""#.to_string(), &4));
    assert_eq!(try_parse_cache(line.clone()).map(|map| map.len()), Ok(1));
    let parsed = parse_cache(line);
    assert_eq!(parsed.get(r#"\\?\C:\Program Dream's\Sub dir"#), Some(&4));
    assert_eq!(get_strings(r#""C:/1" "C:/2""#.to_string()), vec!["C:/1", "C:/2"]);
}
