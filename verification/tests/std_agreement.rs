use localhost_build::executor::{holds_text, Environment, Executor};
use localhost_build::fs::{try_canonicalize_any, join_path, strip_root, PathPart};
use localhost_build::str::{get_cache_line, lines_of};
use localhost_build::text::{decimal_chars, join_chars, parse_number, split_chars};
use std::path::{Component, Path, PathBuf};

/// A small generator of numbers that gives the same numbers every time.
struct Numbers(u64);

impl Numbers {
    fn next(&mut self) -> u64 {
        self.0 ^= self.0 << 13;
        self.0 ^= self.0 >> 7;
        self.0 ^= self.0 << 17;
        self.0
    }

    fn text(&mut self, alphabet: &[char], longest: u64) -> String {
        let len = self.next() % (longest + 1);
        (0..len).map(|_| alphabet[(self.next() % alphabet.len() as u64) as usize]).collect()
    }
}

fn chars(text: &str) -> Vec<char> {
    text.chars().collect()
}

#[test]
pub fn lines_are_the_lines_of_std() {
    let alphabet = chars("ab \r\n\n");
    let mut numbers = Numbers(0x9e3779b97f4a7c15);
    for _ in 0..50000 {
        let text = numbers.text(&alphabet, 12);
        let expected: Vec<Vec<char>> = text.lines().map(chars).collect();
        assert_eq!(lines_of(&chars(&text)), expected, "{:?}", text);
    }
}

#[test]
pub fn numbers_are_read_as_std_reads_them() {
    let alphabet = chars("0123456789+- 4");
    let mut numbers = Numbers(0x2545f4914f6cdd1d);
    for _ in 0..50000 {
        let text = numbers.text(&alphabet, 12);
        assert_eq!(
            parse_number(&chars(&text), u32::MAX as u64),
            text.parse::<u32>().ok().map(|n| n as u64),
            "{:?}",
            text
        );
        assert_eq!(parse_number(&chars(&text), u64::MAX), text.parse::<u64>().ok(), "{:?}", text);
    }
}

#[test]
pub fn numbers_are_written_as_std_writes_them() {
    let mut numbers = Numbers(0xda942042e4dd58b5);
    for _ in 0..20000 {
        let n = numbers.next() >> (numbers.next() % 64);
        assert_eq!(decimal_chars(n), chars(&n.to_string()));
    }
    let env = Environment { args: vec![], pwd: String::new() };
    let mut executor = Executor::try_new(String::new()).unwrap();
    for _ in 0..2000 {
        let code = numbers.next() as i32 >> (numbers.next() % 32);
        executor.process_exited(code);
        assert_eq!(executor.interpret_string("$exit-code".to_string(), &env), code.to_string());
    }
}

#[test]
pub fn splitting_and_joining_are_those_of_std() {
    let alphabet = chars("ab \t ");
    let mut numbers = Numbers(0x94d049bb133111eb);
    for _ in 0..50000 {
        let text = numbers.text(&alphabet, 10);
        let expected: Vec<Vec<char>> = text.split(|c| c == ' ' || c == '\t').map(chars).collect();
        let pieces = split_chars(&chars(&text), ' ', '\t');
        assert_eq!(pieces, expected, "{:?}", text);
        let strings: Vec<String> = expected.iter().map(|p| p.iter().collect()).collect();
        assert_eq!(join_chars(&pieces, &chars(", ")), chars(&strings.join(", ")));
    }
}

#[test]
pub fn a_text_holds_another_as_std_says() {
    let alphabet = chars("aab");
    let mut numbers = Numbers(0xbf58476d1ce4e5b9);
    for _ in 0..50000 {
        let text = numbers.text(&alphabet, 8);
        let needle = numbers.text(&alphabet, 4);
        assert_eq!(
            holds_text(&chars(&text), &chars(&needle)),
            text.contains(&needle),
            "{:?} in {:?}",
            needle,
            text
        );
    }
}

#[test]
pub fn printable_paths_are_escaped_as_std_shows_them() {
    let alphabet = chars("ab\"'\\ /:.");
    let mut numbers = Numbers(0x853c49e6748fea9b);
    for _ in 0..50000 {
        let path = numbers.text(&alphabet, 10);
        let crc = numbers.next() as u32;
        let expected = format!("\"{}\" \"{}\"", path.trim_matches('"').escape_debug(), crc);
        assert_eq!(get_cache_line((&path, &crc)), expected, "{:?}", path);
    }
}

fn parts(path: &Path) -> Vec<PathPart> {
    path.components()
        .map(|c| match c {
            Component::Prefix(p) => PathPart::Prefix(p.as_os_str().to_string_lossy().into_owned()),
            Component::RootDir => PathPart::Root,
            Component::CurDir => PathPart::Current,
            Component::ParentDir => PathPart::Parent,
            Component::Normal(s) => PathPart::Normal(s.to_string_lossy().into_owned()),
        })
        .collect()
}

#[test]
pub fn paths_are_stripped_and_joined_as_std_does() {
    let alphabet = chars("ab//..//");
    let mut numbers = Numbers(0xbf58476d1ce4e5b9);
    for _ in 0..50000 {
        let path = PathBuf::from(numbers.text(&alphabet, 12));
        let root = PathBuf::from(numbers.text(&alphabet, 6));
        match path.strip_prefix(&root) {
            Ok(relative) => {
                assert_eq!(strip_root(&parts(&path), &parts(&root)), Ok(parts(relative)));
            }
            Err(_) => assert!(strip_root(&parts(&path), &parts(&root)).is_err()),
        }
        if !parts(&path).contains(&PathPart::Current) {
            let mut joined = root.clone();
            joined.push(&path);
            assert_eq!(join_path(&parts(&root), &parts(&path)), parts(&joined));
        }
    }
}

#[test]
pub fn two_dots_take_away_what_std_pops() {
    let alphabet = chars("ab//");
    let mut numbers = Numbers(0x106689d45497fdb5);
    for _ in 0..50000 {
        let path = PathBuf::from(numbers.text(&alphabet, 10));
        let mut popped = path.clone();
        popped.pop();
        let mut with_dots = parts(&path);
        with_dots.push(PathPart::Parent);
        assert_eq!(try_canonicalize_any(&with_dots), Ok(parts(&popped)), "{:?}", path);
    }
}
