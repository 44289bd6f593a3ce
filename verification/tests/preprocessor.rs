use localhost_build::lexer::{LexError, Lexer};
use localhost_build::preprocessor::{
    is_library_import, perform_imports, run, try_run, Imports, PreprocessError,
    PreprocessedScript,
    MAX_IMPORT_DEPTH,
};
use localhost_build::string_map::StringMap;

fn files(entries: &[(&str, &str)]) -> StringMap<String> {
    let mut map = StringMap::new();
    for (path, text) in entries {
        map.insert(path.to_string(), text.to_string());
    }
    map
}

fn done(script: &str) -> Imports {
    Imports::Done(PreprocessedScript { script: script.to_string() })
}

#[test]
pub fn a_script_without_imports_has_its_line_ends_made_alike() {
    assert_eq!(perform_imports(":l a\r\n:l b\n".to_string(), &files(&[])), done(":l a\n:l b"));
    assert_eq!(perform_imports(String::new(), &files(&[])), done(""));
    assert_eq!(perform_imports("a\n\nb\r".to_string(), &files(&[])), done("a\n\nb\r"));
}

#[test]
pub fn an_import_is_replaced_by_its_file() {
    let known = files(&[("lib.lb", ":l from lib\r\n:l more\n")]);
    assert_eq!(
        perform_imports(":l before\n&import(lib.lb)\n:l after".to_string(), &known),
        done(":l before\n:l from lib\r\n:l more\n\n:l after")
    );
}

#[test]
pub fn imports_in_imported_files_are_replaced_too() {
    let known = files(&[("a", "&import(b)\n:l a"), ("b", ":l b\n&import(c)"), ("c", ":l c")]);
    assert_eq!(perform_imports("&import(a)".to_string(), &known), done(":l b\n:l c\n:l a"));
}

#[test]
pub fn the_first_unknown_file_is_asked_for() {
    let known = files(&[("a", "&import(lblib/b)")]);
    assert_eq!(
        perform_imports("&import(a)\n&import(c)".to_string(), &known),
        Imports::Missing("c".to_string())
    );
    assert_eq!(
        perform_imports("&import(a)".to_string(), &known),
        Imports::Missing("lblib/b".to_string())
    );
    assert_eq!(
        perform_imports("&import()".to_string(), &known),
        Imports::Missing(String::new())
    );
    assert_eq!(
        perform_imports("&import(x) y)".to_string(), &known),
        Imports::Missing("x) y".to_string())
    );
}

#[test]
pub fn only_whole_lines_are_imports() {
    let none = files(&[]);
    assert_eq!(perform_imports(" &import(a)".to_string(), &none), done(" &import(a)"));
    assert_eq!(perform_imports("&import(a) ".to_string(), &none), done("&import(a) "));
    assert_eq!(perform_imports("&import(".to_string(), &none), done("&import("));
    assert_eq!(perform_imports("&import(a)\r".to_string(), &none), done("&import(a)\r"));
    assert_eq!(
        perform_imports("&import(a)\r\n".to_string(), &none),
        Imports::Missing("a".to_string())
    );
}

#[test]
pub fn a_file_that_imports_itself_goes_too_deep() {
    let known = files(&[("self", "&import(self)")]);
    assert_eq!(perform_imports("&import(self)".to_string(), &known), Imports::TooDeep);
    assert_eq!(MAX_IMPORT_DEPTH, 64);
}

#[test]
pub fn library_imports_begin_with_lblib() {
    assert!(is_library_import("lblib/rust.lb"));
    assert!(is_library_import("lblib/"));
    assert!(!is_library_import("lblib"));
    assert!(!is_library_import("my/lblib/rust.lb"));
    assert!(!is_library_import(""));
}

#[test]
pub fn groups_are_gathered_by_name() {
    let script = ":l x\n[a $p\n:l first\n]\n!a 1\n[b\n]\n[a\n:l second\n:q\n]\n";
    let groups = try_run(Lexer::new(script.to_string(), true)).unwrap();
    assert_eq!(groups.len(), 2);
    assert_eq!(groups.key_at(0), "a");
    assert_eq!(groups.key_at(1), "b");
    let a = groups.get("a").unwrap();
    assert_eq!(a.name, "a");
    assert!(a.args.is_empty());
    assert_eq!(a.commands.len(), 2);
    assert!(groups.get("b").unwrap().commands.is_empty());
    assert!(!groups.contains_key("c"));
}

#[test]
pub fn gathering_needs_a_lexer_for_the_preprocessor() {
    assert_eq!(
        try_run(Lexer::new("[a\n]\n".to_string(), false)).err(),
        Some(PreprocessError::NotPreprocessing)
    );
    assert_eq!(
        try_run(Lexer::new("[a\n".to_string(), true)).err(),
        Some(PreprocessError::Lex(LexError::UnterminatedGroup))
    );
    assert_eq!(
        try_run(Lexer::new("[a\n]\n%".to_string(), true)).err(),
        Some(PreprocessError::Lex(LexError::UnknownToken('%')))
    );
}

#[test]
pub fn groups_of_a_script_that_holds_nothing_but_tokens() {
    let groups = run(Lexer::new("[a $x\n:l $x\n]\n!a 1\n".to_string(), true));
    assert_eq!(groups.len(), 1);
    assert_eq!(groups.get("a").unwrap().args, vec!["x"]);
}
