use localhost_build::crc32::Crc32Table;
use localhost_build::fs::{
    cached_copy_dir, canonicalize_any, canonicalize_parts, check_source, copy_dir,
    create_recursive_dir_copy_ops, get_source_and_target, is_up_to_date, join_path,
    needs_source, record_copy, same_path, strip_root, try_cached_copy_dir,
    try_canonicalize_any, try_copy_dir, try_create_recursive_dir_copy_ops,
    try_get_source_and_target, CanonicalFsOp, CopyStep, DirectoryEntry, EntryKind, FsError, FsOp,
    PathPart, SourceKind,
};
use localhost_build::string_map::StringMap;

fn path(text: &str) -> Vec<PathPart> {
    let mut parts = Vec::new();
    if text.starts_with('/') {
        parts.push(PathPart::Root);
    }
    for name in text.split('/').filter(|name| !name.is_empty()) {
        parts.push(match name {
            "." => PathPart::Current,
            ".." => PathPart::Parent,
            name => PathPart::Normal(name.to_string()),
        });
    }
    parts
}

fn op(source: &str, target: &str) -> CanonicalFsOp {
    CanonicalFsOp { source: path(source), target: path(target) }
}

fn entry(text: &str, kind: EntryKind) -> DirectoryEntry {
    DirectoryEntry { path: path(text), kind }
}

#[test]
pub fn source_and_target_are_the_first_two_quoted_strings() {
    assert_eq!(
        try_get_source_and_target(r#""C:/1 2.txt" "C:/2.txt" "more""#.to_string(), ":cp"),
        Ok(FsOp { source: "C:/1 2.txt".to_string(), target: "C:/2.txt".to_string() })
    );
    assert_eq!(
        try_get_source_and_target("a \"b\"".to_string(), ":cp"),
        Ok(FsOp { source: "a ".to_string(), target: "b".to_string() })
    );
    assert_eq!(try_get_source_and_target("\"a\" ".to_string(), ":cp"), Err(FsError::MissingTarget));
    assert_eq!(try_get_source_and_target("  ".to_string(), ":cp"), Err(FsError::MissingSource));
}

#[test]
pub fn dots_are_taken_out_of_a_path() {
    assert_eq!(try_canonicalize_any(&path("/a/./b/../c")), Ok(path("/a/c")));
    assert_eq!(try_canonicalize_any(&path("./a/b/../../..")), Ok(path("")));
    assert_eq!(try_canonicalize_any(&path("/..")), Ok(path("/")));
    assert_eq!(try_canonicalize_any(&path("../a")), Ok(path("a")));
    assert_eq!(try_canonicalize_any(&path("")), Ok(path("")));
    let drive = vec![PathPart::Prefix("C:".to_string()), PathPart::Parent, PathPart::Normal("a".to_string())];
    assert_eq!(
        try_canonicalize_any(&drive),
        Ok(vec![PathPart::Prefix("C:".to_string()), PathPart::Normal("a".to_string())])
    );
    let rooted_drive = vec![PathPart::Prefix("C:".to_string()), PathPart::Root];
    assert_eq!(try_canonicalize_any(&rooted_drive), Err(FsError::MisplacedRoot));
}

#[test]
pub fn an_operation_is_made_canonical() {
    let made = FsOp { source: "a/./b/../c".to_string(), target: "./t".to_string() }.canonicalize();
    assert_eq!(made, Ok(op("a/c", "t")));
}

#[test]
pub fn an_operation_is_made_canonical_from_the_parts_of_its_paths() {
    assert_eq!(canonicalize_parts(&path("/a/./b/.."), &path("../t/x")), Ok(op("/a", "t/x")));
    assert_eq!(canonicalize_parts(&path(""), &path("/")), Ok(op("", "/")));
    let rooted_drive = vec![PathPart::Prefix("C:".to_string()), PathPart::Root];
    assert_eq!(canonicalize_parts(&rooted_drive, &path("t")), Err(FsError::MisplacedRoot));
    assert_eq!(canonicalize_parts(&path("s"), &rooted_drive), Err(FsError::MisplacedRoot));
}

#[test]
pub fn paths_below_a_root() {
    assert_eq!(strip_root(&path("/a/b/c"), &path("/a")), Ok(path("b/c")));
    assert_eq!(strip_root(&path("/a"), &path("/a")), Ok(path("")));
    assert_eq!(strip_root(&path("/a/b"), &path("/b")), Err(FsError::OutsideSource));
    assert_eq!(strip_root(&path("/a"), &path("/a/b")), Err(FsError::OutsideSource));
    assert_eq!(join_path(&path("/t"), &path("b/c")), path("/t/b/c"));
    assert_eq!(join_path(&path("/t"), &path("/b")), path("/b"));
    assert_eq!(join_path(&path("/t"), &path("")), path("/t"));
    assert!(same_path(&path("/a/b"), &path("/a/b")));
    assert!(!same_path(&path("/a/b"), &path("a/b")));
}

#[test]
pub fn entries_are_mapped_from_below_the_source_to_below_the_target() {
    let entries = vec![path("/src/a"), path("/src/a/./x.txt"), path("/src/a/../b.txt")];
    assert_eq!(
        try_create_recursive_dir_copy_ops(&path("/src"), &path("out/../dst"), &entries),
        Ok(vec![op("/src/a", "dst/a"), op("/src/a/x.txt", "dst/a/x.txt"), op("/src/b.txt", "dst/b.txt")])
    );
    assert_eq!(
        try_create_recursive_dir_copy_ops(&path("/src"), &path("/dst"), &vec![path("/other/a")]),
        Err(FsError::OutsideSource)
    );
}

#[test]
pub fn directories_are_made_once_and_before_their_files() {
    let entries = vec![
        entry("/src/a", EntryKind::Directory),
        entry("/src/top.txt", EntryKind::File),
        entry("/src/a/x.txt", EntryKind::File),
        entry("/src/link", EntryKind::Other),
        entry("/src/a/y.txt", EntryKind::File),
        entry("/src/b/z.txt", EntryKind::File),
        entry("/src/b", EntryKind::Directory),
    ];
    assert_eq!(
        try_copy_dir(&op("/src", "/dst"), &entries),
        Ok(vec![
            CopyStep::CreateDirectory(path("/dst/a")),
            CopyStep::CreateDirectory(path("/dst")),
            CopyStep::Copy(op("/src/top.txt", "/dst/top.txt")),
            CopyStep::Copy(op("/src/a/x.txt", "/dst/a/x.txt")),
            CopyStep::Warn(path("/src/link")),
            CopyStep::Copy(op("/src/a/y.txt", "/dst/a/y.txt")),
            CopyStep::CreateDirectory(path("/dst/b")),
            CopyStep::Copy(op("/src/b/z.txt", "/dst/b/z.txt")),
        ])
    );
    assert_eq!(
        try_cached_copy_dir(&op("/src", "/dst"), &entries[1..2].iter().map(|e| entry("/src/top.txt", e.kind)).collect()),
        Ok(vec![
            CopyStep::CreateDirectory(path("/dst")),
            CopyStep::CachedCopy(op("/src/top.txt", "/dst/top.txt")),
        ])
    );
    assert_eq!(try_copy_dir(&op("/src", "/dst"), &vec![]), Ok(vec![]));
}

#[test]
pub fn a_file_needs_a_directory_to_go_into() {
    assert_eq!(
        try_copy_dir(&op("/src", "/"), &vec![entry("/src", EntryKind::File)]),
        Err(FsError::NoParent)
    );
    assert_eq!(
        try_cached_copy_dir(&op("", ""), &vec![entry("", EntryKind::File)]),
        Err(FsError::NoParent)
    );
    assert_eq!(
        try_cached_copy_dir(&op("a", "b"), &vec![entry("a", EntryKind::File)]),
        Ok(vec![CopyStep::CreateDirectory(path("")), CopyStep::CachedCopy(op("a", "b"))])
    );
}

#[test]
pub fn file_commands_want_files_and_directory_commands_directories() {
    assert_eq!(check_source(SourceKind::File, Some(true)), Err(FsError::IsDirectory));
    assert_eq!(check_source(SourceKind::File, Some(false)), Ok(()));
    assert_eq!(check_source(SourceKind::File, None), Ok(()));
    assert_eq!(check_source(SourceKind::Directory, Some(false)), Err(FsError::NotDirectory));
    assert_eq!(check_source(SourceKind::Directory, Some(true)), Ok(()));
    assert_eq!(check_source(SourceKind::Directory, None), Ok(()));
}

#[test]
pub fn a_cached_copy_made_again_is_skipped() {
    let table = Crc32Table::default();
    let mut cache: StringMap<u32> = StringMap::new();
    let content = Some(b"content of F".to_vec());
    assert!(!is_up_to_date(&cache, "T", false, &content, &table));
    assert!(!needs_source(&cache, "T", true));
    record_copy(&mut cache, "T".to_string(), &content, &table);
    assert!(needs_source(&cache, "T", true));
    assert!(!needs_source(&cache, "T", false));
    let recorded = *cache.get("T").unwrap();
    assert_eq!(recorded, table.calculate(b"content of F"));
    assert!(is_up_to_date(&cache, "T", true, &content, &table));
    assert_eq!(cache.get("T"), Some(&recorded));
    assert_eq!(cache.len(), 1);
}

#[test]
pub fn a_cached_copy_is_made_after_a_change() {
    let table = Crc32Table::default();
    let mut cache: StringMap<u32> = StringMap::new();
    record_copy(&mut cache, "T".to_string(), &Some(b"old".to_vec()), &table);
    assert!(!is_up_to_date(&cache, "T", false, &Some(b"old".to_vec()), &table));
    let changed = Some(b"new".to_vec());
    assert!(!is_up_to_date(&cache, "T", true, &changed, &table));
    assert!(!is_up_to_date(&cache, "T", true, &None, &table));
    assert!(!is_up_to_date(&cache, "other", true, &Some(b"old".to_vec()), &table));
    record_copy(&mut cache, "T".to_string(), &changed, &table);
    assert_eq!(cache.get("T"), Some(&table.calculate(b"new")));
    record_copy(&mut cache, "T".to_string(), &None, &table);
    assert_eq!(cache.get("T"), Some(&table.calculate(b"new")));
}

#[test]
pub fn a_change_that_keeps_the_checksum_goes_unnoticed() {
    let table = Crc32Table::default();
    assert_eq!(table.calculate(b"plumless"), 0x4ddb0c25);
    assert_eq!(table.calculate(b"buckeroo"), 0x4ddb0c25);
    let mut cache: StringMap<u32> = StringMap::new();
    record_copy(&mut cache, "T".to_string(), &Some(b"plumless".to_vec()), &table);
    assert!(is_up_to_date(&cache, "T", true, &Some(b"buckeroo".to_vec()), &table));
}

#[test]
pub fn plans_that_can_be_made_are_made() {
    assert_eq!(
        get_source_and_target("\"a\" \"b\"".to_string(), ":cp"),
        FsOp { source: "a".to_string(), target: "b".to_string() }
    );
    assert_eq!(canonicalize_any(&path("/a/../b/.")), path("/b"));
    assert_eq!(
        create_recursive_dir_copy_ops(&path("/s"), &path("/t"), &vec![path("/s/x")]),
        vec![op("/s/x", "/t/x")]
    );
    let entries = vec![entry("/s/d", EntryKind::Directory), entry("/s/d/x", EntryKind::File)];
    assert_eq!(
        copy_dir(&op("/s", "/t"), &entries),
        vec![CopyStep::CreateDirectory(path("/t/d")), CopyStep::Copy(op("/s/d/x", "/t/d/x"))]
    );
    assert_eq!(
        cached_copy_dir(&op("/s", "/t"), &entries),
        vec![CopyStep::CreateDirectory(path("/t/d")), CopyStep::CachedCopy(op("/s/d/x", "/t/d/x"))]
    );
}
