use localhost_build::fs::{
    CanonicalFsOp, CopyStep, DirectoryEntry, EntryKind, FsError, FsOp, PathPart,
};
use localhost_build::fs_utils::{
    cached_copy_dir, copy_dir, get_source_and_target, try_cached_copy_dir, try_copy_dir,
    try_get_source_and_target,
};

fn path(names: &[&str]) -> Vec<PathPart> {
    let mut parts = vec![PathPart::Root];
    for name in names {
        parts.push(PathPart::Normal(name.to_string()));
    }
    parts
}

#[test]
pub fn source_and_target_under_the_short_name() {
    assert_eq!(
        try_get_source_and_target("\"a\" \"b\"".to_string(), ":cp"),
        Ok(FsOp { source: "a".to_string(), target: "b".to_string() })
    );
    assert_eq!(try_get_source_and_target(String::new(), ":cp"), Err(FsError::MissingSource));
}

#[test]
pub fn every_source_directory_is_made_below_the_target() {
    let roots = CanonicalFsOp { source: path(&["s"]), target: path(&["t"]) };
    let entries = vec![
        DirectoryEntry { path: path(&["s", "d"]), kind: EntryKind::Directory },
        DirectoryEntry { path: path(&["s", "d", "x"]), kind: EntryKind::File },
        DirectoryEntry { path: path(&["s", "link"]), kind: EntryKind::Other },
    ];
    let file = || CanonicalFsOp { source: path(&["s", "d", "x"]), target: path(&["t", "d", "x"]) };
    assert_eq!(
        try_copy_dir(&roots, &entries),
        Ok(vec![
            CopyStep::CreateDirectory(path(&["t", "d"])),
            CopyStep::Copy(file()),
            CopyStep::Warn(path(&["s", "link"])),
        ])
    );
    assert_eq!(
        try_cached_copy_dir(&roots, &entries),
        Ok(vec![
            CopyStep::CreateDirectory(path(&["t", "d"])),
            CopyStep::CachedCopy(file()),
            CopyStep::Warn(path(&["s", "link"])),
        ])
    );
    assert_eq!(
        try_copy_dir(&roots, &entries[..1].iter().map(|e| DirectoryEntry { path: e.path.clone(), kind: e.kind }).collect()),
        Ok(vec![CopyStep::CreateDirectory(path(&["t", "d"]))])
    );
}

#[test]
pub fn short_names_for_what_can_be_done() {
    assert_eq!(
        get_source_and_target("\"a\" \"b\"".to_string(), ":cp"),
        FsOp { source: "a".to_string(), target: "b".to_string() }
    );
    let roots = CanonicalFsOp { source: path(&["s"]), target: path(&["t"]) };
    let entries = vec![DirectoryEntry { path: path(&["s", "d"]), kind: EntryKind::Directory }];
    assert_eq!(copy_dir(&roots, &entries), vec![CopyStep::CreateDirectory(path(&["t", "d"]))]);
    assert_eq!(
        cached_copy_dir(&roots, &entries),
        vec![CopyStep::CreateDirectory(path(&["t", "d"]))]
    );
}
