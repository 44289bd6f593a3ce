//! The rules of copying: which paths a directory copy maps to which, which
//! directories it has to make, and when the cache lets a copy be skipped.
//!
//! Nothing here touches a file. The host reads and writes; the functions here
//! tell it what to do and take note of what it did.
use crate::crc32::{checksum, Crc32Table};
use crate::str::{get_strings, quoted_pieces};
use crate::string_map::StringMap;
use crate::text::{same_text, string_views};
use vstd::prelude::*;

verus! {

/// A file operation as the script names it: from where, and to where.
#[derive(Debug, PartialEq, Eq)]
pub struct FsOp {
    pub source: String,
    pub target: String,
}

/// Why a file operation cannot be planned.
#[derive(Debug, Clone, Copy, PartialEq, Eq)]
pub enum FsError {
    /// The command names no source.
    MissingSource,
    /// The command names no target.
    MissingTarget,
    /// A path has its root behind other parts.
    MisplacedRoot,
    /// An entry of the directory does not lie under the directory.
    OutsideSource,
    /// A file's target has no directory above it.
    NoParent,
    /// The source of a file command is a directory.
    IsDirectory,
    /// The source of a directory command is no directory.
    NotDirectory,
}

/// What the source of a file command has to be.
#[derive(Debug, Clone, Copy, PartialEq, Eq)]
pub enum SourceKind {
    /// Anything but a directory.
    File,
    /// A directory.
    Directory,
}

/// Whether a source that is, or is not, a directory will do for a command.
/// A source of which nothing is known will do for every command: the
/// operation itself then tells.
pub open spec fn source_checked(wanted: SourceKind, is_directory: Option<bool>) -> Result<
    (),
    FsError,
> {
    match (wanted, is_directory) {
        (SourceKind::File, Some(true)) => Err(FsError::IsDirectory),
        (SourceKind::Directory, Some(false)) => Err(FsError::NotDirectory),
        _ => Ok(()),
    }
}

/// Whether the source will do for a command that wants a file, or a
/// directory. `is_directory` is what the host found out about the source, if
/// it could find out anything.
pub fn check_source(wanted: SourceKind, is_directory: Option<bool>) -> (result: Result<
    (),
    FsError,
>)
    ensures
        result == source_checked(wanted, is_directory),
{
    match (wanted, is_directory) {
        (SourceKind::File, Some(true)) => Err(FsError::IsDirectory),
        (SourceKind::Directory, Some(false)) => Err(FsError::NotDirectory),
        _ => Ok(()),
    }
}

/// The source and the target that a command's input names: its first two
/// quoted strings.
pub open spec fn source_and_target(input: Seq<char>) -> Result<(Seq<char>, Seq<char>), FsError> {
    let parts = quoted_pieces(input);
    if parts.len() == 0 {
        Err(FsError::MissingSource)
    } else if parts.len() == 1 {
        Err(FsError::MissingTarget)
    } else {
        Ok((parts[0], parts[1]))
    }
}

/// The source and the target that a command's input names. `op` is the
/// command, for the one who reports a failure.
pub fn try_get_source_and_target(input: String, op: &str) -> (result: Result<FsOp, FsError>)
    ensures
        match result {
            Ok(fs_op) => source_and_target(input@) == Ok::<(Seq<char>, Seq<char>), FsError>(
                (fs_op.source@, fs_op.target@),
            ),
            Err(e) => source_and_target(input@) == Err::<(Seq<char>, Seq<char>), FsError>(e),
        },
{
    let mut parts = get_strings(input);
    if parts.len() == 0 {
        return Err(FsError::MissingSource);
    }
    if parts.len() == 1 {
        return Err(FsError::MissingTarget);
    }
    assert(string_views(parts@)[0] == parts@[0]@);
    assert(string_views(parts@)[1] == parts@[1]@);
    let target = parts.swap_remove(1);
    let source = parts.swap_remove(0);
    Ok(FsOp { source, target })
}

/// One part of a path.
#[derive(Debug, Clone, PartialEq, Eq)]
pub enum PathPart {
    /// What a path may begin with before its root, such as a drive.
    Prefix(String),
    /// The root.
    Root,
    /// `.`
    Current,
    /// `..`
    Parent,
    /// A name.
    Normal(String),
}

/// A part of a path as contracts speak of it.
pub ghost enum PartModel {
    Prefix(Seq<char>),
    Root,
    Current,
    Parent,
    Normal(Seq<char>),
}

impl View for PathPart {
    type V = PartModel;

    open spec fn view(&self) -> PartModel {
        match self {
            PathPart::Prefix(s) => PartModel::Prefix(s@),
            PathPart::Root => PartModel::Root,
            PathPart::Current => PartModel::Current,
            PathPart::Parent => PartModel::Parent,
            PathPart::Normal(s) => PartModel::Normal(s@),
        }
    }
}

/// The models of the parts of a path.
pub open spec fn path_model(parts: Seq<PathPart>) -> Seq<PartModel> {
    Seq::new(parts.len(), |i: int| parts[i]@)
}

/// A file operation between two paths without `.` and `..`.
#[derive(Debug, PartialEq, Eq)]
pub struct CanonicalFsOp {
    pub source: Vec<PathPart>,
    pub target: Vec<PathPart>,
}

/// The path without its `.` and `..`: a `.` is dropped, a `..` takes away the
/// name before it if there is one, and the root may only stand first.
pub open spec fn normalized(parts: Seq<PartModel>) -> Result<Seq<PartModel>, FsError>
    decreases parts.len(),
{
    if parts.len() == 0 {
        Ok(parts)
    } else {
        match normalized(parts.drop_last()) {
            Err(e) => Err(e),
            Ok(done) => match parts.last() {
                PartModel::Current => Ok(done),
                PartModel::Parent => if done.len() > 0 && done.last() is Normal {
                    Ok(done.drop_last())
                } else {
                    Ok(done)
                },
                PartModel::Root => if parts.len() == 1 {
                    Ok(parts)
                } else {
                    Err(FsError::MisplacedRoot)
                },
                part => Ok(done.push(part)),
            },
        }
    }
}

/// Neither `.` nor `..` is among the parts.
pub open spec fn plain(parts: Seq<PartModel>) -> bool {
    forall|i: int| 0 <= i < parts.len() ==> !(parts[i] is Current) && !(parts[i] is Parent)
}

/// The path holds neither `.` nor `..`, and a root only as its first part:
/// nothing is left to take out of it.
pub open spec fn canonical(parts: Seq<PartModel>) -> bool {
    &&& plain(parts)
    &&& forall|i: int| 0 < i < parts.len() ==> !(parts[i] is Root)
}

/// A normalized path is canonical, and no path fails to be normalized but
/// for a root that is out of place.
pub proof fn lemma_normalized_plain(parts: Seq<PartModel>)
    ensures
        normalized(parts) matches Ok(done) ==> canonical(done),
        normalized(parts) matches Err(e) ==> e == FsError::MisplacedRoot,
    decreases parts.len(),
{
    if parts.len() > 0 {
        lemma_normalized_plain(parts.drop_last());
    }
}

/// Normalizing a canonical path changes nothing.
pub proof fn lemma_canonical_stays(parts: Seq<PartModel>)
    requires
        canonical(parts),
    ensures
        normalized(parts) == Ok::<Seq<PartModel>, FsError>(parts),
    decreases parts.len(),
{
    if parts.len() > 0 {
        let front = parts.drop_last();
        assert(canonical(front)) by {
            assert forall|i: int| 0 <= i < front.len() implies !(front[i] is Current) && !(
            front[i] is Parent) by {
                assert(front[i] == parts[i]);
            }
            assert forall|i: int| 0 < i < front.len() implies !(front[i] is Root) by {
                assert(front[i] == parts[i]);
            }
        }
        lemma_canonical_stays(front);
        assert(parts.last() == parts[parts.len() - 1]);
        assert(front.push(parts.last()) =~= parts);
    }
}

/// A copy of a path part.
pub fn clone_part(part: &PathPart) -> (copy: PathPart)
    ensures
        copy@ == part@,
{
    match part {
        PathPart::Prefix(s) => PathPart::Prefix(s.clone()),
        PathPart::Root => PathPart::Root,
        PathPart::Current => PathPart::Current,
        PathPart::Parent => PathPart::Parent,
        PathPart::Normal(s) => PathPart::Normal(s.clone()),
    }
}

/// A copy of the parts `path[from..to]`.
pub(crate) fn clone_parts(path: &Vec<PathPart>, from: usize, to: usize) -> (copy: Vec<PathPart>)
    requires
        from <= to <= path.len(),
    ensures
        path_model(copy@) == path_model(path@).subrange(from as int, to as int),
{
    let mut copy: Vec<PathPart> = Vec::new();
    let mut i = from;
    while i < to
        invariant
            from <= i <= to <= path.len(),
            copy.len() == i - from,
            forall|k: int| 0 <= k < i - from ==> (#[trigger] copy@[k])@ == path@[from + k]@,
        decreases to - i,
    {
        copy.push(clone_part(&path[i]));
        i += 1;
    }
    assert(path_model(copy@) =~= path_model(path@).subrange(from as int, to as int));
    copy
}

/// The path without its `.` and `..`. Unlike the file system's own
/// canonical form, this needs no file to exist.
pub fn try_canonicalize_any(path: &Vec<PathPart>) -> (result: Result<Vec<PathPart>, FsError>)
    ensures
        match result {
            Ok(done) => normalized(path_model(path@)) == Ok::<Seq<PartModel>, FsError>(
                path_model(done@),
            ),
            Err(e) => normalized(path_model(path@)) == Err::<Seq<PartModel>, FsError>(e),
        },
{
    let mut done: Vec<PathPart> = Vec::new();
    let mut i: usize = 0;
    let ghost parts = path_model(path@);
    assert(path_model(done@) =~= parts.take(0));
    while i < path.len()
        invariant
            i <= path.len(),
            parts == path_model(path@),
            normalized(parts.take(i as int)) == Ok::<Seq<PartModel>, FsError>(path_model(done@)),
        decreases path.len() - i,
    {
        proof {
            assert(parts.take(i + 1).drop_last() == parts.take(i as int));
            assert(parts.take(i + 1).last() == path@[i as int]@);
            lemma_normalized_fails(parts, i + 1);
        }
        let ghost before = done@;
        match &path[i] {
            PathPart::Current => {},
            PathPart::Parent => {
                let n = done.len();
                if n > 0 {
                    assert(path_model(done@).last() == done@[n - 1]@);
                    if let PathPart::Normal(_) = &done[n - 1] {
                        done.pop();
                        assert(path_model(done@) =~= path_model(before).drop_last());
                    }
                }
            },
            PathPart::Root => {
                if i != 0 {
                    return Err(FsError::MisplacedRoot);
                }
                done.push(PathPart::Root);
                assert(path_model(done@) =~= parts.take(1));
            },
            part => {
                done.push(clone_part(part));
                assert(path_model(done@) =~= path_model(before).push(path@[i as int]@));
            },
        }
        i += 1;
    }
    assert(parts.take(path.len() as int) == parts);
    Ok(done)
}

/// Where the first parts cannot be normalized, neither can the path.
pub proof fn lemma_normalized_fails(parts: Seq<PartModel>, k: int)
    requires
        0 <= k <= parts.len(),
    ensures
        normalized(parts.take(k)) is Err ==> normalized(parts) == normalized(parts.take(k)),
    decreases parts.len() - k,
{
    if k < parts.len() {
        assert(parts.take(k + 1).drop_last() == parts.take(k));
        lemma_normalized_fails(parts, k + 1);
    } else {
        assert(parts.take(k) == parts);
    }
}

/// Trusted: `std::path::Path::components` splits a path into its parts as the
/// platform reads paths. Nothing is claimed of the parts: what they are
/// depends on the platform.
#[verifier::external_body]
fn path_parts(path: &str) -> (parts: Vec<PathPart>) {
    std::path::Path::new(path).components().map(
        |c| match c {
            std::path::Component::Prefix(p) => PathPart::Prefix(
                p.as_os_str().to_string_lossy().into_owned(),
            ),
            std::path::Component::RootDir => PathPart::Root,
            std::path::Component::CurDir => PathPart::Current,
            std::path::Component::ParentDir => PathPart::Parent,
            std::path::Component::Normal(s) => PathPart::Normal(s.to_string_lossy().into_owned()),
        },
    ).collect()
}

impl FsOp {
    /// The operation between the two paths without their `.` and `..`, as far
    /// as the platform's reading of the two paths allows one.
    pub fn canonicalize(&self) -> (result: Result<CanonicalFsOp, FsError>)
        ensures
            result matches Ok(op) ==> canonical(path_model(op.source@)) && canonical(
                path_model(op.target@),
            ),
            result matches Err(e) ==> e == FsError::MisplacedRoot,
    {
        let source_parts = path_parts(self.source.as_str());
        let target_parts = path_parts(self.target.as_str());
        proof {
            lemma_normalized_plain(path_model(source_parts@));
            lemma_normalized_plain(path_model(target_parts@));
        }
        canonicalize_parts(&source_parts, &target_parts)
    }
}

/// The two paths of an operation without their `.` and `..`. Where both
/// paths have a root out of place, the source's is the one that is told.
pub open spec fn normalized_pair(source: Seq<PartModel>, target: Seq<PartModel>) -> Result<
    (Seq<PartModel>, Seq<PartModel>),
    FsError,
> {
    match normalized(source) {
        Err(e) => Err(e),
        Ok(from) => match normalized(target) {
            Err(e) => Err(e),
            Ok(to) => Ok((from, to)),
        },
    }
}

/// The operation between two paths, given by their parts, without their `.`
/// and `..`. This is what `FsOp::canonicalize` makes of the parts that the
/// platform reads its two paths as.
pub fn canonicalize_parts(source: &Vec<PathPart>, target: &Vec<PathPart>) -> (result: Result<
    CanonicalFsOp,
    FsError,
>)
    ensures
        match result {
            Ok(op) => normalized_pair(path_model(source@), path_model(target@)) == Ok::<
                (Seq<PartModel>, Seq<PartModel>),
                FsError,
            >((path_model(op.source@), path_model(op.target@))),
            Err(e) => normalized_pair(path_model(source@), path_model(target@)) == Err::<
                (Seq<PartModel>, Seq<PartModel>),
                FsError,
            >(e),
        },
{
    let from = match try_canonicalize_any(source) {
        Ok(from) => from,
        Err(e) => {
            return Err(e);
        },
    };
    let to = match try_canonicalize_any(target) {
        Ok(to) => to,
        Err(e) => {
            return Err(e);
        },
    };
    Ok(CanonicalFsOp { source: from, target: to })
}

/// Whether two parts are the same.
pub fn same_part(a: &PathPart, b: &PathPart) -> (same: bool)
    ensures
        same == (a@ == b@),
{
    match (a, b) {
        (PathPart::Prefix(x), PathPart::Prefix(y)) => same_text(x.as_str(), y.as_str()),
        (PathPart::Root, PathPart::Root) => true,
        (PathPart::Current, PathPart::Current) => true,
        (PathPart::Parent, PathPart::Parent) => true,
        (PathPart::Normal(x), PathPart::Normal(y)) => same_text(x.as_str(), y.as_str()),
        _ => false,
    }
}

/// Whether two paths have the same parts.
pub fn same_path(a: &Vec<PathPart>, b: &Vec<PathPart>) -> (same: bool)
    ensures
        same == (path_model(a@) == path_model(b@)),
{
    if a.len() != b.len() {
        assert(path_model(a@).len() != path_model(b@).len());
        return false;
    }
    let mut i: usize = 0;
    while i < a.len()
        invariant
            i <= a.len(),
            a.len() == b.len(),
            forall|k: int| 0 <= k < i ==> a@[k]@ == b@[k]@,
        decreases a.len() - i,
    {
        if !same_part(&a[i], &b[i]) {
            assert(path_model(a@)[i as int] != path_model(b@)[i as int]);
            return false;
        }
        i += 1;
    }
    assert(path_model(a@) =~= path_model(b@));
    true
}

/// What is left of `path` below `root`, where `path` lies under `root`.
pub open spec fn below(path: Seq<PartModel>, root: Seq<PartModel>) -> Result<
    Seq<PartModel>,
    FsError,
> {
    if root.is_prefix_of(path) {
        Ok(path.skip(root.len() as int))
    } else {
        Err(FsError::OutsideSource)
    }
}

/// What is left of `path` below `root`.
pub fn strip_root(path: &Vec<PathPart>, root: &Vec<PathPart>) -> (result: Result<
    Vec<PathPart>,
    FsError,
>)
    ensures
        match result {
            Ok(rest) => below(path_model(path@), path_model(root@)) == Ok::<
                Seq<PartModel>,
                FsError,
            >(path_model(rest@)),
            Err(e) => below(path_model(path@), path_model(root@)) == Err::<
                Seq<PartModel>,
                FsError,
            >(e),
        },
{
    if root.len() > path.len() {
        return Err(FsError::OutsideSource);
    }
    let mut i: usize = 0;
    while i < root.len()
        invariant
            i <= root.len() <= path.len(),
            forall|k: int| 0 <= k < i ==> path@[k]@ == root@[k]@,
        decreases root.len() - i,
    {
        if !same_part(&path[i], &root[i]) {
            assert(path_model(path@)[i as int] != path_model(root@)[i as int]);
            return Err(FsError::OutsideSource);
        }
        i += 1;
    }
    assert(path_model(root@) =~= path_model(path@).subrange(0, root.len() as int));
    Ok(clone_parts(path, root.len(), path.len()))
}

/// The path `relative` as seen from `base`: behind `base`, unless it begins
/// with a root or a prefix and so stands for itself.
pub open spec fn joined(base: Seq<PartModel>, relative: Seq<PartModel>) -> Seq<PartModel> {
    if relative.len() > 0 && (relative[0] is Root || relative[0] is Prefix) {
        relative
    } else {
        base + relative
    }
}

/// The path `relative` as seen from `base`.
pub fn join_path(base: &Vec<PathPart>, relative: &Vec<PathPart>) -> (path: Vec<PathPart>)
    ensures
        path_model(path@) == joined(path_model(base@), path_model(relative@)),
{
    let stands_alone = relative.len() > 0 && match &relative[0] {
        PathPart::Root => true,
        PathPart::Prefix(_) => true,
        _ => false,
    };
    if relative.len() > 0 {
        assert(path_model(relative@)[0] == relative@[0]@);
    }
    let mut path = if stands_alone {
        Vec::new()
    } else {
        clone_parts(base, 0, base.len())
    };
    let ghost start = path_model(path@);
    let mut i: usize = 0;
    while i < relative.len()
        invariant
            i <= relative.len(),
            path_model(path@) == start + path_model(relative@).take(i as int),
        decreases relative.len() - i,
    {
        let ghost before = path@;
        path.push(clone_part(&relative[i]));
        i += 1;
        assert(path_model(path@) =~= path_model(before).push(relative@[i - 1]@));
        assert(path_model(relative@).take(i as int) =~= path_model(relative@).take(i - 1).push(
            relative@[i - 1]@,
        ));
        assert(path_model(path@) =~= start + path_model(relative@).take(i as int));
    }
    assert(path_model(relative@).take(relative.len() as int) == path_model(relative@));
    assert(path_model(base@).subrange(0, base.len() as int) == path_model(base@));
    assert(start + path_model(relative@) =~= joined(path_model(base@), path_model(relative@)));
    path
}

/// Where an entry of the source directory goes: the entry without its `.`
/// and `..`, and the same place below the target.
pub open spec fn mapped(
    source_root: Seq<PartModel>,
    target_root: Seq<PartModel>,
    entry: Seq<PartModel>,
) -> Result<(Seq<PartModel>, Seq<PartModel>), FsError> {
    match normalized(entry) {
        Err(e) => Err(e),
        Ok(source) => match below(source, source_root) {
            Err(e) => Err(e),
            Ok(relative) => match normalized(joined(target_root, relative)) {
                Err(e) => Err(e),
                Ok(target) => Ok((source, target)),
            },
        },
    }
}

/// Where the entries of the source directory go, entry by entry; fails as
/// the first entry that fails.
pub open spec fn mapped_all(
    source_root: Seq<PartModel>,
    target_root: Seq<PartModel>,
    entries: Seq<Seq<PartModel>>,
) -> Result<Seq<(Seq<PartModel>, Seq<PartModel>)>, FsError>
    decreases entries.len(),
{
    if entries.len() == 0 {
        Ok(Seq::empty())
    } else {
        match mapped_all(source_root, target_root, entries.drop_last()) {
            Err(e) => Err(e),
            Ok(done) => match mapped(source_root, target_root, entries.last()) {
                Err(e) => Err(e),
                Ok(op) => Ok(done.push(op)),
            },
        }
    }
}

/// The models of a list of paths.
pub open spec fn path_models(paths: Seq<Vec<PathPart>>) -> Seq<Seq<PartModel>> {
    Seq::new(paths.len(), |i: int| path_model(paths[i]@))
}

/// The models of a list of operations.
pub open spec fn op_models(ops: Seq<CanonicalFsOp>) -> Seq<(Seq<PartModel>, Seq<PartModel>)> {
    Seq::new(ops.len(), |i: int| (path_model(ops[i].source@), path_model(ops[i].target@)))
}

/// Where the first entries fail, all the entries fail the same way.
pub proof fn lemma_mapped_fails(
    source_root: Seq<PartModel>,
    target_root: Seq<PartModel>,
    entries: Seq<Seq<PartModel>>,
    k: int,
)
    requires
        0 <= k <= entries.len(),
    ensures
        mapped_all(source_root, target_root, entries.take(k)) is Err ==> mapped_all(
            source_root,
            target_root,
            entries,
        ) == mapped_all(source_root, target_root, entries.take(k)),
    decreases entries.len() - k,
{
    if k < entries.len() {
        assert(entries.take(k + 1).drop_last() == entries.take(k));
        lemma_mapped_fails(source_root, target_root, entries, k + 1);
    } else {
        assert(entries.take(k) == entries);
    }
}

/// The copy operations for the entries of a directory: each entry of the
/// source directory, found by walking it, with the path below the target
/// directory that it is copied to.
pub fn try_create_recursive_dir_copy_ops(
    source_root: &Vec<PathPart>,
    target_root: &Vec<PathPart>,
    entries: &Vec<Vec<PathPart>>,
) -> (result: Result<Vec<CanonicalFsOp>, FsError>)
    ensures
        match result {
            Ok(ops) => mapped_all(
                path_model(source_root@),
                path_model(target_root@),
                path_models(entries@),
            ) == Ok::<Seq<(Seq<PartModel>, Seq<PartModel>)>, FsError>(op_models(ops@)),
            Err(e) => mapped_all(
                path_model(source_root@),
                path_model(target_root@),
                path_models(entries@),
            ) == Err::<Seq<(Seq<PartModel>, Seq<PartModel>)>, FsError>(e),
        },
{
    let mut ops: Vec<CanonicalFsOp> = Vec::new();
    let mut i: usize = 0;
    let ghost all = path_models(entries@);
    assert(op_models(ops@) =~= Seq::<(Seq<PartModel>, Seq<PartModel>)>::empty());
    while i < entries.len()
        invariant
            i <= entries.len(),
            all == path_models(entries@),
            mapped_all(path_model(source_root@), path_model(target_root@), all.take(i as int))
                == Ok::<Seq<(Seq<PartModel>, Seq<PartModel>)>, FsError>(op_models(ops@)),
        decreases entries.len() - i,
    {
        proof {
            assert(all.take(i + 1).drop_last() == all.take(i as int));
            assert(all.take(i + 1).last() == path_model(entries@[i as int]@));
            lemma_mapped_fails(path_model(source_root@), path_model(target_root@), all, i + 1);
        }
        let source = match try_canonicalize_any(&entries[i]) {
            Ok(source) => source,
            Err(e) => {
                return Err(e);
            },
        };
        let relative = match strip_root(&source, source_root) {
            Ok(relative) => relative,
            Err(e) => {
                return Err(e);
            },
        };
        let target = match try_canonicalize_any(&join_path(target_root, &relative)) {
            Ok(target) => target,
            Err(e) => {
                return Err(e);
            },
        };
        let ghost before = ops@;
        ops.push(CanonicalFsOp { source, target });
        assert(op_models(ops@) =~= op_models(before).push(
            (path_model(source@), path_model(target@)),
        ));
        i += 1;
    }
    assert(all.take(entries.len() as int) == all);
    Ok(ops)
}

/// What an entry of a directory is.
#[derive(Debug, Clone, Copy, PartialEq, Eq)]
pub enum EntryKind {
    Directory,
    File,
    /// Neither a directory nor a file, such as a link.
    Other,
}

/// An entry found by walking a directory: its path, and what it is.
#[derive(Debug, PartialEq, Eq)]
pub struct DirectoryEntry {
    pub path: Vec<PathPart>,
    pub kind: EntryKind,
}

/// One step of a directory copy, for the host to take.
#[derive(Debug, PartialEq, Eq)]
pub enum CopyStep {
    /// Make this directory, and those above it, unless it exists.
    CreateDirectory(Vec<PathPart>),
    /// Copy the file.
    Copy(CanonicalFsOp),
    /// Copy the file unless the cache shows the target up to date.
    CachedCopy(CanonicalFsOp),
    /// Warn that this entry, neither file nor directory, is not copied.
    Warn(Vec<PathPart>),
}

/// A step of a directory copy as contracts speak of it.
pub ghost enum StepModel {
    CreateDirectory(Seq<PartModel>),
    Copy(Seq<PartModel>, Seq<PartModel>),
    CachedCopy(Seq<PartModel>, Seq<PartModel>),
    Warn(Seq<PartModel>),
}

impl View for CopyStep {
    type V = StepModel;

    open spec fn view(&self) -> StepModel {
        match self {
            CopyStep::CreateDirectory(path) => StepModel::CreateDirectory(path_model(path@)),
            CopyStep::Copy(op) => StepModel::Copy(path_model(op.source@), path_model(op.target@)),
            CopyStep::CachedCopy(op) => StepModel::CachedCopy(
                path_model(op.source@),
                path_model(op.target@),
            ),
            CopyStep::Warn(path) => StepModel::Warn(path_model(path@)),
        }
    }
}

/// The models of a list of steps.
pub open spec fn step_models(steps: Seq<CopyStep>) -> Seq<StepModel> {
    Seq::new(steps.len(), |i: int| steps[i]@)
}

/// The directory that a path lies in, if the path ends in a name.
pub open spec fn parent_of(path: Seq<PartModel>) -> Option<Seq<PartModel>> {
    if path.len() > 0 && path.last() is Normal {
        Some(path.drop_last())
    } else {
        None
    }
}

/// The copy of one file, cached or not.
pub open spec fn copy_step(source: Seq<PartModel>, target: Seq<PartModel>, cached: bool)
    -> StepModel {
    if cached {
        StepModel::CachedCopy(source, target)
    } else {
        StepModel::Copy(source, target)
    }
}

/// The steps that copy the given entries, and the directories that the steps
/// have made by then. A directory is made where it is met, and before the
/// first file that goes into it, and never twice. What is neither file nor
/// directory gets a warning.
pub open spec fn planned(
    ops: Seq<(Seq<PartModel>, Seq<PartModel>)>,
    kinds: Seq<EntryKind>,
    cached: bool,
) -> Result<(Seq<StepModel>, Seq<Seq<PartModel>>), FsError>
    decreases ops.len(),
{
    if ops.len() == 0 {
        Ok((Seq::empty(), Seq::empty()))
    } else {
        match planned(ops.drop_last(), kinds.drop_last(), cached) {
            Err(e) => Err(e),
            Ok((steps, made)) => {
                let (source, target) = ops.last();
                match kinds.last() {
                    EntryKind::Directory => if made.contains(target) {
                        Ok((steps, made))
                    } else {
                        Ok((steps.push(StepModel::CreateDirectory(target)), made.push(target)))
                    },
                    EntryKind::File => match parent_of(target) {
                        None => Err(FsError::NoParent),
                        Some(directory) => if made.contains(directory) {
                            Ok((steps.push(copy_step(source, target, cached)), made))
                        } else {
                            Ok(
                                (
                                    steps.push(StepModel::CreateDirectory(directory)).push(
                                        copy_step(source, target, cached),
                                    ),
                                    made.push(directory),
                                ),
                            )
                        },
                    },
                    EntryKind::Other => Ok((steps.push(StepModel::Warn(source)), made)),
                }
            },
        }
    }
}

/// Where the first entries cannot be planned, neither can all of them.
pub proof fn lemma_planned_fails(
    ops: Seq<(Seq<PartModel>, Seq<PartModel>)>,
    kinds: Seq<EntryKind>,
    cached: bool,
    k: int,
)
    requires
        0 <= k <= ops.len(),
        ops.len() == kinds.len(),
    ensures
        planned(ops.take(k), kinds.take(k), cached) is Err ==> planned(ops, kinds, cached)
            == planned(ops.take(k), kinds.take(k), cached),
    decreases ops.len() - k,
{
    if k < ops.len() {
        assert(ops.take(k + 1).drop_last() == ops.take(k));
        assert(kinds.take(k + 1).drop_last() == kinds.take(k));
        lemma_planned_fails(ops, kinds, cached, k + 1);
    } else {
        assert(ops.take(k) == ops);
        assert(kinds.take(k) == kinds);
    }
}

/// Whether `path` is among `paths`.
fn has_path(paths: &Vec<Vec<PathPart>>, path: &Vec<PathPart>) -> (found: bool)
    ensures
        found == path_models(paths@).contains(path_model(path@)),
{
    let mut i: usize = 0;
    while i < paths.len()
        invariant
            i <= paths.len(),
            forall|k: int| 0 <= k < i ==> path_models(paths@)[k] != path_model(path@),
        decreases paths.len() - i,
    {
        if same_path(&paths[i], path) {
            assert(path_models(paths@)[i as int] == path_model(path@));
            return true;
        }
        i += 1;
    }
    false
}

/// The steps that copy the given entries: the operations, one for each
/// entry, with what each entry's source is.
#[verifier::loop_isolation(false)]
fn copy_dir_inner(
    paths: Vec<CanonicalFsOp>,
    kinds: &Vec<EntryKind>,
    cached: bool,
) -> (result: Result<Vec<CopyStep>, FsError>)
    requires
        paths.len() == kinds.len(),
    ensures
        match result {
            Ok(steps) => planned(op_models(paths@), kinds@, cached) matches Ok((plan, _))
                && plan == step_models(steps@),
            Err(e) => planned(op_models(paths@), kinds@, cached) == Err::<
                (Seq<StepModel>, Seq<Seq<PartModel>>),
                FsError,
            >(e),
        },
{
    let mut steps: Vec<CopyStep> = Vec::new();
    let mut made: Vec<Vec<PathPart>> = Vec::new();
    let ghost ops = op_models(paths@);
    let mut queue = paths;
    let mut i: usize = 0;
    let n = queue.len();
    assert(step_models(steps@) =~= Seq::<StepModel>::empty());
    assert(path_models(made@) =~= Seq::<Seq<PartModel>>::empty());
    assert(ops.take(0) =~= Seq::empty());
    while i < n
        invariant
            i <= n,
            n == kinds.len(),
            n == ops.len(),
            queue.len() == n - i,
            op_models(queue@) == ops.skip(i as int),
            planned(ops.take(i as int), kinds@.take(i as int), cached) == Ok::<
                (Seq<StepModel>, Seq<Seq<PartModel>>),
                FsError,
            >((step_models(steps@), path_models(made@))),
        decreases n - i,
    {
        proof {
            assert(ops.take(i + 1).drop_last() == ops.take(i as int));
            assert(kinds@.take(i + 1).drop_last() == kinds@.take(i as int));
            assert(ops.take(i + 1).last() == ops[i as int]);
            assert(op_models(queue@)[0] == ops.skip(i as int)[0]);
            lemma_planned_fails(ops, kinds@, cached, i + 1);
        }
        let ghost rest = queue@;
        let op = queue.remove(0);
        assert(op_models(queue@) =~= ops.skip(i + 1)) by {
            assert forall|k: int| 0 <= k < queue@.len() implies op_models(queue@)[k] == ops.skip(
                i + 1,
            )[k] by {
                assert(op_models(rest)[k + 1] == ops.skip(i as int)[k + 1]);
            }
        }
        let ghost steps_before = steps@;
        let ghost made_before = made@;
        match kinds[i] {
            EntryKind::Directory => {
                if !has_path(&made, &op.target) {
                    let directory = clone_parts(&op.target, 0, op.target.len());
                    assert(path_model(op.target@).subrange(0, op.target.len() as int)
                        == path_model(op.target@));
                    let made_now = clone_parts(&directory, 0, directory.len());
                    steps.push(CopyStep::CreateDirectory(made_now));
                    assert(path_model(directory@).subrange(0, directory.len() as int)
                        == path_model(directory@));
                    made.push(directory);
                    assert(step_models(steps@) =~= step_models(steps_before).push(
                        StepModel::CreateDirectory(path_model(op.target@)),
                    ));
                    assert(path_models(made@) =~= path_models(made_before).push(
                        path_model(op.target@),
                    ));
                }
            },
            EntryKind::File => {
                let len = op.target.len();
                if len == 0 {
                    return Err(FsError::NoParent);
                }
                assert(path_model(op.target@).last() == op.target@[len - 1]@);
                if let PathPart::Normal(_) = &op.target[len - 1] {
                } else {
                    return Err(FsError::NoParent);
                }
                let directory = clone_parts(&op.target, 0, len - 1);
                assert(path_model(directory@) == path_model(op.target@).drop_last());
                let ghost source = path_model(op.source@);
                let ghost target = path_model(op.target@);
                if !has_path(&made, &directory) {
                    let made_now = clone_parts(&directory, 0, directory.len());
                    steps.push(CopyStep::CreateDirectory(made_now));
                    assert(path_model(directory@).subrange(0, directory.len() as int)
                        == path_model(directory@));
                    made.push(directory);
                    assert(path_models(made@) =~= path_models(made_before).push(
                        target.drop_last(),
                    ));
                    if cached {
                        steps.push(CopyStep::CachedCopy(op));
                    } else {
                        steps.push(CopyStep::Copy(op));
                    }
                    assert(step_models(steps@) =~= step_models(steps_before).push(
                        StepModel::CreateDirectory(target.drop_last()),
                    ).push(copy_step(source, target, cached)));
                } else {
                    if cached {
                        steps.push(CopyStep::CachedCopy(op));
                    } else {
                        steps.push(CopyStep::Copy(op));
                    }
                    assert(step_models(steps@) =~= step_models(steps_before).push(
                        copy_step(source, target, cached),
                    ));
                }
            },
            EntryKind::Other => {
                let ghost source = path_model(op.source@);
                steps.push(CopyStep::Warn(op.source));
                assert(step_models(steps@) =~= step_models(steps_before).push(
                    StepModel::Warn(source),
                ));
            },
        }
        i += 1;
    }
    assert(ops.take(n as int) == ops);
    assert(kinds@.take(n as int) == kinds@);
    Ok(steps)
}

/// The paths of the entries.
pub open spec fn entry_paths(entries: Seq<DirectoryEntry>) -> Seq<Seq<PartModel>> {
    Seq::new(entries.len(), |i: int| path_model(entries[i].path@))
}

/// What the entries are.
pub open spec fn entry_kinds(entries: Seq<DirectoryEntry>) -> Seq<EntryKind> {
    Seq::new(entries.len(), |i: int| entries[i].kind)
}

/// The steps of a directory copy: every entry is mapped from below the
/// source to below the target, then the steps are planned.
pub open spec fn directory_copy(
    source_root: Seq<PartModel>,
    target_root: Seq<PartModel>,
    entries: Seq<DirectoryEntry>,
    cached: bool,
) -> Result<Seq<StepModel>, FsError> {
    match mapped_all(source_root, target_root, entry_paths(entries)) {
        Err(e) => Err(e),
        Ok(ops) => match planned(ops, entry_kinds(entries), cached) {
            Err(e) => Err(e),
            Ok((steps, _)) => Ok(steps),
        },
    }
}

/// The steps of a directory copy, cached or not.
fn plan_directory_copy(
    fs_op: &CanonicalFsOp,
    entries: &Vec<DirectoryEntry>,
    cached: bool,
) -> (result: Result<Vec<CopyStep>, FsError>)
    ensures
        match result {
            Ok(steps) => directory_copy(
                path_model(fs_op.source@),
                path_model(fs_op.target@),
                entries@,
                cached,
            ) == Ok::<Seq<StepModel>, FsError>(step_models(steps@)),
            Err(e) => directory_copy(
                path_model(fs_op.source@),
                path_model(fs_op.target@),
                entries@,
                cached,
            ) == Err::<Seq<StepModel>, FsError>(e),
        },
{
    let mut paths: Vec<Vec<PathPart>> = Vec::new();
    let mut kinds: Vec<EntryKind> = Vec::new();
    let mut i: usize = 0;
    while i < entries.len()
        invariant
            i <= entries.len(),
            paths.len() == i,
            kinds.len() == i,
            forall|k: int| 0 <= k < i ==> path_model((#[trigger] paths@[k])@) == path_model(
                entries@[k].path@,
            ),
            forall|k: int| 0 <= k < i ==> #[trigger] kinds@[k] == entries@[k].kind,
        decreases entries.len() - i,
    {
        let path = clone_parts(&entries[i].path, 0, entries[i].path.len());
        assert(path_model(entries@[i as int].path@).subrange(
            0,
            entries@[i as int].path.len() as int,
        ) == path_model(entries@[i as int].path@));
        paths.push(path);
        kinds.push(entries[i].kind);
        i += 1;
    }
    assert(path_models(paths@) =~= entry_paths(entries@));
    assert(kinds@ =~= entry_kinds(entries@));
    let ops = match try_create_recursive_dir_copy_ops(&fs_op.source, &fs_op.target, &paths) {
        Ok(ops) => ops,
        Err(e) => {
            return Err(e);
        },
    };
    proof {
        lemma_mapped_length(
            path_model(fs_op.source@),
            path_model(fs_op.target@),
            path_models(paths@),
        );
    }
    copy_dir_inner(ops, &kinds, cached)
}

/// There is one operation for each entry.
pub proof fn lemma_mapped_length(
    source_root: Seq<PartModel>,
    target_root: Seq<PartModel>,
    entries: Seq<Seq<PartModel>>,
)
    ensures
        mapped_all(source_root, target_root, entries) matches Ok(ops) ==> ops.len()
            == entries.len(),
    decreases entries.len(),
{
    if entries.len() > 0 {
        lemma_mapped_length(source_root, target_root, entries.drop_last());
    }
}

/// The steps that copy a directory: `fs_op` names the directory and where it
/// goes, `entries` is what walking the directory found.
pub fn try_copy_dir(fs_op: &CanonicalFsOp, entries: &Vec<DirectoryEntry>) -> (result: Result<
    Vec<CopyStep>,
    FsError,
>)
    ensures
        match result {
            Ok(steps) => directory_copy(
                path_model(fs_op.source@),
                path_model(fs_op.target@),
                entries@,
                false,
            ) == Ok::<Seq<StepModel>, FsError>(step_models(steps@)),
            Err(e) => directory_copy(
                path_model(fs_op.source@),
                path_model(fs_op.target@),
                entries@,
                false,
            ) == Err::<Seq<StepModel>, FsError>(e),
        },
{
    plan_directory_copy(fs_op, entries, false)
}

/// The steps that copy what has changed of a directory: as `copy_dir`, but
/// every file is copied only if the cache does not show its target up to
/// date.
pub fn try_cached_copy_dir(fs_op: &CanonicalFsOp, entries: &Vec<DirectoryEntry>) -> (result: Result<
    Vec<CopyStep>,
    FsError,
>)
    ensures
        match result {
            Ok(steps) => directory_copy(
                path_model(fs_op.source@),
                path_model(fs_op.target@),
                entries@,
                true,
            ) == Ok::<Seq<StepModel>, FsError>(step_models(steps@)),
            Err(e) => directory_copy(
                path_model(fs_op.source@),
                path_model(fs_op.target@),
                entries@,
                true,
            ) == Err::<Seq<StepModel>, FsError>(e),
        },
{
    plan_directory_copy(fs_op, entries, true)
}

/// What was read of a file, if it could be read.
pub open spec fn bytes_read(content: Option<Vec<u8>>) -> Option<Seq<u8>> {
    match content {
        Some(bytes) => Some(bytes@),
        None => None,
    }
}

/// Whether the cache shows the target up to date: the target has a recorded
/// checksum, the target exists, and the source can be read and has that
/// checksum.
pub open spec fn up_to_date(
    cache: Map<Seq<char>, u32>,
    target: Seq<char>,
    target_exists: bool,
    source: Option<Seq<u8>>,
) -> bool {
    &&& cache.contains_key(target)
    &&& target_exists
    &&& source matches Some(bytes)
    &&& checksum(bytes) == cache[target]
}

/// Whether the source has to be read to tell whether a cached copy may be
/// skipped: only where the target has a recorded checksum and exists.
pub fn needs_source(cache: &StringMap<u32>, target: &str, target_exists: bool) -> (needed: bool)
    ensures
        needed == (cache@.contains_key(target@) && target_exists),
        !needed ==> forall|source: Option<Seq<u8>>|
            !(#[trigger] up_to_date(cache@, target@, target_exists, source)),
{
    target_exists && cache.contains_key(target)
}

/// Whether a cached copy may be skipped. `target_exists` says whether the
/// target is there, `source` is what the source holds if it could be read.
pub fn is_up_to_date(
    cache: &StringMap<u32>,
    target: &str,
    target_exists: bool,
    source: &Option<Vec<u8>>,
    crc_table: &Crc32Table,
) -> (skip: bool)
    ensures
        skip == up_to_date(cache@, target@, target_exists, bytes_read(*source)),
{
    match cache.get(target) {
        None => false,
        Some(crc) => {
            if !target_exists {
                return false;
            }
            match source {
                None => false,
                Some(bytes) => crc_table.compare(bytes.as_slice(), *crc),
            }
        },
    }
}

/// The cache after a copy: where the target could be read afterwards, its
/// checksum is recorded for the target; else the cache stays.
pub open spec fn recorded(cache: Map<Seq<char>, u32>, target: Seq<char>, written: Option<Seq<u8>>)
    -> Map<Seq<char>, u32> {
    match written {
        Some(bytes) => cache.insert(target, checksum(bytes)),
        None => cache,
    }
}

/// Takes note of a copy: `written` is what the target holds now, if it could
/// be read.
pub fn record_copy(
    cache: &mut StringMap<u32>,
    target: String,
    written: &Option<Vec<u8>>,
    crc_table: &Crc32Table,
)
    ensures
        final(cache)@ == recorded(old(cache)@, target@, bytes_read(*written)),
        final(cache).entries() == match bytes_read(*written) {
            Some(bytes) => crate::string_map::insert_entry(
                old(cache).entries(),
                target@,
                checksum(bytes),
            ),
            None => old(cache).entries(),
        },
{
    match written {
        None => {},
        Some(bytes) => {
            let crc = crc_table.calculate(bytes.as_slice());
            cache.insert(target, crc);
        },
    }
}

/// A cached copy of `source` to `target` on files that can all be read: the
/// cache and the files afterwards, and whether the file was written.
pub open spec fn cached_copy_model(
    cache: Map<Seq<char>, u32>,
    files: Map<Seq<char>, Seq<u8>>,
    source: Seq<char>,
    target: Seq<char>,
) -> (Map<Seq<char>, u32>, Map<Seq<char>, Seq<u8>>, bool) {
    if up_to_date(cache, target, files.contains_key(target), Some(files[source])) {
        (cache, files, false)
    } else {
        let after = files.insert(target, files[source]);
        (recorded(cache, target, Some(after[target])), after, true)
    }
}

/// A cached copy made again, with nothing changed between, writes nothing
/// and leaves cache and files as they are.
pub proof fn lemma_cached_copy_idempotent(
    cache: Map<Seq<char>, u32>,
    files: Map<Seq<char>, Seq<u8>>,
    source: Seq<char>,
    target: Seq<char>,
)
    requires
        files.contains_key(source),
    ensures
        ({
            let (cache1, files1, _) = cached_copy_model(cache, files, source, target);
            let (cache2, files2, written) = cached_copy_model(cache1, files1, source, target);
            !written && cache2 == cache1 && files2 == files1
        }),
{
}

/// After the target was removed, a cached copy writes it again and records
/// the checksum of what it wrote.
pub proof fn lemma_cached_copy_after_removal(
    cache: Map<Seq<char>, u32>,
    files: Map<Seq<char>, Seq<u8>>,
    source: Seq<char>,
    target: Seq<char>,
)
    requires
        files.contains_key(source),
        source != target,
    ensures
        ({
            let (cache1, files1, written) = cached_copy_model(
                cache,
                files.remove(target),
                source,
                target,
            );
            written && files1[target] == files[source] && cache1[target] == checksum(
                files1[target],
            )
        }),
{
}

/// After the source has changed to content with another checksum than the
/// one recorded, a cached copy writes the target and records the checksum of
/// what it wrote.
pub proof fn lemma_cached_copy_after_change(
    cache: Map<Seq<char>, u32>,
    files: Map<Seq<char>, Seq<u8>>,
    source: Seq<char>,
    target: Seq<char>,
    changed: Seq<u8>,
)
    requires
        cache.contains_key(target) ==> checksum(changed) != cache[target],
    ensures
        ({
            let (cache1, files1, written) = cached_copy_model(
                cache,
                files.insert(source, changed),
                source,
                target,
            );
            written && files1[target] == changed && cache1[target] == checksum(files1[target])
        }),
{
}

/// The source and the target that a command's input names. The input must
/// name both: `try_get_source_and_target` tells. `op` is the command.
pub fn get_source_and_target(input: String, op: &str) -> (fs_op: FsOp)
    requires
        source_and_target(input@) is Ok,
    ensures
        source_and_target(input@) == Ok::<(Seq<char>, Seq<char>), FsError>(
            (fs_op.source@, fs_op.target@),
        ),
{
    match try_get_source_and_target(input, op) {
        Ok(fs_op) => fs_op,
        Err(_) => vstd::pervasive::unreached(),
    }
}

/// The path without its `.` and `..`. The path must have no root behind
/// other parts: `try_canonicalize_any` tells.
pub fn canonicalize_any(path: &Vec<PathPart>) -> (done: Vec<PathPart>)
    requires
        normalized(path_model(path@)) is Ok,
    ensures
        normalized(path_model(path@)) == Ok::<Seq<PartModel>, FsError>(path_model(done@)),
{
    match try_canonicalize_any(path) {
        Ok(done) => done,
        Err(_) => vstd::pervasive::unreached(),
    }
}

/// The copy operations for the entries of a directory. Every entry must
/// lie under the source and have its root, if any, in front:
/// `try_create_recursive_dir_copy_ops` tells.
pub fn create_recursive_dir_copy_ops(
    source_root: &Vec<PathPart>,
    target_root: &Vec<PathPart>,
    entries: &Vec<Vec<PathPart>>,
) -> (ops: Vec<CanonicalFsOp>)
    requires
        mapped_all(path_model(source_root@), path_model(target_root@), path_models(entries@))
            is Ok,
    ensures
        mapped_all(path_model(source_root@), path_model(target_root@), path_models(entries@))
            == Ok::<Seq<(Seq<PartModel>, Seq<PartModel>)>, FsError>(op_models(ops@)),
{
    match try_create_recursive_dir_copy_ops(source_root, target_root, entries) {
        Ok(ops) => ops,
        Err(_) => vstd::pervasive::unreached(),
    }
}

/// The steps that copy a directory. The entries must be such that the copy
/// can be planned: `try_copy_dir` tells.
pub fn copy_dir(fs_op: &CanonicalFsOp, entries: &Vec<DirectoryEntry>) -> (steps: Vec<CopyStep>)
    requires
        directory_copy(path_model(fs_op.source@), path_model(fs_op.target@), entries@, false)
            is Ok,
    ensures
        directory_copy(path_model(fs_op.source@), path_model(fs_op.target@), entries@, false)
            == Ok::<Seq<StepModel>, FsError>(step_models(steps@)),
{
    match try_copy_dir(fs_op, entries) {
        Ok(steps) => steps,
        Err(_) => vstd::pervasive::unreached(),
    }
}

/// The steps that copy what has changed of a directory. The entries must be
/// such that the copy can be planned: `try_cached_copy_dir` tells.
pub fn cached_copy_dir(fs_op: &CanonicalFsOp, entries: &Vec<DirectoryEntry>) -> (steps: Vec<
    CopyStep,
>)
    requires
        directory_copy(path_model(fs_op.source@), path_model(fs_op.target@), entries@, true)
            is Ok,
    ensures
        directory_copy(path_model(fs_op.source@), path_model(fs_op.target@), entries@, true)
            == Ok::<Seq<StepModel>, FsError>(step_models(steps@)),
{
    match try_cached_copy_dir(fs_op, entries) {
        Ok(steps) => steps,
        Err(_) => vstd::pervasive::unreached(),
    }
}

} // verus!
