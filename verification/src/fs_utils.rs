//! The rules of copying under their short names: what a command's input
//! names, and the steps of a directory copy.
use crate::fs::{
    directory_copy, path_model, source_and_target, step_models, CanonicalFsOp, CopyStep,
    DirectoryEntry, FsError, FsOp, StepModel,
};
use vstd::prelude::*;

verus! {

/// The source and the target that a command's input names. `op` is the
/// command, for the one who reports a failure.
pub fn try_get_source_and_target(input: String, op: &str) -> (result: Result<FsOp, FsError>)
    ensures
        match result {
            Ok(fs_op) => source_and_target(input@) == Ok::<(Seq<char>, Seq<char>), FsError>(
                (fs_op.source@, fs_op.target@),
            ),
            Err(e) => source_and_target(input@) == Err::<(Seq<char>, Seq<char>), FsError>(e),
        },
{
    crate::fs::try_get_source_and_target(input, op)
}

/// The steps that copy a directory: `fs_op` names the directory and where it
/// goes, `entries` is what walking the directory found, each entry with what
/// it is at the source.
pub fn try_copy_dir(fs_op: &CanonicalFsOp, entries: &Vec<DirectoryEntry>) -> (result: Result<
    Vec<CopyStep>,
    FsError,
>)
    ensures
        match result {
            Ok(steps) => directory_copy(
                path_model(fs_op.source@),
                path_model(fs_op.target@),
                entries@,
                false,
            ) == Ok::<Seq<StepModel>, FsError>(step_models(steps@)),
            Err(e) => directory_copy(
                path_model(fs_op.source@),
                path_model(fs_op.target@),
                entries@,
                false,
            ) == Err::<Seq<StepModel>, FsError>(e),
        },
{
    crate::fs::try_copy_dir(fs_op, entries)
}

/// The steps that copy what has changed of a directory: as `copy_dir`, but
/// every file is copied only if the cache does not show its target up to
/// date.
pub fn try_cached_copy_dir(fs_op: &CanonicalFsOp, entries: &Vec<DirectoryEntry>) -> (result: Result<
    Vec<CopyStep>,
    FsError,
>)
    ensures
        match result {
            Ok(steps) => directory_copy(
                path_model(fs_op.source@),
                path_model(fs_op.target@),
                entries@,
                true,
            ) == Ok::<Seq<StepModel>, FsError>(step_models(steps@)),
            Err(e) => directory_copy(
                path_model(fs_op.source@),
                path_model(fs_op.target@),
                entries@,
                true,
            ) == Err::<Seq<StepModel>, FsError>(e),
        },
{
    crate::fs::try_cached_copy_dir(fs_op, entries)
}

/// The source and the target that a command's input names. The input must
/// name both: `try_get_source_and_target` tells.
pub fn get_source_and_target(input: String, op: &str) -> (fs_op: FsOp)
    requires
        source_and_target(input@) is Ok,
    ensures
        source_and_target(input@) == Ok::<(Seq<char>, Seq<char>), FsError>(
            (fs_op.source@, fs_op.target@),
        ),
{
    crate::fs::get_source_and_target(input, op)
}

/// The steps that copy a directory. The entries must be such that the copy
/// can be planned: `try_copy_dir` tells.
pub fn copy_dir(fs_op: &CanonicalFsOp, entries: &Vec<DirectoryEntry>) -> (steps: Vec<CopyStep>)
    requires
        directory_copy(path_model(fs_op.source@), path_model(fs_op.target@), entries@, false)
            is Ok,
    ensures
        directory_copy(path_model(fs_op.source@), path_model(fs_op.target@), entries@, false)
            == Ok::<Seq<StepModel>, FsError>(step_models(steps@)),
{
    crate::fs::copy_dir(fs_op, entries)
}

/// The steps that copy what has changed of a directory. The entries must be
/// such that the copy can be planned: `try_cached_copy_dir` tells.
pub fn cached_copy_dir(fs_op: &CanonicalFsOp, entries: &Vec<DirectoryEntry>) -> (steps: Vec<
    CopyStep,
>)
    requires
        directory_copy(path_model(fs_op.source@), path_model(fs_op.target@), entries@, true)
            is Ok,
    ensures
        directory_copy(path_model(fs_op.source@), path_model(fs_op.target@), entries@, true)
            == Ok::<Seq<StepModel>, FsError>(step_models(steps@)),
{
    crate::fs::cached_copy_dir(fs_op, entries)
}

} // verus!
