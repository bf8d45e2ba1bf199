//! The file-mode constants of `git2` that the repository walk tests entries with.
use vstd::prelude::*;

verus! {

/// `git2::FileMode::Blob` as a mode, through `i32::from`: git2 maps it to
/// libgit2's `GIT_FILEMODE_BLOB`, which is `0o100644`.
#[verifier::external_body]
pub(crate) fn blob_mode_bits() -> (r: i32)
    ensures
        r == 0o100644,
{
    i32::from(git2::FileMode::Blob)
}

/// `git2::FileMode::Tree` as a mode, through `i32::from`: git2 maps it to
/// libgit2's `GIT_FILEMODE_TREE`, which is `0o040000`.
#[verifier::external_body]
pub(crate) fn tree_mode_bits() -> (r: i32)
    ensures
        r == 0o040000,
{
    i32::from(git2::FileMode::Tree)
}

} // verus!
