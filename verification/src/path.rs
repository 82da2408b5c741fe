//! Filesystem paths, built through std and `dirs`.

use vstd::prelude::*;
use std::path::PathBuf;

verus! {

#[verifier::external_type_specification]
#[verifier::external_body]
pub struct ExPathBuf(PathBuf);

/// `PathBuf`'s `clone` copies the path; nothing is stated of the copy.
pub assume_specification[ <PathBuf as Clone>::clone ](p: &PathBuf) -> PathBuf;

/// What `PathBuf::from` gives for a text.
pub uninterp spec fn path_of(s: Seq<char>) -> PathBuf;

/// What `Path::join` gives for a base path and a part. It is a function of
/// its arguments; the separator it inserts, and when the part replaces the
/// base, are those of the platform the crate is built for, and are not
/// stated.
pub uninterp spec fn joined(base: PathBuf, part: Seq<char>) -> PathBuf;

/// Calls `PathBuf::from` on a string slice; its result is named by `path_of`.
#[verifier::external_body]
pub(crate) fn path_from(s: &str) -> (r: PathBuf)
    ensures
        r == path_of(s@),
{
    PathBuf::from(s)
}

/// Calls `Path::join`; its result is named by `joined`. What the joined path
/// looks like (the separator, and whether `part` replaces `base`) depends on
/// the platform and is not stated.
#[verifier::external_body]
pub(crate) fn join(base: &PathBuf, part: &str) -> (r: PathBuf)
    ensures
        r == joined(*base, part@),
{
    base.join(part)
}

/// Calls `dirs::data_dir`, which reads the environment (`XDG_DATA_HOME`,
/// `HOME`) or asks the platform; nothing is stated of what it returns.
#[verifier::external_body]
pub(crate) fn data_dir() -> Option<PathBuf> {
    dirs::data_dir()
}

} // verus!
