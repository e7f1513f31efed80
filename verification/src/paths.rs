//! Filesystem paths, as far as the bridge's logic builds them: joining a
//! segment onto a directory and turning a string into a path. Which
//! separator a join writes is the platform's, fixed when the crate is built.
use std::path::PathBuf;
use vstd::prelude::*;

verus! {

#[verifier::external_type_specification]
#[verifier::external_body]
pub struct ExPathBuf(std::path::PathBuf);

/// `PathBuf::clone`: a copy of the same path.
pub assume_specification[ <std::path::PathBuf as Clone>::clone ](p: &PathBuf) -> (r: PathBuf)
    ensures
        r == *p,
;

/// What `Path::join` returns for a base path and one segment.
pub uninterp spec fn path_joined(base: PathBuf, segment: Seq<char>) -> PathBuf;

/// What `PathBuf::from` returns for a string.
pub uninterp spec fn path_from_text(text: Seq<char>) -> PathBuf;

/// `Path::join`: the base with `segment` adjoined. Its contract says that the
/// result is a function of the base and the segment's characters alone (the
/// separator is the build target's); the layout of the result is not
/// stated.
#[verifier::external_body]
pub(crate) fn join(base: &PathBuf, segment: &str) -> (r: PathBuf)
    ensures
        r == path_joined(*base, segment@),
{
    base.join(segment)
}

/// `PathBuf::from(String)`: the path spelled by `text`. Its contract says that
/// the result is a function of the characters alone.
#[verifier::external_body]
pub(crate) fn from_text(text: String) -> (r: PathBuf)
    ensures
        r == path_from_text(text@),
{
    PathBuf::from(text)
}

/// What `Path::parent` returns for a path.
pub uninterp spec fn path_parent(p: PathBuf) -> Option<PathBuf>;

/// `Path::parent`, owned: the path without its final component, or `None`
/// for a root or an empty path. Its contract says that the result is a
/// function of the path alone; which paths have a parent is not stated.
#[verifier::external_body]
pub(crate) fn parent(p: &PathBuf) -> (r: Option<PathBuf>)
    ensures
        r == path_parent(*p),
{
    match p.parent() {
        Some(d) => Some(d.to_path_buf()),
        None => None,
    }
}

} // verus!
