//! Filesystem paths as the library hands them on: made from text and
//! extended by a component, with what `std::path` does left to it.
use std::path::PathBuf;

use vstd::prelude::*;

verus! {

#[verifier::external_type_specification]
#[verifier::external_body]
pub struct ExPathBuf(PathBuf);

/// The path that `PathBuf::from` makes of a text.
pub uninterp spec fn path_of_text(text: Seq<char>) -> PathBuf;

/// The path that `Path::join` makes of a path and a component.
pub uninterp spec fn path_joined(base: PathBuf, part: Seq<char>) -> PathBuf;

/// `PathBuf::from` on a text: the path depends on the text alone.
#[verifier::external_body]
pub(crate) fn path_from(text: &str) -> (p: PathBuf)
    ensures
        p == path_of_text(text@),
{
    PathBuf::from(text)
}

/// `Path::join` of one component: the path depends on the base and the
/// component alone.
#[verifier::external_body]
pub(crate) fn join_path(base: &PathBuf, part: &str) -> (p: PathBuf)
    ensures
        p == path_joined(*base, part@),
{
    base.join(part)
}

} // verus!
