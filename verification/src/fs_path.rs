//! The platform's path types, which carry a `RelPath` to and from the disk.
use std::path::{Path, PathBuf};
use vstd::prelude::*;

verus! {

#[verifier::external_type_specification]
#[verifier::external_body]
pub struct ExPathBuf(PathBuf);

#[verifier::external_type_specification]
#[verifier::external_body]
pub struct ExPath(Path);

/// The text `Path::to_string_lossy` reads off a path: its contents as
/// UTF-8, with U+FFFD for what is not.
pub uninterp spec fn path_text(p: &Path) -> Seq<char>;

/// The path `PathBuf::from` makes of a text.
pub uninterp spec fn path_of_text(s: Seq<char>) -> PathBuf;

/// Calls `Path::to_string_lossy`; the contract names the text.
#[verifier::external_body]
pub(crate) fn path_lossy(p: &Path) -> (r: String)
    ensures
        r@ == path_text(p),
{
    p.to_string_lossy().into_owned()
}

/// Calls `PathBuf::from` on a string; the contract names the path.
#[verifier::external_body]
pub(crate) fn path_buf_from(s: &str) -> (r: PathBuf)
    ensures
        r == path_of_text(s@),
{
    PathBuf::from(s)
}

} // verus!
