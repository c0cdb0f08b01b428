//! Joining a directory and a file name.
//!
//! Paths are handled as text. What `std::path::Path::join` makes of a directory
//! and a name depends on the platform's separator and on whether the name is
//! absolute, so its result is named here rather than spelled out.

use vstd::prelude::*;

verus! {

/// The path that `std::path::Path::join` gives for `name` under `dir`, as text.
pub uninterp spec fn joined_path(dir: Seq<char>, name: Seq<char>) -> Seq<char>;

/// Calls `std::path::Path::join` on the directory and the name and returns the
/// result as text. The contract only names the result: it is the same for the
/// same directory and name.
#[verifier::external_body]
pub(crate) fn join_path(dir: &str, name: &str) -> (r: String)
    ensures
        r@ == joined_path(dir@, name@),
{
    std::path::Path::new(dir).join(name).to_string_lossy().into_owned()
}

/// The last component of a path as `std::path::Path::file_name` gives it, as
/// text; `None` where it gives none or the name is no valid text.
pub uninterp spec fn path_file_name(path: Seq<char>) -> Option<Seq<char>>;

/// Whether `std::path::Path::starts_with` holds of the path and the directory:
/// whether the components of the directory are the first components of the path.
pub uninterp spec fn path_under(path: Seq<char>, dir: Seq<char>) -> bool;

/// Calls `std::path::Path::file_name` and returns the name as text. The
/// contract only names the result.
#[verifier::external_body]
pub(crate) fn file_name_of(path: &str) -> (r: Option<String>)
    ensures
        (match r {
            Some(n) => Some(n@),
            None => None,
        }) == path_file_name(path@),
{
    match std::path::Path::new(path).file_name() {
        Some(name) => match name.to_str() {
            Some(text) => Some(text.to_owned()),
            None => None,
        },
        None => None,
    }
}

/// Calls `std::path::Path::starts_with`. The contract only names the result.
#[verifier::external_body]
pub(crate) fn is_under(path: &str, dir: &str) -> (r: bool)
    ensures
        r == path_under(path@, dir@),
{
    std::path::Path::new(path).starts_with(dir)
}

} // verus!
