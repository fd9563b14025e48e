//! Paths as text, with the operations of `std::path` that the library
//! relies on. What they compute on a POSIX system is given a name here; the
//! rest of the library states its results over these names.

use vstd::prelude::*;
use vstd::string::*;

verus! {

/// Whether `base` is a prefix of `path`, whole components only.
pub uninterp spec fn path_starts_with(path: Seq<char>, base: Seq<char>) -> bool;

/// Whether `path` starts at the root: with a slash.
pub open spec fn path_is_absolute(path: Seq<char>) -> bool {
    path.len() > 0 && path[0] == '/'
}

/// `path` without the leading `base`, where `base` is a prefix of it.
pub uninterp spec fn path_strip_prefix(path: Seq<char>, base: Seq<char>) -> Option<Seq<char>>;

/// `path` appended to `base`.
pub uninterp spec fn path_join(base: Seq<char>, path: Seq<char>) -> Seq<char>;

/// The last component of `path`, if it names a file or a directory.
pub uninterp spec fn path_file_name(path: Seq<char>) -> Option<Seq<char>>;

/// Whether `a` comes before `b`, or is equal to it, in the order of paths,
/// which compares component by component.
pub uninterp spec fn path_le(a: Seq<char>, b: Seq<char>) -> bool;

/// `Path::starts_with`.
#[verifier::external_body]
pub(crate) fn starts_with(path: &str, base: &str) -> (found: bool)
    ensures
        found == path_starts_with(path@, base@),
{
    std::path::Path::new(path).starts_with(base)
}

/// Whether `path` starts at the root.
pub(crate) fn is_absolute(path: &str) -> (absolute: bool)
    ensures
        absolute == path_is_absolute(path@),
{
    !path.is_empty() && path.get_char(0) == '/'
}

/// `Path::strip_prefix`: the rest of the path, or none where `base` is no
/// prefix of it.
#[verifier::external_body]
pub(crate) fn strip_prefix(path: &str, base: &str) -> (rest: Option<String>)
    ensures
        match rest {
            Some(text) => path_strip_prefix(path@, base@) == Some(text@),
            None => path_strip_prefix(path@, base@) is None,
        },
{
    std::path::Path::new(path).strip_prefix(base).ok().map(|p| p.to_string_lossy().into_owned())
}

/// `Path::join`.
#[verifier::external_body]
pub(crate) fn join(base: &str, path: &str) -> (joined: String)
    ensures
        joined@ == path_join(base@, path@),
{
    std::path::Path::new(base).join(path).to_string_lossy().into_owned()
}

/// `Path::file_name`, as text.
#[verifier::external_body]
pub(crate) fn file_name(path: &str) -> (name: Option<String>)
    ensures
        match name {
            Some(text) => path_file_name(path@) == Some(text@),
            None => path_file_name(path@) is None,
        },
{
    std::path::Path::new(path).file_name().map(|n| n.to_string_lossy().into_owned())
}

} // verus!
