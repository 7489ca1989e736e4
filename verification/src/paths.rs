//! Path operations on paths held as strings. The path grammar (separators,
//! `.` components, absolute versus relative) is `std::path`'s, and these
//! functions call it.
use vstd::prelude::*;

verus! {

/// What `Path::parent` returns for a path, as a string.
pub uninterp spec fn path_parent_of(p: Seq<char>) -> Option<Seq<char>>;

/// What `Path::join` returns for a base path and a pushed path.
pub uninterp spec fn path_joined(base: Seq<char>, rest: Seq<char>) -> Seq<char>;

/// What `Path::file_name` returns for a path, as a string.
pub uninterp spec fn path_file_name_of(p: Seq<char>) -> Option<Seq<char>>;

/// What `Path::with_file_name` returns for a path and a new final component.
pub uninterp spec fn path_with_file_name_of(p: Seq<char>, name: Seq<char>) -> Seq<char>;

/// Calls `Path::parent`; the result is named `path_parent_of`.
#[verifier::external_body]
pub(crate) fn path_parent(p: &str) -> (res: Option<String>)
    ensures
        res.deep_view() == path_parent_of(p@),
{
    std::path::Path::new(p).parent().map(|parent| parent.to_string_lossy().into_owned())
}

/// Calls `Path::join`; the result is named `path_joined`.
#[verifier::external_body]
pub(crate) fn path_join(base: &str, rest: &str) -> (res: String)
    ensures
        res@ == path_joined(base@, rest@),
{
    std::path::Path::new(base).join(rest).to_string_lossy().into_owned()
}

/// Calls `Path::file_name`; the result is named `path_file_name_of`.
#[verifier::external_body]
pub(crate) fn path_file_name(p: &str) -> (res: Option<String>)
    ensures
        res.deep_view() == path_file_name_of(p@),
{
    std::path::Path::new(p).file_name().map(|name| name.to_string_lossy().into_owned())
}

/// Calls `Path::with_file_name`; the result is named `path_with_file_name_of`.
#[verifier::external_body]
pub(crate) fn path_with_file_name(p: &str, name: &str) -> (res: String)
    ensures
        res@ == path_with_file_name_of(p@, name@),
{
    std::path::Path::new(p).with_file_name(name).to_string_lossy().into_owned()
}

} // verus!
