//! The few `std::path` operations that the commands need, on paths held as
//! strings. Their results are named, not described.
use vstd::prelude::*;

verus! {

/// What `Path::strip_prefix` gives (as text) for `path` relative to `base`.
pub uninterp spec fn path_relative_to(path: Seq<char>, base: Seq<char>) -> Option<Seq<char>>;

/// What `Path::join` gives (as text) for `base` joined with `path`.
pub uninterp spec fn path_joined(base: Seq<char>, path: Seq<char>) -> Seq<char>;

/// Whether `Path::eq` holds of two paths (it compares their components).
pub uninterp spec fn same_path(a: Seq<char>, b: Seq<char>) -> bool;

/// Calls `Path::strip_prefix` (a match on whole path components) and renders
/// the remainder with `to_string_lossy`. The contract claims only that the
/// result, or its absence, is `path_relative_to` of the two arguments; how
/// components are compared is not stated.
#[verifier::external_body]
pub(crate) fn strip_path_prefix(path: &str, base: &str) -> (r: Option<String>)
    ensures
        match r {
            Some(s) => path_relative_to(path@, base@) == Some(s@),
            None => path_relative_to(path@, base@) is None,
        },
{
    std::path::Path::new(path).strip_prefix(base).ok().map(|p| p.to_string_lossy().into_owned())
}

/// Calls `Path::join` and renders the result with `to_string_lossy`. The
/// contract claims only that the result is `path_joined` of the two
/// arguments; where a separator is added, and that an absolute second path
/// replaces the first, is not stated.
#[verifier::external_body]
pub(crate) fn join_path(base: &str, path: &str) -> (r: String)
    ensures
        r@ == path_joined(base@, path@),
{
    std::path::Path::new(base).join(path).to_string_lossy().into_owned()
}

/// Calls `==` on the two paths as `Path`s. The contract claims that the
/// result is `same_path` of them, that a path is the same path as itself, and
/// that the relation is symmetric (`Path` is `Eq`, whose documentation asks
/// for both). That it compares components (so `a//b` and `a/b` are the same
/// path) is not stated.
#[verifier::external_body]
pub(crate) fn paths_equal(a: &str, b: &str) -> (r: bool)
    ensures
        r == same_path(a@, b@),
        r == same_path(b@, a@),
        a@ == b@ ==> r,
{
    std::path::Path::new(a) == std::path::Path::new(b)
}

} // verus!
