//! Paths as the resolver sees them: text, with the directory above and the
//! path relative to a directory taken from the standard library.

use vstd::prelude::*;

verus! {

/// What `std::path::Path::parent` gives for the path written as `path`: the
/// path without its final component, or `None` where the path ends in a root
/// or is empty.
pub uninterp spec fn path_parent(path: Seq<char>) -> Option<Seq<char>>;

/// What `std::path::Path::strip_prefix` gives for the path written as `path`
/// and the base written as `base`: the rest of `path` below `base`, or `None`
/// where `base` is not a prefix of `path`.
pub uninterp spec fn path_strip_prefix(path: Seq<char>, base: Seq<char>) -> Option<Seq<char>>;

/// The directory above `path`, if there is one.
pub open spec fn parent_of(path: Seq<char>) -> Option<Seq<char>> {
    match path_parent(path) {
        Some(p) => if p.len() < path.len() {
            Some(p)
        } else {
            None
        },
        None => None,
    }
}

/// `path` as seen from the directory `base`: the rest of `path` below `base`
/// or, where `path` does not lie below `base`, `path` itself.
pub open spec fn relative_to(path: Seq<char>, base: Seq<char>) -> Seq<char> {
    match path_strip_prefix(path, base) {
        Some(rest) => rest,
        None => path,
    }
}

/// `Path::parent` of the standard library, on a path given as text: the path
/// without its final component, which is shorter than the path, or `None` if
/// the path has no parent.
#[verifier::external_body]
pub(crate) fn parent_dir(path: &str) -> (parent: Option<&str>)
    ensures
        match parent {
            Some(p) => path_parent(path@) == Some(p@) && p@.len() < path@.len(),
            None => path_parent(path@) is None,
        },
{
    std::path::Path::new(path).parent().and_then(|p| p.to_str())
}

/// `Path::strip_prefix` of the standard library, on paths given as text: the
/// rest of `path` below `base`, or `None` if `base` is not a prefix of `path`.
#[verifier::external_body]
pub(crate) fn strip_dir_prefix<'a>(path: &'a str, base: &str) -> (rest: Option<&'a str>)
    ensures
        match rest {
            Some(r) => path_strip_prefix(path@, base@) == Some(r@),
            None => path_strip_prefix(path@, base@) is None,
        },
{
    std::path::Path::new(path).strip_prefix(base).ok().and_then(|p| p.to_str())
}

/// `path` as seen from the directory `base`.
pub(crate) fn relative_path<'a>(path: &'a str, base: &str) -> (rel: &'a str)
    ensures
        rel@ == relative_to(path@, base@),
{
    match strip_dir_prefix(path, base) {
        Some(rest) => rest,
        None => path,
    }
}

} // verus!
