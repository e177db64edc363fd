//! What the exclude list takes from the `globset` crate: compiling glob
//! patterns and matching a path against a set of them.
//!
//! Nothing in this file is proved. Each item states what the crate's code
//! does, over names for what its values hold.

use globset::{Glob, GlobSet, GlobSetBuilder};
use vstd::prelude::*;

verus! {

/// A compiled glob pattern of `globset`.
#[verifier::external_type_specification]
#[verifier::external_body]
pub struct ExGlob(Glob);

/// A set of glob patterns of `globset`, ready for matching.
#[verifier::external_type_specification]
#[verifier::external_body]
pub struct ExGlobSet(GlobSet);

/// A set of glob patterns of `globset` that is still taking patterns.
#[verifier::external_type_specification]
#[verifier::external_body]
pub struct ExGlobSetBuilder(GlobSetBuilder);

/// What `Glob::new` makes of a pattern: `None` where it accepts the pattern,
/// else the text of the error that it gives.
pub uninterp spec fn glob_error(pattern: Seq<char>) -> Option<Seq<char>>;

/// What `GlobSetBuilder::build` makes of the patterns added to it: `None`
/// where it builds the set, else the text of the error that it gives.
pub uninterp spec fn glob_set_error(patterns: Seq<Seq<char>>) -> Option<Seq<char>>;

/// Whether the glob that `Glob::new` makes of `pattern` matches `path`. The
/// path is read in the path syntax of the platform.
pub uninterp spec fn glob_matches(pattern: Seq<char>, path: Seq<char>) -> bool;

/// The pattern that the glob was made from.
pub uninterp spec fn glob_pattern(glob: Glob) -> Seq<char>;

/// The patterns of the globs that were added to the builder, in order.
pub uninterp spec fn builder_patterns(builder: GlobSetBuilder) -> Seq<Seq<char>>;

/// The patterns of the globs that the set holds, in order.
pub uninterp spec fn set_patterns(set: GlobSet) -> Seq<Seq<char>>;

/// Whether any of `patterns` matches `path`.
pub open spec fn any_glob_matches(patterns: Seq<Seq<char>>, path: Seq<char>) -> bool {
    exists|i: int| 0 <= i < patterns.len() && glob_matches(#[trigger] patterns[i], path)
}

/// `Glob::new`: compiles a pattern with the default options. The error is
/// handed back as its text.
#[verifier::external_body]
pub(crate) fn compile_glob(pattern: &str) -> (compiled: Result<Glob, String>)
    ensures
        match compiled {
            Ok(glob) => glob_error(pattern@) is None && glob_pattern(glob) == pattern@,
            Err(text) => glob_error(pattern@) == Some(text@),
        },
{
    Glob::new(pattern).map_err(|e| e.to_string())
}

/// `GlobSetBuilder::new`: a builder that holds no pattern yet.
#[verifier::external_body]
pub(crate) fn new_builder() -> (builder: GlobSetBuilder)
    ensures
        builder_patterns(builder).len() == 0,
{
    GlobSetBuilder::new()
}

/// `GlobSetBuilder::add`: adds one more glob after those that the builder
/// holds.
#[verifier::external_body]
pub(crate) fn add_glob(builder: &mut GlobSetBuilder, glob: Glob)
    ensures
        builder_patterns(*final(builder)) == builder_patterns(*old(builder)).push(
            glob_pattern(glob),
        ),
{
    builder.add(glob);
}

/// `GlobSetBuilder::build`: the set of all globs added so far. The error is
/// handed back as its text.
#[verifier::external_body]
pub(crate) fn build_set(builder: &GlobSetBuilder) -> (built: Result<GlobSet, String>)
    ensures
        match built {
            Ok(set) => glob_set_error(builder_patterns(*builder)) is None && set_patterns(set)
                == builder_patterns(*builder),
            Err(text) => glob_set_error(builder_patterns(*builder)) == Some(text@),
        },
{
    builder.build().map_err(|e| e.to_string())
}

/// `GlobSet::empty`: the set that holds no glob and matches nothing.
#[verifier::external_body]
pub(crate) fn empty_set() -> (set: GlobSet)
    ensures
        set_patterns(set).len() == 0,
{
    GlobSet::empty()
}

/// `GlobSet::is_match`: whether any glob in the set matches the path.
#[verifier::external_body]
pub(crate) fn set_is_match(set: &GlobSet, path: &str) -> (matched: bool)
    ensures
        matched == (exists|i: int|
            0 <= i < set_patterns(*set).len() && glob_matches(
                #[trigger] set_patterns(*set)[i],
                path@,
            )),
{
    set.is_match(path)
}

} // verus!
