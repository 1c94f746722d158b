//! Glob patterns, by way of the `globset` crate.
//!
//! What is said of them here holds where `/` is the only path separator, as on
//! macOS and Linux.

use vstd::prelude::*;

verus! {

/// `globset::GlobSet`: a compiled set of globs.
#[verifier::external_type_specification]
#[verifier::external_body]
pub struct ExGlobSet(globset::GlobSet);

/// `globset::GlobSetBuilder`: the globs that a set is going to hold.
#[verifier::external_type_specification]
#[verifier::external_body]
pub struct ExGlobSetBuilder(globset::GlobSetBuilder);

/// The patterns a set was built from, in order.
pub uninterp spec fn globs_in(set: globset::GlobSet) -> Seq<Seq<char>>;

/// The patterns a set is going to be built from, in order.
pub uninterp spec fn globs_added(builder: globset::GlobSetBuilder) -> Seq<Seq<char>>;

/// What `globset` finds wrong with a pattern; none where it is well formed.
pub uninterp spec fn glob_fault(pattern: Seq<char>) -> Option<Seq<char>>;

/// What `globset` finds wrong with well-formed patterns taken together; none where
/// it makes a set of them.
pub uninterp spec fn globs_fault(patterns: Seq<Seq<char>>) -> Option<Seq<char>>;

/// Whether a path is one that a pattern describes, as a set of that pattern has it. A
/// set finds no file name in a path that ends in `..`, so a pattern that goes by the
/// file name or its extension alone describes no such path.
pub uninterp spec fn glob_matches(pattern: Seq<char>, path: Seq<char>) -> bool;

/// `globset::GlobSetBuilder::new`: no patterns yet.
#[verifier::external_body]
pub(crate) fn no_globs() -> (r: globset::GlobSetBuilder)
    ensures
        globs_added(r) == Seq::<Seq<char>>::empty(),
{
    globset::GlobSetBuilder::new()
}

/// `globset::GlobSetBuilder::add`, of the pattern as `globset::Glob::new` reads it: the
/// pattern is the last of those added. One that is not well formed is not added, and
/// what is wrong with it comes back. The grammar is the crate's own.
#[verifier::external_body]
pub(crate) fn add_glob(builder: &mut globset::GlobSetBuilder, pattern: &str) -> (r: Option<String>)
    ensures
        crate::pathname::opt_text(r) == glob_fault(pattern@),
        globs_added(*final(builder)) == (if r is None {
            globs_added(*old(builder)).push(pattern@)
        } else {
            globs_added(*old(builder))
        }),
{
    match globset::Glob::new(pattern) {
        Ok(glob) => {
            builder.add(glob);
            None
        },
        Err(err) => Some(err.to_string()),
    }
}

/// `globset::GlobSetBuilder::build`: a set of the patterns that were added, or what is
/// wrong with them taken together.
#[verifier::external_body]
pub(crate) fn build_globs(builder: &globset::GlobSetBuilder) -> (r: Result<
    globset::GlobSet,
    String,
>)
    ensures
        (match r {
            Ok(set) => globs_fault(globs_added(*builder)) is None && globs_in(set) == globs_added(
                *builder,
            ),
            Err(e) => globs_fault(globs_added(*builder)) == Some(e@),
        }),
{
    match builder.build() {
        Ok(set) => Ok(set),
        Err(err) => Err(err.to_string()),
    }
}

/// Whether one of these patterns describes a path.
pub open spec fn any_matches(patterns: Seq<Seq<char>>, path: Seq<char>) -> bool {
    exists|i: int| 0 <= i < patterns.len() && #[trigger] glob_matches(patterns[i], path)
}

/// `globset::GlobSet::is_match`: whether any glob of the set matches a path.
#[verifier::external_body]
pub(crate) fn set_matches(set: &globset::GlobSet, path: &str) -> (r: bool)
    ensures
        r == (exists|i: int|
            0 <= i < globs_in(*set).len() && #[trigger] glob_matches(globs_in(*set)[i], path@)),
{
    set.is_match(path)
}

/// Whether a set can be made of one pattern.
pub open spec fn compiles(pattern: Seq<char>) -> bool {
    glob_fault(pattern) is None && globs_fault(seq![pattern]) is None
}

/// A set of one pattern, where the pattern can be compiled. `Glob::compile_matcher` is
/// no way to a matcher here: it panics on a pattern that cannot be.
pub(crate) fn single(pattern: &str) -> (r: Option<globset::GlobSet>)
    ensures
        (match r {
            Some(set) => compiles(pattern@) && globs_in(set) == seq![pattern@],
            None => !compiles(pattern@),
        }),
{
    let mut builder = no_globs();
    if add_glob(&mut builder, pattern).is_some() {
        return None;
    }
    assert(globs_added(builder) =~= seq![pattern@]);
    match build_globs(&builder) {
        Ok(set) => Some(set),
        Err(_) => None,
    }
}

/// A set of one pattern matches what the pattern matches.
pub proof fn lemma_single(pattern: Seq<char>, path: Seq<char>)
    ensures
        any_matches(seq![pattern], path) == glob_matches(pattern, path),
{
    let one = seq![pattern];
    if glob_matches(pattern, path) {
        assert(glob_matches(one[0], path));
    }
}

/// A set of patterns matches where one of them does, and an empty one never.
pub proof fn law_one_match_is_enough(patterns: Seq<Seq<char>>, path: Seq<char>, i: int)
    requires
        0 <= i < patterns.len(),
    ensures
        glob_matches(patterns[i], path) ==> any_matches(patterns, path),
        !any_matches(Seq::empty(), path),
        (forall|k: int| 0 <= k < patterns.len() ==> !glob_matches(#[trigger] patterns[k], path))
            ==> !any_matches(patterns, path),
{
}

} // verus!
