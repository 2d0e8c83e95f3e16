//! Path globs with literal separators, matched by `globset`.
use vstd::prelude::*;

use crate::policy::types::opt_view;
use crate::text::{owned, views};

verus! {

/// The error text `globset` gives when a pattern, built with literal
/// separators, is rejected; `None` when it is accepted. (What `globset`
/// accepts depends on the build target: backslash escapes are on by default
/// on Unix only.)
pub uninterp spec fn path_glob_error(pattern: Seq<char>) -> Option<Seq<char>>;

/// Whether the `globset::GlobSet` holding the pattern alone, built with
/// literal separators, builds and matches a path (false when the set does not
/// build, as when its regex exceeds `globset`'s size limit). On Windows
/// builds `globset` also treats `\` in paths as a separator.
pub uninterp spec fn path_glob_matches(pattern: Seq<char>, path: Seq<char>) -> bool;

/// `GlobBuilder::new(pattern).literal_separator(true).build()`: the text of
/// its error (`globset::Error`'s `Display`), or `None` when it succeeds.
#[verifier::external_body]
pub(crate) fn path_glob_build_error(pattern: &str) -> (r: Option<String>)
    ensures
        opt_view(r) == path_glob_error(pattern@),
{
    match globset::GlobBuilder::new(pattern).literal_separator(true).build() {
        Ok(_) => None,
        Err(error) => Some(error.to_string()),
    }
}

/// A path glob compiled once: the `globset::GlobSet` holding the pattern alone,
/// built with literal separators, or no set when that set does not build.
pub struct PathGlob {
    pattern: String,
    set: Option<globset::GlobSet>,
}

impl PathGlob {
    /// The pattern the glob was compiled from.
    pub closed spec fn pattern(self) -> Seq<char> {
        self.pattern@
    }

    #[verifier::type_invariant]
    closed spec fn compiled(self) -> bool {
        match self.set {
            Some(set) => globset_literal(set) && globset_patterns(set) == seq![self.pattern@],
            None => forall|path: Seq<char>| !path_glob_matches(self.pattern@, path),
        }
    }

    /// Compiles a pattern that builds with literal separators.
    pub fn new(pattern: &str) -> (r: Self)
        requires
            path_glob_error(pattern@) is None,
        ensures
            r.pattern() == pattern@,
    {
        let set = build_path_glob_set(pattern);
        PathGlob { pattern: owned(pattern), set }
    }

    /// Whether the glob matches `path`.
    pub fn is_match(&self, path: &str) -> (r: bool)
        ensures
            r == path_glob_matches(self.pattern(), path@),
    {
        proof {
            use_type_invariant(self);
        }
        match &self.set {
            Some(set) => literal_globset_set_matches(set, path).len() > 0,
            None => false,
        }
    }
}

/// The text of the error `globset::Glob::new` gives for a pattern (its
/// `Display`); `None` when the pattern parses. What parses depends on the
/// build target, as for `path_glob_error`.
pub uninterp spec fn glob_new_error(pattern: Seq<char>) -> Option<Seq<char>>;

/// Whether `globset::Glob::new` rejects a pattern.
pub open spec fn glob_rejected(pattern: Seq<char>) -> bool {
    glob_new_error(pattern) is Some
}

/// `globset::Glob::new(pattern)` with the default options: the text of its
/// error, or `None` when the pattern parses.
#[verifier::external_body]
pub(crate) fn glob_new_error_text(pattern: &str) -> (r: Option<String>)
    ensures
        opt_view(r) == glob_new_error(pattern@),
{
    match globset::Glob::new(pattern) {
        Ok(_) => None,
        Err(error) => Some(error.to_string()),
    }
}

/// Whether `globset::Glob::new` rejects a pattern.
pub(crate) fn glob_new_fails(pattern: &str) -> (r: bool)
    ensures
        r == glob_rejected(pattern@),
{
    glob_new_error_text(pattern).is_some()
}

/// Every pattern parses with `globset::Glob::new`.
pub open spec fn all_globs_parse(patterns: Seq<Seq<char>>) -> bool {
    forall|i: int| 0 <= i < patterns.len() ==> glob_new_error(#[trigger] patterns[i]) is None
}

/// The text of the error `globset::GlobSetBuilder::build` gives for a set of
/// parsed globs; `None` when the set builds.
pub uninterp spec fn globset_build_error(patterns: Seq<Seq<char>>) -> Option<Seq<char>>;

/// Whether the `globset::GlobSet` built from the patterns matches a path
/// (path separators depend on the build target, as for `path_glob_matches`).
pub uninterp spec fn globset_matches(patterns: Seq<Seq<char>>, path: Seq<char>) -> bool;

/// `globset::GlobSet`, held as built.
#[verifier::external_type_specification]
#[verifier::external_body]
pub struct ExGlobSet(globset::GlobSet);

/// The patterns a `globset::GlobSet` was built from, in the order they were
/// added (each glob built with literal separators or with `Glob::new`, as
/// `globset_literal` says).
pub uninterp spec fn globset_patterns(set: globset::GlobSet) -> Seq<Seq<char>>;

/// `GlobSetBuilder::build` over `Glob::new` of each pattern: the set, or the
/// text of its error (`globset::Error`'s `Display`).
#[verifier::external_body]
pub(crate) fn build_globset(patterns: &Vec<String>) -> (r: Result<globset::GlobSet, String>)
    requires
        all_globs_parse(views(patterns@)),
    ensures
        match r {
            Ok(set) => globset_build_error(views(patterns@)) is None && globset_patterns(set) == views(patterns@)
                && !globset_literal(set),
            Err(message) => globset_build_error(views(patterns@)) == Some(message@),
        },
{
    let mut builder = globset::GlobSetBuilder::new();
    for pattern in patterns {
        if let Ok(glob) = globset::Glob::new(pattern) {
            builder.add(glob);
        }
    }
    builder.build().map_err(|error| error.to_string())
}

/// `GlobSet::is_match`: whether the set built from its patterns matches the
/// path.
#[verifier::external_body]
pub(crate) fn globset_set_is_match(set: &globset::GlobSet, path: &str) -> (r: bool)
    requires
        !globset_literal(*set),
    ensures
        r == globset_matches(globset_patterns(*set), path@),
{
    set.is_match(path)
}

/// Whether the `globset::GlobSet` holding `globset::Glob::new(pattern)`
/// (default options) alone builds and matches a path (false when the set does
/// not build, as when its regex exceeds `globset`'s size limit). Matching
/// depends on the build target as for `path_glob_matches`.
pub uninterp spec fn glob_matches(pattern: Seq<char>, path: Seq<char>) -> bool;

/// `GlobSet::is_match` of the set holding `Glob::new(pattern)` alone; false
/// when the set does not build.
#[verifier::external_body]
pub(crate) fn glob_is_match(pattern: &str, path: &str) -> (r: bool)
    requires
        glob_new_error(pattern@) is None,
    ensures
        r == glob_matches(pattern@, path@),
{
    let mut builder = globset::GlobSetBuilder::new();
    if let Ok(glob) = globset::Glob::new(pattern) {
        builder.add(glob);
    }
    match builder.build() {
        Ok(set) => set.is_match(path),
        Err(_) => false,
    }
}

/// The error text `globset::GlobSetBuilder::build` gives for the set of the
/// patterns, each built with literal separators, in order; `None` when the set
/// builds.
pub uninterp spec fn literal_globset_error(patterns: Seq<Seq<char>>) -> Option<Seq<char>>;

/// The sequence numbers `GlobSet::matches` reports for a path, on the set of
/// the patterns built with literal separators.
pub uninterp spec fn literal_globset_matched(patterns: Seq<Seq<char>>, path: Seq<char>) -> Set<int>;

/// Every pattern builds with literal separators.
pub open spec fn all_path_globs_build(patterns: Seq<Seq<char>>) -> bool {
    forall|i: int| 0 <= i < patterns.len() ==> path_glob_error(#[trigger] patterns[i]) is None
}

/// Whether a `globset::GlobSet` was built from globs with literal separators
/// (`GlobBuilder::literal_separator(true)`) rather than with `Glob::new`.
pub uninterp spec fn globset_literal(set: globset::GlobSet) -> bool;

/// `GlobSetBuilder::build` over the literal-separator globs of the patterns:
/// the set, or the text of its error.
#[verifier::external_body]
pub(crate) fn build_literal_globset(patterns: &Vec<String>) -> (r: Result<globset::GlobSet, String>)
    requires
        all_path_globs_build(views(patterns@)),
    ensures
        match r {
            Ok(set) => literal_globset_error(views(patterns@)) is None && globset_patterns(set) == views(
                patterns@,
            ) && globset_literal(set),
            Err(message) => literal_globset_error(views(patterns@)) == Some(message@),
        },
{
    let mut builder = globset::GlobSetBuilder::new();
    for pattern in patterns {
        if let Ok(glob) = globset::GlobBuilder::new(pattern).literal_separator(true).build() {
            builder.add(glob);
        }
    }
    builder.build().map_err(|error| error.to_string())
}

/// `GlobSetBuilder::build` over the one glob
/// `GlobBuilder::new(pattern).literal_separator(true)`: the set, or `None` when
/// it does not build, in which case the pattern matches no path.
#[verifier::external_body]
fn build_path_glob_set(pattern: &str) -> (r: Option<globset::GlobSet>)
    requires
        path_glob_error(pattern@) is None,
    ensures
        match r {
            Some(set) => globset_literal(set) && globset_patterns(set) == seq![pattern@],
            None => forall|path: Seq<char>| !path_glob_matches(pattern@, path),
        },
{
    let mut builder = globset::GlobSetBuilder::new();
    if let Ok(glob) = globset::GlobBuilder::new(pattern).literal_separator(true).build() {
        builder.add(glob);
    }
    builder.build().ok()
}

/// `GlobSet::matches` on a set of literal-separator globs: the sequence
/// numbers of the patterns that match the path, each below the number of
/// patterns; on a set of one glob, some number exactly when the glob matches.
#[verifier::external_body]
pub(crate) fn literal_globset_set_matches(set: &globset::GlobSet, path: &str) -> (r: Vec<usize>)
    requires
        globset_literal(*set),
    ensures
        forall|k: int| 0 <= k < r@.len() ==> (#[trigger] r@[k]) < globset_patterns(*set).len(),
        r@.map_values(|i: usize| i as int).to_set() == literal_globset_matched(globset_patterns(*set), path@),
        globset_patterns(*set).len() == 1 ==> (r@.len() > 0 <==> path_glob_matches(globset_patterns(*set)[0], path@)),
{
    set.matches(path)
}

} // verus!
