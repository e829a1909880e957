//! Glob patterns, matched by the `globset` crate.

use vstd::prelude::*;

use crate::text::{chars_of, string_of};

verus! {

/// The message of the error that `globset::Glob::new` returns for
/// `pattern`, or `None` when the pattern is accepted.
pub uninterp spec fn glob_new_error(pattern: Seq<char>) -> Option<Seq<char>>;

/// Whether the glob `pattern` matches the path `path`
/// (`globset::GlobMatcher::is_match` with default options).
pub uninterp spec fn glob_matches(pattern: Seq<char>, path: Seq<char>) -> bool;

/// Checks a pattern with `globset::Glob::new`: `None` when the pattern is
/// accepted, otherwise the rendered error. The result is a function of the
/// pattern alone.
#[verifier::external_body]
pub(crate) fn glob_error(pattern: &str) -> (r: Option<String>)
    ensures
        match glob_new_error(pattern@) {
            Some(e) => r matches Some(m) && m@ == e,
            None => r is None,
        },
{
    match globset::Glob::new(pattern) {
        Ok(_) => None,
        Err(e) => Some(e.to_string()),
    }
}

/// All patterns are accepted.
pub open spec fn all_accepted(patterns: Seq<Seq<char>>) -> bool {
    forall|i: int| 0 <= i < patterns.len() ==> glob_new_error(#[trigger] patterns[i]) is None
}

/// Some pattern matches the path (a glob set's match).
pub open spec fn any_matches(patterns: Seq<Seq<char>>, path: Seq<char>) -> bool {
    exists|i: int| 0 <= i < patterns.len() && glob_matches(#[trigger] patterns[i], path)
}

/// A compiled set of globs (`globset::GlobSet`), held opaquely.
#[verifier::external_type_specification]
#[verifier::external_body]
pub struct ExGlobSet(globset::GlobSet);

/// The patterns a glob set was built from, in order.
pub uninterp spec fn glob_set_patterns(set: globset::GlobSet) -> Seq<Seq<char>>;

/// The message of the error that `globset::GlobSetBuilder::build` returns
/// for a set of accepted patterns, or `None` when the set builds.
pub uninterp spec fn glob_set_build_error(patterns: Seq<Seq<char>>) -> Option<Seq<char>>;

/// A builder of glob sets (`globset::GlobSetBuilder`), held opaquely.
#[verifier::external_type_specification]
#[verifier::external_body]
pub struct ExGlobSetBuilder(globset::GlobSetBuilder);

/// The patterns added to a glob set builder so far, in order.
pub uninterp spec fn builder_patterns(builder: globset::GlobSetBuilder) -> Seq<Seq<char>>;

/// `GlobSetBuilder::new`: a builder that holds no pattern yet.
#[verifier::external_body]
fn new_builder() -> (r: globset::GlobSetBuilder)
    ensures
        builder_patterns(r) == Seq::<Seq<char>>::empty(),
{
    globset::GlobSetBuilder::new()
}

/// `GlobSetBuilder::add` of the glob that `Glob::new` makes of an accepted
/// pattern: the pattern is appended to the builder's patterns.
#[verifier::external_body]
fn add_pattern(builder: &mut globset::GlobSetBuilder, pattern: &str)
    requires
        glob_new_error(pattern@) is None,
    ensures
        builder_patterns(*final(builder)) == builder_patterns(*old(builder)).push(pattern@),
{
    if let Ok(glob) = globset::Glob::new(pattern) {
        builder.add(glob);
    }
}

/// `GlobSetBuilder::build`: the set of the builder's patterns, or the
/// rendered error; whether it fails is a function of those patterns alone.
#[verifier::external_body]
fn build_set(builder: &globset::GlobSetBuilder) -> (r: Result<globset::GlobSet, String>)
    ensures
        match r {
            Ok(set) => glob_set_build_error(builder_patterns(*builder)) is None
                && glob_set_patterns(set) == builder_patterns(*builder),
            Err(e) => glob_set_build_error(builder_patterns(*builder)) == Some(e@),
        },
{
    match builder.build() {
        Ok(set) => Ok(set),
        Err(e) => Err(e.to_string()),
    }
}

/// Builds a glob set from accepted patterns: each pattern is added in
/// order, then the set is built.
pub(crate) fn build_glob_set(patterns: &Vec<String>) -> (r: Result<globset::GlobSet, String>)
    requires
        all_accepted(patterns@.map_values(|p: String| p@)),
    ensures
        match r {
            Ok(set) => glob_set_build_error(patterns@.map_values(|p: String| p@)) is None
                && glob_set_patterns(set) == patterns@.map_values(|p: String| p@),
            Err(e) => glob_set_build_error(patterns@.map_values(|p: String| p@)) == Some(e@),
        },
{
    let ghost pv = patterns@.map_values(|p: String| p@);
    let mut builder = new_builder();
    let mut i: usize = 0;
    while i < patterns.len()
        invariant
            i <= patterns.len(),
            pv == patterns@.map_values(|p: String| p@),
            all_accepted(pv),
            builder_patterns(builder) == pv.take(i as int),
        decreases patterns.len() - i,
    {
        assert(glob_new_error(pv[i as int]) is None);
        add_pattern(&mut builder, patterns[i].as_str());
        assert(pv.take(i + 1) =~= pv.take(i as int).push(pv[i as int]));
        i = i + 1;
    }
    assert(pv.take(patterns.len() as int) =~= pv);
    build_set(&builder)
}

/// Builds the set of one accepted pattern; fails as building that set
/// fails (a pattern too large for the matcher, for one).
pub(crate) fn single_pattern_set(pattern: &str) -> (r: Result<globset::GlobSet, String>)
    requires
        glob_new_error(pattern@) is None,
    ensures
        match r {
            Ok(set) => glob_set_build_error(seq![pattern@]) is None && glob_set_patterns(set)
                == seq![pattern@],
            Err(e) => glob_set_build_error(seq![pattern@]) == Some(e@),
        },
{
    let mut v: Vec<String> = Vec::new();
    v.push(string_of(&chars_of(pattern)));
    assert(v@.map_values(|p: String| p@) =~= seq![pattern@]);
    build_glob_set(&v)
}

/// Whether the one pattern of a set matches `path`.
pub(crate) fn single_set_matches(set: &globset::GlobSet, path: &str) -> (r: bool)
    requires
        glob_set_patterns(*set).len() == 1,
    ensures
        r == glob_matches(glob_set_patterns(*set)[0], path@),
{
    let r = glob_set_is_match(set, path);
    proof {
        if glob_matches(glob_set_patterns(*set)[0], path@) {
            assert(any_matches(glob_set_patterns(*set), path@));
        }
    }
    r
}

/// `GlobSet::is_match`: whether any glob of the set matches `path`.
#[verifier::external_body]
pub(crate) fn glob_set_is_match(set: &globset::GlobSet, path: &str) -> (r: bool)
    ensures
        r == (exists|i: int| 0 <= i < glob_set_patterns(*set).len() && glob_matches(#[trigger] glob_set_patterns(*set)[i], path@)),
{
    set.is_match(path)
}

} // verus!
