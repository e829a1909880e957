//! Decisions of the command line: which bump a tag asks for, how a bundle
//! argument is read, the cache directory, and the text shown after a
//! stack publish.

use vstd::prelude::*;

use crate::error::{error_text, EngitError};
use crate::framework::{file_stem, parent_name, stack_file_stem};
use crate::publish::{looks_like_bndlid, is_bndlid, texts_of};
use crate::text::{chars_of, extend_str, string_of};

verus! {

/// The bump a tag command asks for: the first of `--major`, `--minor`,
/// `--patch` that is set.
pub fn selected_bump(major: bool, minor: bool, patch: bool) -> (r: Option<&'static str>)
    ensures
        major ==> (r matches Some(b) && b@ == "major"@),
        !major && minor ==> (r matches Some(b) && b@ == "minor"@),
        !major && !minor && patch ==> (r matches Some(b) && b@ == "patch"@),
        !major && !minor && !patch ==> r is None,
{
    if major {
        Some("major")
    } else if minor {
        Some("minor")
    } else if patch {
        Some("patch")
    } else {
        None
    }
}

/// How the bundle argument of `publish bundle` is read.
pub enum BundleSpec {
    /// No argument: the current directory.
    CurrentDirectory,
    /// A bundle ID, resolved against the bundle roots.
    BundleId(String),
    /// A path.
    Path(String),
}

/// Read the bundle argument of `publish bundle`: none means the current
/// directory; a bundle ID (see [`looks_like_bndlid`]) is resolved; anything
/// else is a path.
pub fn resolve_publish_bundle_path(spec: Option<&str>) -> (r: BundleSpec)
    ensures
        spec is None ==> r is CurrentDirectory,
        (spec matches Some(s) && looks_like_bndlid(s@)) ==> (r matches BundleSpec::BundleId(x) && x@
            == spec->Some_0@),
        (spec matches Some(s) && !looks_like_bndlid(s@)) ==> (r matches BundleSpec::Path(x) && x@
            == spec->Some_0@),
{
    match spec {
        None => BundleSpec::CurrentDirectory,
        Some(s) => if is_bndlid(s) {
            BundleSpec::BundleId(s.to_owned())
        } else {
            BundleSpec::Path(s.to_owned())
        },
    }
}

/// The error a failed bundle ID lookup is reported with.
pub fn bundle_lookup_error(error: &EngitError) -> (r: EngitError)
    ensures
        r matches EngitError::Engit(m) && m@ == error_text(*error),
{
    EngitError::Engit(error.describe())
}

/// The error when the current directory cannot be determined.
pub fn current_dir_error(message: &str) -> (r: EngitError)
    ensures
        r matches EngitError::Engit(m) && m@ == "Could not determine current directory: "@ + message@,
{
    let mut m = chars_of("Could not determine current directory: ");
    extend_str(&mut m, message);
    EngitError::Engit(string_of(&m))
}

/// The number of seconds in a day.
pub const SECONDS_PER_DAY: u64 = 86400;

/// `--older-than` days in seconds; too many days to count in seconds is an
/// error.
pub fn older_than_secs(days: Option<u64>) -> (r: Result<Option<u64>, EngitError>)
    ensures
        days is None ==> r matches Ok(None),
        (days matches Some(d) && d * SECONDS_PER_DAY <= u64::MAX) ==> (r matches Ok(Some(s)) && s
            == days->Some_0 * SECONDS_PER_DAY),
        (days matches Some(d) && d * SECONDS_PER_DAY > u64::MAX) ==> (r matches Err(
            EngitError::Cache(m),
        ) && m@ == "The value passed to --older-than-days is too large."@),
{
    match days {
        None => Ok(None),
        Some(d) => match d.checked_mul(SECONDS_PER_DAY) {
            Some(s) => Ok(Some(s)),
            None => Err(
                EngitError::Cache("The value passed to --older-than-days is too large.".to_owned()),
            ),
        },
    }
}

/// The message when no cache directory is known.
pub open spec fn no_cache_dir_text() -> Seq<char> {
    "No cache directory to operate on: ENVOY_DISABLE_BUNDLE_CACHE is set and no --cache-dir was given."@
}

/// The cache directory to work on: the one given, else the default one.
pub fn resolve_cache_dir(explicit: Option<String>, default: Option<String>) -> (r: Result<
    String,
    EngitError,
>)
    ensures
        explicit matches Some(e) ==> (r matches Ok(d) && d@ == e@),
        explicit is None && default is Some ==> (r matches Ok(d) && d@ == default->Some_0@),
        explicit is None && default is None ==> (r matches Err(EngitError::Cache(m)) && m@
            == no_cache_dir_text()),
{
    match explicit {
        Some(e) => Ok(e),
        None => match default {
            Some(d) => Ok(d),
            None => Err(
                EngitError::Cache(
                    "No cache directory to operate on: ENVOY_DISABLE_BUNDLE_CACHE is set and no --cache-dir was given.".to_owned(),
                ),
            ),
        },
    }
}

/// What is printed after a stack publish: the stack's name (the stem of
/// the published file), its version (the directory holding it) and path.
pub open spec fn published_stack_text(path: Seq<char>) -> Seq<Seq<char>> {
    let name = match file_stem(path) {
        Some(n) => n,
        None => Seq::empty(),
    };
    let version = match parent_name(path) {
        Some(v) => v,
        None => Seq::empty(),
    };
    seq!["Published config: "@ + name, "  Version: "@ + version, "  Path:    "@ + path]
}

/// The lines printed after a stack publish (see [`published_stack_text`]).
pub fn published_stack_lines(path: &str) -> (r: Vec<String>)
    ensures
        texts_of(r@) == published_stack_text(path@),
{
    let name = match stack_file_stem(path) {
        Some(n) => n,
        None => String::new(),
    };
    let version = match crate::framework::parent_name_of(path) {
        Some(v) => v,
        None => String::new(),
    };
    let mut a = chars_of("Published config: ");
    extend_str(&mut a, name.as_str());
    let mut b = chars_of("  Version: ");
    extend_str(&mut b, version.as_str());
    let mut c = chars_of("  Path:    ");
    extend_str(&mut c, path);
    let mut out: Vec<String> = Vec::new();
    out.push(string_of(&a));
    out.push(string_of(&b));
    out.push(string_of(&c));
    assert(texts_of(out@) =~= published_stack_text(path@));
    out
}

} // verus!
