//! Interpretation of git command results.
//!
//! Running git is the caller's part: it runs the command that
//! [`git_args`] lists for a [`GitQuery`], passes the outcome through
//! [`finish_git`], and hands the result to the function named after the
//! operation, which computes what the operation returns.

use vstd::prelude::*;

use crate::error::{command_failure_text, EngitError};
use crate::changelog::is_permutation;
use crate::semver::{
    law_order_antisymmetric, law_order_reflexive, law_order_transitive, lemma_fields_order,
    parse_is_undefined, prerelease_key,
    tag_order, version_fields, version_of_fields, version_order, SemVer,
};
use crate::text::{
    chars_eq, chars_of, extend_chars, extend_str, has_prefix, join, lemma_filter_empty,
    lemma_filter_step, lemma_trim_idempotent, lines, lines_of, parse_u64, parsed_u64,
    push_decimal, decimal, slice_chars, starts_with, string_of, trim, trim_chars, trim_str, is_ws,
    is_whitespace, join_chars, lemma_text_order_props,
};

verus! {

// ---------------------------------------------------------------------------
// Running a command
// ---------------------------------------------------------------------------

/// The text a command printed, when it succeeded.
pub open spec fn ok_text(r: Result<String, EngitError>) -> Option<Seq<char>> {
    match r {
        Ok(s) => Some(s@),
        Err(_) => None,
    }
}

/// The outcome of a finished git command: its trimmed standard output on
/// success, otherwise a git error built from its trimmed output.
pub fn finish_git(args: &Vec<String>, success: bool, stdout: &str, stderr: &str) -> (r: Result<
    String,
    EngitError,
>)
    ensures
        success ==> (r matches Ok(o) && o@ == trim(stdout@)),
        !success ==> (r matches Err(EngitError::Git(m)) && m@ == command_failure_text(
            "git"@,
            args@.map_values(|a: String| a@),
            trim(stdout@),
            trim(stderr@),
        )),
{
    let out = trim_str(stdout);
    let err = trim_str(stderr);
    if success {
        Ok(out)
    } else {
        Err(EngitError::git_command(args, out.as_str(), err.as_str()))
    }
}

// ---------------------------------------------------------------------------
// Repository detection
// ---------------------------------------------------------------------------

/// Whether the working directory is inside a git repository, given the
/// result of `git rev-parse --git-dir`.
pub fn is_git_repo(rev_parse: &Result<String, EngitError>) -> (r: bool)
    ensures
        r == rev_parse is Ok,
{
    rev_parse.is_ok()
}

/// `Ok` inside a git repository, otherwise [`EngitError::NotAGitRepo`],
/// given the result of `git rev-parse --git-dir`.
pub fn require_git_repo(rev_parse: &Result<String, EngitError>) -> (r: Result<(), EngitError>)
    ensures
        rev_parse is Ok ==> r is Ok,
        rev_parse is Err ==> r matches Err(EngitError::NotAGitRepo),
{
    if is_git_repo(rev_parse) {
        Ok(())
    } else {
        Err(EngitError::NotAGitRepo)
    }
}

/// The repository root, given the results of `git rev-parse --git-dir` and
/// `git rev-parse --show-toplevel`.
pub fn get_repo_root(rev_parse: &Result<String, EngitError>, toplevel: Result<String, EngitError>) -> (r:
    Result<String, EngitError>)
    ensures
        rev_parse is Err ==> r matches Err(EngitError::NotAGitRepo),
        rev_parse is Ok ==> r == toplevel,
{
    require_git_repo(rev_parse)?;
    toplevel
}

/// The URL of a remote, given the result of `git remote get-url`.
pub fn get_remote_url(result: Result<String, EngitError>) -> (r: Option<String>)
    ensures
        r == result.ok(),
{
    result.ok()
}

/// The nearest tag, given the result of `git describe --tags --abbrev=0`.
pub fn get_latest_tag(result: Result<String, EngitError>) -> (r: Option<String>)
    ensures
        r == result.ok(),
{
    result.ok()
}

// ---------------------------------------------------------------------------
// Lines of output
// ---------------------------------------------------------------------------

/// Each line of `s` without surrounding whitespace.
pub open spec fn trimmed_lines(s: Seq<char>) -> Seq<Seq<char>> {
    lines(s).map_values(|l: Seq<char>| trim(l))
}

/// Non-empty text.
pub open spec fn is_nonblank() -> spec_fn(Seq<char>) -> bool {
    |t: Seq<char>| t.len() > 0
}

/// Non-empty text that is a semantic version.
pub open spec fn is_version_tag() -> spec_fn(Seq<char>) -> bool {
    |t: Seq<char>| t.len() > 0 && version_fields(trim(t)) is Some
}

/// The trimmed, non-empty lines of `s`.
pub open spec fn nonblank_lines(s: Seq<char>) -> Seq<Seq<char>> {
    trimmed_lines(s).filter(is_nonblank())
}

/// The trimmed lines of `s` that are semantic versions, in order.
pub open spec fn version_tags(s: Seq<char>) -> Seq<Seq<char>> {
    trimmed_lines(s).filter(is_version_tag())
}

/// Every line of a tag listing has a defined parse.
pub open spec fn tags_parse_defined(s: Seq<char>) -> bool {
    forall|i: int| 0 <= i < lines(s).len() ==> !parse_is_undefined(trim(#[trigger] lines(s)[i]))
}

/// A tag listing whose lines all have a defined parse (true of a failed
/// command, which lists nothing).
pub open spec fn listing_parse_defined(r: Result<String, EngitError>) -> bool {
    match r {
        Ok(s) => tags_parse_defined(s@),
        Err(_) => true,
    }
}

fn lines_of_str(s: &str) -> (out: Vec<Vec<char>>)
    ensures
        out@.map_values(|p: Vec<char>| p@) == lines(s@),
{
    let cs = chars_of(s);
    lines_of(&cs)
}

fn nonblank_lines_of(s: &str) -> (out: Vec<String>)
    ensures
        out@.map_values(|x: String| x@) == nonblank_lines(s@),
{
    let ls = lines_of_str(s);
    let ghost ts = trimmed_lines(s@);
    let mut out: Vec<String> = Vec::new();
    let mut i: usize = 0;
    proof {
        lemma_filter_empty(ts, is_nonblank());
    }
    assert(ls@.len() == lines(s@).len());
    while i < ls.len()
        invariant
            i <= ls.len(),
            ls@.len() == lines(s@).len(),
            ts == trimmed_lines(s@),
            ls@.map_values(|p: Vec<char>| p@) == lines(s@),
            out@.map_values(|x: String| x@) == ts.take(i as int).filter(is_nonblank()),
        decreases ls.len() - i,
    {
        let t = trim_chars(&ls[i]);
        proof {
            lemma_filter_step(ts, is_nonblank(), i as int);
            assert(ls@[i as int]@ == lines(s@)[i as int]);
            assert(ts[i as int] == t@);
        }
        if t.len() > 0 {
            let ghost before = out@.map_values(|x: String| x@);
            out.push(string_of(&t));
            assert(out@.map_values(|x: String| x@) =~= before.push(t@));
        }
        i = i + 1;
    }
    assert(ts.take(ls.len() as int) =~= ts);
    out
}

/// Whether every line of a tag listing has a defined parse (see
/// [`listing_parse_defined`]).
pub fn listing_is_defined(listing: &Result<String, EngitError>) -> (r: bool)
    ensures
        r == listing_parse_defined(*listing),
{
    match listing {
        Err(_) => true,
        Ok(raw) => tags_are_defined(raw.as_str()),
    }
}

fn tags_are_defined(raw: &str) -> (r: bool)
    ensures
        r == tags_parse_defined(raw@),
{
    let ls = lines_of_str(raw);
    assert(ls@.len() == lines(raw@).len());
    let mut i: usize = 0;
    while i < ls.len()
        invariant
            i <= ls.len(),
            ls@.len() == lines(raw@).len(),
            ls@.map_values(|p: Vec<char>| p@) == lines(raw@),
            forall|k: int| 0 <= k < i ==> !parse_is_undefined(trim(#[trigger] lines(raw@)[k])),
        decreases ls.len() - i,
    {
        let t = trim_chars(&ls[i]);
        assert(ls@[i as int]@ == lines(raw@)[i as int]);
        if !SemVer::parse_is_defined(string_of(&t).as_str()) {
            assert(parse_is_undefined(trim(lines(raw@)[i as int])));
            return false;
        }
        i = i + 1;
    }
    true
}

// ---------------------------------------------------------------------------
// Tags
// ---------------------------------------------------------------------------

/// Some position of `perm` holds `k`.
pub open spec fn placed(perm: Seq<int>, k: int) -> bool {
    exists|i: int| 0 <= i < perm.len() && #[trigger] perm[i] == k
}

/// `out` holds the tags of `input` newest first (by semantic version
/// order), tags of equal version in their input order.
pub open spec fn is_newest_first(input: Seq<Seq<char>>, out: Seq<Seq<char>>) -> bool {
    exists|perm: Seq<int>|
        {
            &&& is_permutation(perm, input.len())
            &&& out.len() == input.len()
            &&& forall|k: int| 0 <= k < input.len() ==> #[trigger] placed(perm, k)
            &&& forall|i: int| 0 <= i < out.len() ==> out[i] == input[#[trigger] perm[i]]
            &&& forall|i: int, j: int|
                0 <= i < j < out.len() ==> tag_order(#[trigger] out[i], #[trigger] out[j]) >= 0
            &&& forall|i: int, j: int|
                0 <= i < j < out.len() && tag_order(out[i], out[j]) == 0 ==> #[trigger] perm[i]
                    < #[trigger] perm[j]
        }
}

/// Every tag is a semantic version whose numbers fit.
pub open spec fn all_versions(tags: Seq<Seq<char>>) -> bool {
    forall|k: int|
        0 <= k < tags.len() ==> !parse_is_undefined(#[trigger] tags[k]) && version_fields(
            trim(tags[k]),
        ) is Some
}

/// Order semantic version tags newest first, keeping tags of equal version
/// in their order.
#[verifier::rlimit(60)]
fn sort_newest_first(tags: Vec<String>) -> (r: Vec<String>)
    requires
        all_versions(tags@.map_values(|t: String| t@)),
    ensures
        is_newest_first(tags@.map_values(|t: String| t@), r@.map_values(|t: String| t@)),
{
    let ghost input = tags@.map_values(|t: String| t@);
    let mut rest = tags;
    let mut out: Vec<String> = Vec::new();
    let mut keys: Vec<SemVer> = Vec::new();
    let ghost mut perm: Seq<int> = Seq::empty();
    let ghost mut i: int = 0;
    proof {
        assert(rest@.map_values(|t: String| t@) =~= input.skip(0));
    }
    while rest.len() > 0
        invariant
            0 <= i <= input.len(),
            rest@.map_values(|t: String| t@) == input.skip(i),
            all_versions(input),
            keys@.len() == out@.len(),
            forall|k: int| 0 <= k < out@.len() ==> (version_fields(trim(#[trigger] out@[k]@)) matches Some(f) && version_of_fields(f, keys@[k])),
            is_permutation(perm, i as nat),
            perm.len() == out@.len(),
            forall|k: int| 0 <= k < i ==> #[trigger] placed(perm, k),
            out@.len() == i,
            forall|k: int| 0 <= k < out@.len() ==> out@[k]@ == input[#[trigger] perm[k]],
            forall|a: int, b: int| 0 <= a < b < out@.len() ==> version_order(#[trigger] keys@[a], #[trigger] keys@[b]) >= 0,
            forall|a: int, b: int| 0 <= a < b < out@.len() && version_order(keys@[a], keys@[b]) == 0 ==> #[trigger] perm[a] < #[trigger] perm[b],
        decreases rest.len(),
    {
        let ghost rest_before = rest@;
        let item = rest.remove(0);
        proof {
            assert(item == rest_before[0]);
            assert(rest_before.map_values(|t: String| t@) == input.skip(i));
            assert(input.skip(i).len() == rest_before.map_values(|t: String| t@).len());
            assert(i < input.len());
            assert(input.skip(i)[0] == input[i]);
            assert(rest_before.map_values(|t: String| t@)[0] == item@);
            assert(item@ == input[i]);
            assert(rest@ =~= rest_before.drop_first());
            assert(rest@.map_values(|t: String| t@) =~= rest_before.map_values(|t: String| t@).drop_first());
            assert(input.skip(i).drop_first() =~= input.skip(i + 1));
        }
        let parsed = SemVer::parse(item.as_str());
        let v = match parsed {
            Ok(v) => v,
            Err(_) => {
                proof {
                    assert(version_fields(trim(input[i])) is Some);
                }
                return out;
            },
        };
        let m = out.len();
        let mut k: usize = 0;
        while k < m && !v.is_newer_than(&keys[k])
            invariant
                k <= m,
                m == keys@.len(),
                forall|a: int| 0 <= a < k ==> version_order(v, #[trigger] keys@[a]) <= 0,
            decreases m - k,
        {
            k = k + 1;
        }
        let ghost old_keys = keys@;
        let ghost old_out = out@;
        let ghost old_perm = perm;
        let ghost n = i;
        proof {
            assert forall|a: int| 0 <= a < k implies version_order(#[trigger] old_keys[a], v) >= 0 by {
                law_order_antisymmetric(v, old_keys[a]);
            }
            if k < m {
                assert(version_order(v, old_keys[k as int]) > 0);
                assert forall|c: int| k <= c < m implies version_order(v, #[trigger] old_keys[c]) > 0 by {
                    if c > k {
                        law_order_antisymmetric(v, old_keys[k as int]);
                        law_order_antisymmetric(old_keys[k as int], old_keys[c]);
                        law_order_antisymmetric(v, old_keys[c]);
                        law_order_transitive(old_keys[c], old_keys[k as int], v);
                    }
                }
            }
        }
        out.insert(k, item);
        keys.insert(k, v);
        proof {
            perm = old_perm.insert(k as int, n);
            assert forall|a: int| 0 <= a < out@.len() implies out@[a]@ == input[#[trigger] perm[a]] by {
                if a < k {
                    assert(out@[a] == old_out[a]);
                } else if a > k {
                    assert(out@[a] == old_out[a - 1]);
                    assert(perm[a] == old_perm[a - 1]);
                }
            }
            assert forall|a: int| 0 <= a < out@.len() implies (version_fields(trim(#[trigger] out@[a]@)) matches Some(f) && version_of_fields(f, keys@[a])) by {
                if a < k {
                    assert(out@[a] == old_out[a]);
                    assert(keys@[a] == old_keys[a]);
                } else if a > k {
                    assert(out@[a] == old_out[a - 1]);
                    assert(keys@[a] == old_keys[a - 1]);
                }
            }
            assert forall|a: int, b: int| 0 <= a < b < out@.len() implies version_order(#[trigger] keys@[a], #[trigger] keys@[b]) >= 0 by {
                if b < k {
                    assert(keys@[a] == old_keys[a] && keys@[b] == old_keys[b]);
                } else if b == k {
                    assert(keys@[a] == old_keys[a]);
                } else if a < k {
                    assert(keys@[a] == old_keys[a] && keys@[b] == old_keys[b - 1]);
                } else if a == k {
                    assert(keys@[b] == old_keys[b - 1]);
                    law_order_antisymmetric(v, old_keys[b - 1]);
                } else {
                    assert(keys@[a] == old_keys[a - 1] && keys@[b] == old_keys[b - 1]);
                }
            }
            assert forall|a: int, b: int| 0 <= a < b < out@.len() && version_order(keys@[a], keys@[b]) == 0 implies #[trigger] perm[a] < #[trigger] perm[b] by {
                if b < k {
                } else if b == k {
                    assert(old_perm[a] < n);
                } else if a < k {
                } else if a == k {
                    assert(keys@[b] == old_keys[b - 1]);
                } else {
                }
            }
            assert forall|a: int, b: int| 0 <= a < b < perm.len() implies perm[a] != perm[b] by {
                if a < k && b > k {
                    assert(perm[b] == old_perm[b - 1]);
                } else if a > k {
                    assert(perm[a] == old_perm[a - 1] && perm[b] == old_perm[b - 1]);
                } else if a == k {
                    assert(perm[b] == old_perm[b - 1]);
                    assert(old_perm[b - 1] < n);
                } else if b == k {
                    assert(old_perm[a] < n);
                }
            }
            assert forall|q: int| 0 <= q < n + 1 implies #[trigger] placed(perm, q) by {
                if q == n {
                    assert(perm[k as int] == n);
                } else {
                    assert(placed(old_perm, q));
                    let a0 = choose|a: int| 0 <= a < old_perm.len() && old_perm[a] == q;
                    if a0 < k {
                        assert(perm[a0] == q);
                    } else {
                        assert(perm[a0 + 1] == q);
                    }
                }
            }
            assert forall|a: int| 0 <= a < perm.len() implies 0 <= #[trigger] perm[a] < n + 1 by {
                if a < k {
                } else if a > k {
                    assert(perm[a] == old_perm[a - 1]);
                }
            }
            i = i + 1;
        }
    }
    proof {
        assert(i == input.len()) by {
            if i < input.len() {
                assert(input.skip(i).len() > 0);
            }
        }
        let ov = out@.map_values(|t: String| t@);
        assert forall|a: int, b: int| 0 <= a < b < ov.len() implies tag_order(#[trigger] ov[a], #[trigger] ov[b]) >= 0
            && (tag_order(ov[a], ov[b]) == 0 ==> perm[a] < perm[b]) by {
            let fa = version_fields(trim(out@[a]@))->0;
            let fb = version_fields(trim(out@[b]@))->0;
            lemma_fields_order(fa, keys@[a], fb, keys@[b]);
        }
        assert(forall|k: int| 0 <= k < ov.len() ==> ov[k] == input[#[trigger] perm[k]]);
        assert(is_permutation(perm, input.len()));
    }
    out
}

/// The semantic version tags of a tag listing, in listed order.
fn version_tags_of(listing: Result<String, EngitError>) -> (r: Vec<String>)
    requires
        listing_parse_defined(listing),
    ensures
        r@.map_values(|x: String| x@) == match listing {
            Ok(s) => version_tags(s@),
            Err(_) => Seq::empty(),
        },
        all_versions(r@.map_values(|x: String| x@)),
{
    let raw = match listing {
        Ok(s) => s,
        Err(_) => {
            let r: Vec<String> = Vec::new();
            assert(r@.map_values(|x: String| x@) =~= Seq::<Seq<char>>::empty());
            return r;
        },
    };
    let ls = lines_of_str(raw.as_str());
    let ghost ts = trimmed_lines(raw@);
    let mut out: Vec<String> = Vec::new();
    let mut i: usize = 0;
    proof {
        lemma_filter_empty(ts, is_version_tag());
    }
    assert(ls@.len() == lines(raw@).len());
    while i < ls.len()
        invariant
            i <= ls.len(),
            ls@.len() == lines(raw@).len(),
            ts == trimmed_lines(raw@),
            tags_parse_defined(raw@),
            ls@.map_values(|p: Vec<char>| p@) == lines(raw@),
            out@.map_values(|x: String| x@) == ts.take(i as int).filter(is_version_tag()),
            all_versions(out@.map_values(|x: String| x@)),
        decreases ls.len() - i,
    {
        let t = trim_chars(&ls[i]);
        proof {
            lemma_filter_step(ts, is_version_tag(), i as int);
            assert(ls@[i as int]@ == lines(raw@)[i as int]);
            assert(ts[i as int] == t@);
            lemma_trim_idempotent(lines(raw@)[i as int]);
            assert(!parse_is_undefined(t@));
        }
        if t.len() > 0 {
            let tag = string_of(&t);
            let parsed = SemVer::parse(tag.as_str());
            if parsed.is_ok() {
                let ghost before = out@.map_values(|x: String| x@);
                out.push(tag);
                assert(out@.map_values(|x: String| x@) =~= before.push(t@));
                assert(all_versions(out@.map_values(|x: String| x@))) by {
                    let ov = out@.map_values(|x: String| x@);
                    assert forall|k: int| 0 <= k < ov.len() implies !parse_is_undefined(#[trigger] ov[k]) && version_fields(trim(ov[k])) is Some by {
                        if k < before.len() {
                            assert(ov[k] == before[k]);
                        }
                    }
                }
            }
        }
        i = i + 1;
    }
    assert(ts.take(ls.len() as int) =~= ts);
    out
}

/// Every version text is as new as itself.
proof fn lemma_tag_order_reflexive(a: Seq<char>)
    ensures
        tag_order(a, a) == 0,
{
    let f = version_fields(trim(a))->0;
    if let Some(p) = f.3 {
        lemma_text_order_props(prerelease_key(p).0, prerelease_key(p).0);
    }
}

/// Tags sorted newest first start with the newest: the first sorted tag is
/// at least as new as every listed tag. A bump, which applies to the first
/// of the sorted tags, so applies to the newest.
pub proof fn law_sorted_tags_start_with_the_newest(input: Seq<Seq<char>>, sorted: Seq<Seq<char>>)
    requires
        is_newest_first(input, sorted),
        sorted.len() > 0,
    ensures
        forall|k: int| 0 <= k < input.len() ==> tag_order(sorted[0], #[trigger] input[k]) >= 0,
{
    let perm = choose|perm: Seq<int>|
        {
            &&& is_permutation(perm, input.len())
            &&& sorted.len() == input.len()
            &&& forall|k: int| 0 <= k < input.len() ==> #[trigger] placed(perm, k)
            &&& forall|i: int| 0 <= i < sorted.len() ==> sorted[i] == input[#[trigger] perm[i]]
            &&& forall|i: int, j: int|
                0 <= i < j < sorted.len() ==> tag_order(#[trigger] sorted[i], #[trigger] sorted[j]) >= 0
            &&& forall|i: int, j: int|
                0 <= i < j < sorted.len() && tag_order(sorted[i], sorted[j]) == 0 ==> #[trigger] perm[i]
                    < #[trigger] perm[j]
        };
    assert forall|k: int| 0 <= k < input.len() implies tag_order(sorted[0], #[trigger] input[k]) >= 0 by {
        assert(placed(perm, k));
        let i = choose|i: int| 0 <= i < perm.len() && perm[i] == k;
        assert(sorted[i] == input[k]);
        if i == 0 {
            lemma_tag_order_reflexive(sorted[0]);
        } else {
            assert(tag_order(sorted[0], sorted[i]) >= 0);
        }
    }
}

/// Swapping two version texts negates their order.
proof fn lemma_tag_order_antisymmetric(a: Seq<char>, b: Seq<char>)
    ensures
        tag_order(a, b) == -tag_order(b, a),
{
    let f = version_fields(trim(a))->0;
    let g = version_fields(trim(b))->0;
    if let (Some(x), Some(y)) = (f.3, g.3) {
        lemma_text_order_props(prerelease_key(x).0, prerelease_key(y).0);
    }
}

/// The newest tag is the first of the tags sorted newest first: the latest
/// tag (see [`get_latest_semver_tag`]) is the first of the sorted tags (see
/// [`get_sorted_semver_tags`]).
pub proof fn law_latest_is_first_sorted(input: Seq<Seq<char>>, sorted: Seq<Seq<char>>)
    requires
        is_newest_first(input, sorted),
        sorted.len() > 0,
    ensures
        exists|k: int| is_first_newest(input, k),
        sorted[0] == newest_tag(input),
{
    let perm = choose|perm: Seq<int>|
        {
            &&& is_permutation(perm, input.len())
            &&& sorted.len() == input.len()
            &&& forall|k: int| 0 <= k < input.len() ==> #[trigger] placed(perm, k)
            &&& forall|i: int| 0 <= i < sorted.len() ==> sorted[i] == input[#[trigger] perm[i]]
            &&& forall|i: int, j: int|
                0 <= i < j < sorted.len() ==> tag_order(#[trigger] sorted[i], #[trigger] sorted[j]) >= 0
            &&& forall|i: int, j: int|
                0 <= i < j < sorted.len() && tag_order(sorted[i], sorted[j]) == 0 ==> #[trigger] perm[i]
                    < #[trigger] perm[j]
        };
    let k0 = perm[0];
    assert(sorted[0] == input[k0]);
    assert forall|j: int| 0 <= j < input.len() implies tag_order(input[k0], #[trigger] input[j]) >= 0 by {
        assert(placed(perm, j));
        let i = choose|i: int| 0 <= i < perm.len() && perm[i] == j;
        assert(sorted[i] == input[j]);
        if i == 0 {
            lemma_tag_order_reflexive(sorted[0]);
        } else {
            assert(tag_order(sorted[0], sorted[i]) >= 0);
        }
    }
    assert forall|j: int| 0 <= j < k0 implies tag_order(input[k0], #[trigger] input[j]) > 0 by {
        assert(placed(perm, j));
        let i = choose|i: int| 0 <= i < perm.len() && perm[i] == j;
        assert(sorted[i] == input[j]);
        assert(i != 0);
        assert(tag_order(sorted[0], sorted[i]) >= 0);
        if tag_order(sorted[0], sorted[i]) == 0 {
            assert(perm[0] < perm[i]);
        }
    }
    assert(is_first_newest(input, k0));
    let k = choose|k: int| is_first_newest(input, k);
    assert(k == k0) by {
        lemma_tag_order_antisymmetric(input[k], input[k0]);
        if k < k0 {
            assert(tag_order(input[k0], input[k]) > 0);
            assert(tag_order(input[k], input[k0]) >= 0);
        } else if k > k0 {
            assert(tag_order(input[k], input[k0]) > 0);
            assert(tag_order(input[k0], input[k]) >= 0);
        }
    }
}

/// All semantic version tags, given the result of `git tag --list`,
/// newest first: a tag listed earlier comes first among tags of equal
/// version.
pub fn get_sorted_semver_tags(listing: Result<String, EngitError>) -> (r: Vec<String>)
    requires
        listing_parse_defined(listing),
    ensures
        is_newest_first(
            match listing {
                Ok(s) => version_tags(s@),
                Err(_) => Seq::empty(),
            },
            r@.map_values(|x: String| x@),
        ),
{
    let found = version_tags_of(listing);
    sort_newest_first(found)
}

/// `k` is the first of the tags whose version is the greatest.
pub open spec fn is_first_newest(tags: Seq<Seq<char>>, k: int) -> bool {
    &&& 0 <= k < tags.len()
    &&& forall|j: int| 0 <= j < tags.len() ==> tag_order(tags[k], #[trigger] tags[j]) >= 0
    &&& forall|j: int| 0 <= j < k ==> tag_order(tags[k], #[trigger] tags[j]) > 0
}

/// The newest tag: the first of those whose version is the greatest.
pub open spec fn newest_tag(tags: Seq<Seq<char>>) -> Seq<char> {
    tags[choose|k: int| is_first_newest(tags, k)]
}

/// The newest semantic version tag, given the result of `git tag --list`:
/// the greatest version listed (the first listed among equal ones), parsed.
pub fn get_latest_semver_tag(listing: Result<String, EngitError>) -> (r: Option<SemVer>)
    requires
        listing_parse_defined(listing),
    ensures
        match listing {
            Ok(s) => if version_tags(s@).len() > 0 {
                &&& exists|k: int| is_first_newest(version_tags(s@), k)
                &&& r matches Some(v) && version_fields(trim(newest_tag(version_tags(s@)))) matches Some(f)
                    && version_of_fields(f, v)
            } else {
                r is None
            },
            Err(_) => r is None,
        },
{
    let tags = version_tags_of(listing);
    let ghost tv = tags@.map_values(|x: String| x@);
    if tags.len() == 0 {
        return None;
    }
    assert(tv[0] == tags@[0]@);
    let mut best: SemVer = match SemVer::parse(tags[0].as_str()) {
        Ok(v) => v,
        Err(_) => return None,
    };
    let mut b: usize = 0;
    let ghost mut ks: Seq<SemVer> = seq![best];
    proof {
        law_order_reflexive(best);
        assert(ks[0] == best);
    }
    let mut i: usize = 1;
    while i < tags.len()
        invariant
            1 <= i <= tags.len(),
            tv == tags@.map_values(|x: String| x@),
            all_versions(tv),
            ks.len() == i,
            forall|j: int| 0 <= j < i ==> (version_fields(trim(#[trigger] tv[j])) matches Some(f) && version_of_fields(f, ks[j])),
            b < i,
            ks[b as int] == best,
            forall|j: int| 0 <= j < i ==> version_order(best, #[trigger] ks[j]) >= 0,
            forall|j: int| 0 <= j < b ==> version_order(best, #[trigger] ks[j]) > 0,
        decreases tags.len() - i,
    {
        assert(tv[i as int] == tags@[i as int]@);
        let w = match SemVer::parse(tags[i].as_str()) {
            Ok(w) => w,
            Err(_) => return None,
        };
        proof {
            ks = ks.push(w);
        }
        if w.is_newer_than(&best) {
            proof {
                assert forall|j: int| 0 <= j < i + 1 implies version_order(w, #[trigger] ks[j]) >= 0
                    && (j < i + 1 - 1 ==> version_order(w, ks[j]) > 0) by {
                    if j < i {
                        law_order_antisymmetric(best, ks[j]);
                        law_order_antisymmetric(w, best);
                        law_order_transitive(ks[j], best, w);
                        law_order_antisymmetric(w, ks[j]);
                    } else {
                        law_order_reflexive(w);
                    }
                }
            }
            best = w;
            b = i;
        } else {
            proof {
                law_order_antisymmetric(w, best);
            }
        }
        i = i + 1;
    }
    proof {
        let s = ok_text(listing)->0;
        assert(tv == version_tags(s));
        assert(is_first_newest(tv, b as int)) by {
            assert forall|j: int| 0 <= j < tv.len() implies tag_order(tv[b as int], #[trigger] tv[j]) >= 0 by {
                lemma_fields_order(version_fields(trim(tv[b as int]))->0, ks[b as int], version_fields(trim(tv[j]))->0, ks[j]);
            }
            assert forall|j: int| 0 <= j < b implies tag_order(tv[b as int], #[trigger] tv[j]) > 0 by {
                lemma_fields_order(version_fields(trim(tv[b as int]))->0, ks[b as int], version_fields(trim(tv[j]))->0, ks[j]);
            }
        }
        let k = choose|k: int| is_first_newest(tv, k);
        assert(k == b) by {
            lemma_fields_order(version_fields(trim(tv[b as int]))->0, ks[b as int], version_fields(trim(tv[k]))->0, ks[k]);
            lemma_fields_order(version_fields(trim(tv[k]))->0, ks[k], version_fields(trim(tv[b as int]))->0, ks[b as int]);
            law_order_antisymmetric(ks[k], ks[b as int]);
        }
    }
    Some(best)
}

/// Whether a tag exists, given the result of `git tag --list <tag>`.
pub fn tag_exists(result: Result<String, EngitError>) -> (r: bool)
    ensures
        r == (result matches Ok(s) && trim(s@).len() > 0),
{
    match result {
        Ok(s) => {
            let t = trim_str(s.as_str());
            let c = chars_of(t.as_str());
            c.len() > 0
        },
        Err(_) => false,
    }
}

/// The annotation of an annotated tag, given the results of
/// `git cat-file -t <tag>` and
/// `git for-each-ref refs/tags/<tag> --format=%(contents)`: the trimmed body
/// when the object is a tag and the body is not empty.
pub fn get_tag_annotation(object_type: Result<String, EngitError>, contents: Result<
    String,
    EngitError,
>) -> (r: Option<String>)
    ensures
        r matches Some(a) ==> a@ == trim(ok_text(contents)->0),
        r is Some <==> (ok_text(object_type) == Some("tag"@) && contents is Ok && trim(
            ok_text(contents)->0,
        ).len() > 0),
{
    let ty = match object_type {
        Ok(t) => t,
        Err(_) => return None,
    };
    let tyc = chars_of(ty.as_str());
    let tag = chars_of("tag");
    if !chars_eq(&tyc, &tag) {
        return None;
    }
    let body = match contents {
        Ok(b) => b,
        Err(_) => return None,
    };
    let t = trim_str(body.as_str());
    let tc = chars_of(t.as_str());
    if tc.len() == 0 {
        None
    } else {
        Some(t)
    }
}

/// `Ok(())` when a command succeeded, else its error.
fn discard_output(result: Result<String, EngitError>) -> (r: Result<(), EngitError>)
    ensures
        result is Ok ==> r is Ok,
        result matches Err(e) ==> r == Err::<(), EngitError>(e),
{
    match result {
        Ok(_) => Ok(()),
        Err(e) => Err(e),
    }
}

/// The outcome of creating an annotated tag (`git tag -a <tag> -m <message>`).
pub fn create_tag(result: Result<String, EngitError>) -> (r: Result<(), EngitError>)
    ensures
        result is Ok ==> r is Ok,
        result matches Err(e) ==> r == Err::<(), EngitError>(e),
{
    discard_output(result)
}

/// The outcome of pushing a tag (`git push <remote> <tag>`).
pub fn push_tag(result: Result<String, EngitError>) -> (r: Result<(), EngitError>)
    ensures
        result is Ok ==> r is Ok,
        result matches Err(e) ==> r == Err::<(), EngitError>(e),
{
    discard_output(result)
}

/// The outcome of pushing a branch and a tag together
/// (`git push <remote> <branch> <tag>`).
pub fn push_branch_and_tag(result: Result<String, EngitError>) -> (r: Result<(), EngitError>)
    ensures
        result is Ok ==> r is Ok,
        result matches Err(e) ==> r == Err::<(), EngitError>(e),
{
    discard_output(result)
}

/// The outcome of deleting a local branch (`git branch -d|-D <branch>`).
pub fn delete_local_branch(result: Result<String, EngitError>) -> (r: Result<(), EngitError>)
    ensures
        result is Ok ==> r is Ok,
        result matches Err(e) ==> r == Err::<(), EngitError>(e),
{
    discard_output(result)
}

/// The outcome of pruning stale remote-tracking refs
/// (`git remote prune <remote>`).
pub fn prune_remote(result: Result<String, EngitError>) -> (r: Result<(), EngitError>)
    ensures
        result is Ok ==> r is Ok,
        result matches Err(e) ==> r == Err::<(), EngitError>(e),
{
    discard_output(result)
}

/// The output of `git pull`.
pub fn pull(result: Result<String, EngitError>) -> (r: Result<String, EngitError>)
    ensures
        r == result,
{
    result
}

// ---------------------------------------------------------------------------
// Commits and branches
// ---------------------------------------------------------------------------

/// Commit subjects since a ref, newest first, given the result of
/// `git log <ref>..HEAD --pretty=format:%s --no-merges`.
pub fn get_commits_since(log: Result<String, EngitError>) -> (r: Vec<String>)
    ensures
        r@.map_values(|x: String| x@) == match log {
            Ok(s) => nonblank_lines(s@),
            Err(_) => Seq::empty(),
        },
{
    match log {
        Ok(s) => nonblank_lines_of(s.as_str()),
        Err(_) => {
            let r: Vec<String> = Vec::new();
            assert(r@.map_values(|x: String| x@) =~= Seq::<Seq<char>>::empty());
            r
        },
    }
}

/// All commit subjects, given the result of `git log --pretty=format:%s`.
pub fn get_all_commits(log: Result<String, EngitError>) -> (r: Vec<String>)
    ensures
        r@.map_values(|x: String| x@) == match log {
            Ok(s) => nonblank_lines(s@),
            Err(_) => Seq::empty(),
        },
{
    get_commits_since(log)
}

/// The checked-out branch, given the result of
/// `git rev-parse --abbrev-ref HEAD`; `None` for a detached `HEAD`.
pub fn get_current_branch(result: Result<String, EngitError>) -> (r: Option<String>)
    ensures
        r == match result {
            Ok(s) => if s@ == "HEAD"@ { None } else { Some(s) },
            Err(_) => None,
        },
{
    match result {
        Ok(s) => {
            let c = chars_of(s.as_str());
            let head = chars_of("HEAD");
            if chars_eq(&c, &head) {
                None
            } else {
                Some(s)
            }
        },
        Err(_) => None,
    }
}

/// The subject and short hash of the last commit, given the result of
/// `git log --oneline -1`; empty when the command failed.
pub fn get_last_commit_summary(result: Result<String, EngitError>) -> (r: String)
    ensures
        r@ == match result {
            Ok(s) => s@,
            Err(_) => Seq::empty(),
        },
{
    match result {
        Ok(s) => s,
        Err(_) => String::new(),
    }
}

/// `s` without its leading `c` characters.
pub open spec fn strip_leading(s: Seq<char>, c: char) -> Seq<char>
    decreases s.len(),
{
    if s.len() > 0 && s[0] == c {
        strip_leading(s.drop_first(), c)
    } else {
        s
    }
}

proof fn lemma_strip_leading_skip(s: Seq<char>, c: char, k: int)
    requires
        0 <= k <= s.len(),
        forall|i: int| 0 <= i < k ==> s[i] == c,
        k == s.len() || s[k] != c,
    ensures
        strip_leading(s, c) == s.skip(k),
    decreases k,
{
    if k == 0 {
        assert(s.skip(0) =~= s);
    } else {
        lemma_strip_leading_skip(s.drop_first(), c, k - 1);
        assert(s.drop_first().skip(k - 1) =~= s.skip(k));
    }
}

fn strip_leading_chars(s: &Vec<char>, c: char) -> (r: Vec<char>)
    ensures
        r@ == strip_leading(s@, c),
{
    let mut i: usize = 0;
    while i < s.len() && s[i] == c
        invariant
            i <= s.len(),
            forall|k: int| 0 <= k < i ==> s@[k] == c,
        decreases s.len() - i,
    {
        i = i + 1;
    }
    proof {
        lemma_strip_leading_skip(s@, c, i as int);
        assert(s@.subrange(i as int, s@.len() as int) =~= s@.skip(i as int));
    }
    slice_chars(s, i, s.len())
}

/// A branch listing line without its current-branch marker and spacing.
pub open spec fn branch_name(line: Seq<char>) -> Seq<char> {
    trim(strip_leading(line, '*'))
}

/// The branch names listed by `git branch`, in order.
pub open spec fn listed_branches(s: Seq<char>) -> Seq<Seq<char>> {
    lines(s).map_values(|l: Seq<char>| branch_name(l)).filter(is_nonblank())
}

/// Branch names from the output of `git branch` or `git branch --merged`.
pub fn parse_branch_list(s: &str) -> (out: Vec<String>)
    ensures
        out@.map_values(|x: String| x@) == listed_branches(s@),
{
    let ls = lines_of_str(s);
    let ghost ts = lines(s@).map_values(|l: Seq<char>| branch_name(l));
    let mut out: Vec<String> = Vec::new();
    let mut i: usize = 0;
    proof {
        lemma_filter_empty(ts, is_nonblank());
    }
    assert(ls@.len() == lines(s@).len());
    while i < ls.len()
        invariant
            i <= ls.len(),
            ls@.len() == lines(s@).len(),
            ts == lines(s@).map_values(|l: Seq<char>| branch_name(l)),
            ls@.map_values(|p: Vec<char>| p@) == lines(s@),
            out@.map_values(|x: String| x@) == ts.take(i as int).filter(is_nonblank()),
        decreases ls.len() - i,
    {
        let stripped = strip_leading_chars(&ls[i], '*');
        let t = trim_chars(&stripped);
        proof {
            lemma_filter_step(ts, is_nonblank(), i as int);
            assert(ls@[i as int]@ == lines(s@)[i as int]);
            assert(ts[i as int] == t@);
        }
        if t.len() > 0 {
            let ghost before = out@.map_values(|x: String| x@);
            out.push(string_of(&t));
            assert(out@.map_values(|x: String| x@) =~= before.push(t@));
        }
        i = i + 1;
    }
    assert(ts.take(ls.len() as int) =~= ts);
    out
}

/// Local branches merged into the current branch, given the result of
/// `git branch --merged`.
pub fn get_merged_branches(result: Result<String, EngitError>) -> (r: Vec<String>)
    ensures
        r@.map_values(|x: String| x@) == match result {
            Ok(s) => listed_branches(s@),
            Err(_) => Seq::empty(),
        },
{
    match result {
        Ok(s) => parse_branch_list(s.as_str()),
        Err(_) => {
            let r: Vec<String> = Vec::new();
            assert(r@.map_values(|x: String| x@) =~= Seq::<Seq<char>>::empty());
            r
        },
    }
}

/// `s` without the prefix `p`, when it has it.
pub open spec fn without_prefix(s: Seq<char>, p: Seq<char>) -> Seq<char> {
    if has_prefix(s, p) {
        s.skip(p.len() as int)
    } else {
        s
    }
}

/// The remote-tracking branch `<remote>/<branch>`, given the results of
/// `git config branch.<name>.remote` and `git config branch.<name>.merge`;
/// the merge ref loses a `refs/heads/` prefix.
pub fn get_remote_tracking_branch(remote: Result<String, EngitError>, merge: Result<
    String,
    EngitError,
>) -> (r: Option<String>)
    ensures
        match (remote, merge) {
            (Ok(rm), Ok(mg)) => r matches Some(t) && t@ == rm@ + seq!['/'] + without_prefix(
                mg@,
                "refs/heads/"@,
            ),
            _ => r is None,
        },
{
    let rm = match remote {
        Ok(v) => v,
        Err(_) => return None,
    };
    let mg = match merge {
        Ok(v) => v,
        Err(_) => return None,
    };
    let mc = chars_of(mg.as_str());
    let prefix = chars_of("refs/heads/");
    let branch = if starts_with(&mc, &prefix) {
        slice_chars(&mc, prefix.len(), mc.len())
    } else {
        slice_chars(&mc, 0, mc.len())
    };
    proof {
        assert(mc@.subrange(prefix.len() as int, mc@.len() as int) =~= mc@.skip(prefix@.len() as int));
        assert(mc@.subrange(0, mc@.len() as int) =~= mc@);
    }
    let mut out = chars_of(rm.as_str());
    out.push('/');
    extend_chars(&mut out, &branch);
    Some(string_of(&out))
}

// ---------------------------------------------------------------------------
// Ahead / behind summary
// ---------------------------------------------------------------------------

/// The whitespace-separated words of `s` (`str::split_whitespace`): a
/// non-whitespace character joins the word of the character after it when
/// that one is not whitespace either.
pub open spec fn words(s: Seq<char>) -> Seq<Seq<char>>
    decreases s.len(),
{
    if s.len() == 0 {
        Seq::empty()
    } else if is_ws(s[0]) {
        words(s.drop_first())
    } else {
        let r = words(s.drop_first());
        if s.len() > 1 && !is_ws(s[1]) {
            r.update(0, seq![s[0]] + r[0])
        } else {
            seq![seq![s[0]]] + r
        }
    }
}

proof fn lemma_words_nonempty(s: Seq<char>)
    requires
        s.len() > 0,
        !is_ws(s[0]),
    ensures
        words(s).len() > 0,
    decreases s.len(),
{
    if s.len() > 1 && !is_ws(s[1]) {
        lemma_words_nonempty(s.drop_first());
    }
}

fn words_of(s: &Vec<char>) -> (out: Vec<Vec<char>>)
    ensures
        out@.map_values(|p: Vec<char>| p@) == words(s@),
{
    let mut out: Vec<Vec<char>> = Vec::new();
    let mut i: usize = s.len();
    assert(s@.skip(s.len() as int) =~= Seq::<char>::empty());
    assert(out@.map_values(|p: Vec<char>| p@) =~= Seq::<Seq<char>>::empty());
    while i > 0
        invariant
            i <= s.len(),
            out@.map_values(|p: Vec<char>| p@) == words(s@.skip(i as int)),
        decreases i,
    {
        let j = i - 1;
        let c = s[j];
        let ghost rest = s@.skip(i as int);
        let ghost here = s@.skip(j as int);
        assert(here.drop_first() =~= rest);
        assert(here[0] == c);
        if is_whitespace(c) {
        } else if i < s.len() && !is_whitespace(s[i]) {
            proof {
                assert(rest[0] == s@[i as int]);
                lemma_words_nonempty(rest);
                assert(here[1] == s@[i as int]);
            }
            let ghost before = out@.map_values(|p: Vec<char>| p@);
            let mut w: Vec<char> = Vec::new();
            w.push(c);
            extend_chars(&mut w, &out[0]);
            out.set(0, w);
            assert(out@.map_values(|p: Vec<char>| p@) =~= before.update(0, seq![c] + before[0]));
        } else {
            proof {
                if here.len() > 1 {
                    assert(here[1] == s@[i as int]);
                }
            }
            let ghost before = out@.map_values(|p: Vec<char>| p@);
            let mut w: Vec<char> = Vec::new();
            w.push(c);
            out.insert(0, w);
            assert(out@.map_values(|p: Vec<char>| p@) =~= seq![seq![c]] + before);
        }
        i = j;
    }
    assert(s@.skip(0) =~= s@);
    out
}

/// The ahead / behind summary for the two counts that
/// `git rev-list --left-right --count <upstream>...HEAD` prints (behind
/// first): `ahead N` and `behind M` for the non-zero counts, joined with
/// `, `; empty when the output is not exactly two numbers.
pub open spec fn comparison_text(s: Seq<char>) -> Seq<char> {
    let w = words(s);
    if w.len() != 2 {
        Seq::empty()
    } else {
        match (parsed_u64(w[0]), parsed_u64(w[1])) {
            (Some(behind), Some(ahead)) => {
                let a: Seq<Seq<char>> = if ahead > 0 {
                    seq!["ahead "@ + decimal(ahead as nat)]
                } else {
                    Seq::empty()
                };
                let b: Seq<Seq<char>> = if behind > 0 {
                    seq!["behind "@ + decimal(behind as nat)]
                } else {
                    Seq::empty()
                };
                join(a + b, ", "@)
            },
            _ => Seq::empty(),
        }
    }
}

/// A human-readable ahead / behind summary, given the result of
/// `git rev-list --left-right --count <remote>/<branch>...HEAD`.
pub fn get_branch_comparison(result: Result<String, EngitError>) -> (r: String)
    ensures
        r@ == match result {
            Ok(s) => comparison_text(s@),
            Err(_) => Seq::empty(),
        },
{
    let raw = match result {
        Ok(s) => s,
        Err(_) => return String::new(),
    };
    let cs = chars_of(raw.as_str());
    let ws = words_of(&cs);
    let ghost wv = ws@.map_values(|p: Vec<char>| p@);
    if ws.len() != 2 {
        return String::new();
    }
    assert(wv[0] == ws@[0]@ && wv[1] == ws@[1]@);
    let behind = parse_u64(&ws[0]);
    let ahead = parse_u64(&ws[1]);
    let (behind, ahead) = match (behind, ahead) {
        (Some(b), Some(a)) => (b, a),
        _ => return String::new(),
    };
    let mut pieces: Vec<Vec<char>> = Vec::new();
    if ahead > 0 {
        let mut p: Vec<char> = Vec::new();
        extend_str(&mut p, "ahead ");
        push_decimal(&mut p, ahead);
        pieces.push(p);
    }
    let ghost after_ahead = pieces@.map_values(|p: Vec<char>| p@);
    if behind > 0 {
        let mut p: Vec<char> = Vec::new();
        extend_str(&mut p, "behind ");
        push_decimal(&mut p, behind);
        pieces.push(p);
    }
    let sep = chars_of(", ");
    let joined = join_chars(&pieces, &sep);
    proof {
        let a: Seq<Seq<char>> = if ahead > 0 {
            seq!["ahead "@ + decimal(ahead as nat)]
        } else {
            Seq::empty()
        };
        let b: Seq<Seq<char>> = if behind > 0 {
            seq!["behind "@ + decimal(behind as nat)]
        } else {
            Seq::empty()
        };
        assert(after_ahead =~= a);
        assert(pieces@.map_values(|p: Vec<char>| p@) =~= a + b);
    }
    string_of(&joined)
}

// ---------------------------------------------------------------------------
// The commands behind each query
// ---------------------------------------------------------------------------

/// A git command the library interprets the result of.
pub enum GitQuery {
    /// `rev-parse --git-dir`: whether the directory is in a repository.
    GitDir,
    /// `rev-parse --show-toplevel`: the repository root.
    ShowToplevel,
    /// `remote get-url <remote>`.
    RemoteUrl { remote: String },
    /// `describe --tags --abbrev=0`: the latest tag.
    LatestTag,
    /// `tag --list --sort=-version:refname`: all tags, newest first.
    TagList,
    /// `tag -a <tag> -m <message>`.
    CreateTag { tag: String, message: String },
    /// `cat-file -t <tag>`: the type of the tag's object.
    ObjectType { tag: String },
    /// `for-each-ref refs/tags/<tag> --format=%(contents)`.
    TagContents { tag: String },
    /// `push <remote> <tag>`.
    PushTag { tag: String, remote: String },
    /// `push <remote> <branch> <tag>`.
    PushBranchAndTag { branch: String, tag: String, remote: String },
    /// `log <ref>..HEAD --pretty=format:%s --no-merges`.
    CommitsSince { ref_name: String },
    /// `log --pretty=format:%s`.
    AllCommits,
    /// `rev-parse --abbrev-ref HEAD`.
    CurrentBranch,
    /// `rev-list --left-right --count <remote>/<branch>...HEAD`.
    BranchComparison { branch: String, remote: String },
    /// `log --oneline -1`.
    LastCommit,
    /// `tag --list <tag>`.
    TagExists { tag: String },
    /// `pull [--rebase] <remote>`.
    Pull { remote: String, rebase: bool },
    /// `branch --merged`.
    MergedBranches,
    /// `branch -d|-D <branch>`.
    DeleteBranch { branch: String, force: bool },
    /// `remote prune <remote>`.
    PruneRemote { remote: String },
    /// `config branch.<branch>.remote`.
    BranchRemote { branch: String },
    /// `config branch.<branch>.merge`.
    BranchMerge { branch: String },
    /// `remote prune <remote> --dry-run`.
    PruneRemotePreview { remote: String },
    /// `branch`: the local branches.
    Branches,
    /// `show-ref --verify --quiet <ref>`: whether a ref exists.
    VerifyRef { ref_name: String },
}

/// The arguments of the git command behind a query.
pub open spec fn git_args_text(q: GitQuery) -> Seq<Seq<char>> {
    match q {
        GitQuery::GitDir => seq!["rev-parse"@, "--git-dir"@],
        GitQuery::ShowToplevel => seq!["rev-parse"@, "--show-toplevel"@],
        GitQuery::RemoteUrl { remote } => seq!["remote"@, "get-url"@, remote@],
        GitQuery::LatestTag => seq!["describe"@, "--tags"@, "--abbrev=0"@],
        GitQuery::TagList => seq!["tag"@, "--list"@, "--sort=-version:refname"@],
        GitQuery::CreateTag { tag, message } => seq!["tag"@, "-a"@, tag@, "-m"@, message@],
        GitQuery::ObjectType { tag } => seq!["cat-file"@, "-t"@, tag@],
        GitQuery::TagContents { tag } => seq!["for-each-ref"@, "refs/tags/"@ + tag@, "--format=%(contents)"@],
        GitQuery::PushTag { tag, remote } => seq!["push"@, remote@, tag@],
        GitQuery::PushBranchAndTag { branch, tag, remote } => seq!["push"@, remote@, branch@, tag@],
        GitQuery::CommitsSince { ref_name } => seq![
            "log"@,
            ref_name@ + "..HEAD"@,
            "--pretty=format:%s"@,
            "--no-merges"@,
        ],
        GitQuery::AllCommits => seq!["log"@, "--pretty=format:%s"@],
        GitQuery::CurrentBranch => seq!["rev-parse"@, "--abbrev-ref"@, "HEAD"@],
        GitQuery::BranchComparison { branch, remote } => seq![
            "rev-list"@,
            "--left-right"@,
            "--count"@,
            remote@ + "/"@ + branch@ + "...HEAD"@,
        ],
        GitQuery::LastCommit => seq!["log"@, "--oneline"@, "-1"@],
        GitQuery::TagExists { tag } => seq!["tag"@, "--list"@, tag@],
        GitQuery::Pull { remote, rebase } => if rebase {
            seq!["pull"@, "--rebase"@, remote@]
        } else {
            seq!["pull"@, remote@]
        },
        GitQuery::MergedBranches => seq!["branch"@, "--merged"@],
        GitQuery::DeleteBranch { branch, force } => seq![
            "branch"@,
            if force {
                "-D"@
            } else {
                "-d"@
            },
            branch@,
        ],
        GitQuery::PruneRemote { remote } => seq!["remote"@, "prune"@, remote@],
        GitQuery::BranchRemote { branch } => seq!["config"@, "branch."@ + branch@ + ".remote"@],
        GitQuery::BranchMerge { branch } => seq!["config"@, "branch."@ + branch@ + ".merge"@],
        GitQuery::PruneRemotePreview { remote } => seq!["remote"@, "prune"@, remote@, "--dry-run"@],
        GitQuery::Branches => seq!["branch"@],
        GitQuery::VerifyRef { ref_name } => seq!["show-ref"@, "--verify"@, "--quiet"@, ref_name@],
    }
}

fn push_arg(v: &mut Vec<String>, s: &str)
    ensures
        final(v)@.map_values(|a: String| a@) == old(v)@.map_values(|a: String| a@).push(s@),
{
    v.push(s.to_owned());
    assert(v@.map_values(|a: String| a@) =~= old(v)@.map_values(|a: String| a@).push(s@));
}

fn push_joined(v: &mut Vec<String>, a: &str, b: &str, c: &str)
    ensures
        final(v)@.map_values(|x: String| x@) == old(v)@.map_values(|x: String| x@).push(a@ + b@ + c@),
{
    let mut t = chars_of(a);
    extend_str(&mut t, b);
    extend_str(&mut t, c);
    let s = string_of(&t);
    push_arg(v, s.as_str());
}

/// The arguments of the git command behind a query (see [`git_args_text`]).
pub fn git_args(q: &GitQuery) -> (r: Vec<String>)
    ensures
        r@.map_values(|a: String| a@) == git_args_text(*q),
{
    let mut v: Vec<String> = Vec::new();
    assert(v@.map_values(|a: String| a@) =~= Seq::<Seq<char>>::empty());
    match q {
        GitQuery::GitDir => {
            push_arg(&mut v, "rev-parse");
            push_arg(&mut v, "--git-dir");
        },
        GitQuery::ShowToplevel => {
            push_arg(&mut v, "rev-parse");
            push_arg(&mut v, "--show-toplevel");
        },
        GitQuery::RemoteUrl { remote } => {
            push_arg(&mut v, "remote");
            push_arg(&mut v, "get-url");
            push_arg(&mut v, remote.as_str());
        },
        GitQuery::LatestTag => {
            push_arg(&mut v, "describe");
            push_arg(&mut v, "--tags");
            push_arg(&mut v, "--abbrev=0");
        },
        GitQuery::TagList => {
            push_arg(&mut v, "tag");
            push_arg(&mut v, "--list");
            push_arg(&mut v, "--sort=-version:refname");
        },
        GitQuery::CreateTag { tag, message } => {
            push_arg(&mut v, "tag");
            push_arg(&mut v, "-a");
            push_arg(&mut v, tag.as_str());
            push_arg(&mut v, "-m");
            push_arg(&mut v, message.as_str());
        },
        GitQuery::ObjectType { tag } => {
            push_arg(&mut v, "cat-file");
            push_arg(&mut v, "-t");
            push_arg(&mut v, tag.as_str());
        },
        GitQuery::TagContents { tag } => {
            push_arg(&mut v, "for-each-ref");
            push_joined(&mut v, "refs/tags/", tag.as_str(), "");
            push_arg(&mut v, "--format=%(contents)");
        },
        GitQuery::PushTag { tag, remote } => {
            push_arg(&mut v, "push");
            push_arg(&mut v, remote.as_str());
            push_arg(&mut v, tag.as_str());
        },
        GitQuery::PushBranchAndTag { branch, tag, remote } => {
            push_arg(&mut v, "push");
            push_arg(&mut v, remote.as_str());
            push_arg(&mut v, branch.as_str());
            push_arg(&mut v, tag.as_str());
        },
        GitQuery::CommitsSince { ref_name } => {
            push_arg(&mut v, "log");
            push_joined(&mut v, ref_name.as_str(), "..HEAD", "");
            push_arg(&mut v, "--pretty=format:%s");
            push_arg(&mut v, "--no-merges");
        },
        GitQuery::AllCommits => {
            push_arg(&mut v, "log");
            push_arg(&mut v, "--pretty=format:%s");
        },
        GitQuery::CurrentBranch => {
            push_arg(&mut v, "rev-parse");
            push_arg(&mut v, "--abbrev-ref");
            push_arg(&mut v, "HEAD");
        },
        GitQuery::BranchComparison { branch, remote } => {
            push_arg(&mut v, "rev-list");
            push_arg(&mut v, "--left-right");
            push_arg(&mut v, "--count");
            let mut t = chars_of(remote.as_str());
            extend_str(&mut t, "/");
            extend_str(&mut t, branch.as_str());
            extend_str(&mut t, "...HEAD");
            let s = string_of(&t);
            push_arg(&mut v, s.as_str());
        },
        GitQuery::LastCommit => {
            push_arg(&mut v, "log");
            push_arg(&mut v, "--oneline");
            push_arg(&mut v, "-1");
        },
        GitQuery::TagExists { tag } => {
            push_arg(&mut v, "tag");
            push_arg(&mut v, "--list");
            push_arg(&mut v, tag.as_str());
        },
        GitQuery::Pull { remote, rebase } => {
            push_arg(&mut v, "pull");
            if *rebase {
                push_arg(&mut v, "--rebase");
            }
            push_arg(&mut v, remote.as_str());
        },
        GitQuery::MergedBranches => {
            push_arg(&mut v, "branch");
            push_arg(&mut v, "--merged");
        },
        GitQuery::DeleteBranch { branch, force } => {
            push_arg(&mut v, "branch");
            if *force {
                push_arg(&mut v, "-D");
            } else {
                push_arg(&mut v, "-d");
            }
            push_arg(&mut v, branch.as_str());
        },
        GitQuery::PruneRemote { remote } => {
            push_arg(&mut v, "remote");
            push_arg(&mut v, "prune");
            push_arg(&mut v, remote.as_str());
        },
        GitQuery::BranchRemote { branch } => {
            push_arg(&mut v, "config");
            push_joined(&mut v, "branch.", branch.as_str(), ".remote");
        },
        GitQuery::BranchMerge { branch } => {
            push_arg(&mut v, "config");
            push_joined(&mut v, "branch.", branch.as_str(), ".merge");
        },
        GitQuery::PruneRemotePreview { remote } => {
            push_arg(&mut v, "remote");
            push_arg(&mut v, "prune");
            push_arg(&mut v, remote.as_str());
            push_arg(&mut v, "--dry-run");
        },
        GitQuery::Branches => {
            push_arg(&mut v, "branch");
        },
        GitQuery::VerifyRef { ref_name } => {
            push_arg(&mut v, "show-ref");
            push_arg(&mut v, "--verify");
            push_arg(&mut v, "--quiet");
            push_arg(&mut v, ref_name.as_str());
        },
    }
    proof {
        reveal_strlit("");
    }
    assert(v@.map_values(|a: String| a@) =~= git_args_text(*q));
    v
}

/// The error for a git command that could not be started: git missing,
/// else an I/O error at the working directory when there is one, else the
/// system's message.
pub fn git_spawn_error(not_found: bool, cwd: Option<&str>, message: &str) -> (r: EngitError)
    ensures
        not_found ==> (r matches EngitError::Git(m) && m@ == "'git' executable not found on PATH."@),
        !not_found && cwd is Some ==> (r matches EngitError::Io { path, message: m } && path@
            == cwd->Some_0@ && m@ == message@),
        !not_found && cwd is None ==> (r matches EngitError::Git(m) && m@ == message@),
{
    if not_found {
        EngitError::Git("'git' executable not found on PATH.".to_owned())
    } else {
        match cwd {
            Some(c) => EngitError::Io { path: c.to_owned(), message: message.to_owned() },
            None => EngitError::Git(message.to_owned()),
        }
    }
}

} // verus!
