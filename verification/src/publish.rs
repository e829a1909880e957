//! Bundle publishing: bundle identities, version and destination rules,
//! asset tokens, and the selection of the files a publish contains.

use vstd::prelude::*;

use crate::error::EngitError;
use crate::git::{get_latest_semver_tag, listing_parse_defined, newest_tag, version_tags};
use crate::glob::{
    any_matches, build_glob_set, glob_error, glob_matches, glob_new_error, single_pattern_set,
    single_set_matches,
    glob_set_build_error, glob_set_is_match,
    glob_set_patterns,
};
use crate::path::{
    component_rank, component_rank_of, lemma_path_order_props, lemma_path_order_transitive,
    path_compare, path_components, path_components_of, path_join, path_join_str, path_order,
};
use crate::text::{contains_char, decimal, push_decimal, split_once, join_chars, join_strings, lemma_filter_empty, lemma_filter_step, trim_chars, lemma_text_order_props, lemma_text_order_transitive, text_compare, text_order};
use crate::semver::{decimal_run, fields_text, is_decimal_run, lemma_fields_text, version_fields, SemVer};
use crate::text::{
    chars_eq, chars_of, debug_quoted, debug_text, decimal_number, ends_with, extend_chars,
    extend_str, find_char, find_char_index, has_prefix, has_suffix, is_decimal_number, join,
    lemma_find_char, lemma_split_on_nonempty, replace_char, replace_chars, slice_chars,
    split_chars, split_on, starts_with, string_of, trim, utf8_len, utf8_width,
};

verus! {

// ---------------------------------------------------------------------------
// Names and constants
// ---------------------------------------------------------------------------

/// Version string used for local test builds.
pub const DEV_VERSION: &'static str = "dev";

/// Marker file written at the root of every published bundle.
pub const BUNDLE_MARKER_FILE: &'static str = ".bundle";

/// Publish manifest filename under `.envoy/`.
pub const PUBLISH_MANIFEST_FILE: &'static str = "publish-manifest.yaml";

/// Retired artifact-source config filename under `.envoy/`.
pub const LEGACY_BUNDLE_ARTIFACTS_FILE: &'static str = "bundle-artifacts.json";

/// Per-bundle envoy configuration directory.
pub const BUNDLE_ENV_DIR: &'static str = ".envoy";

/// Preferred canonical bundle publish root environment variable.
pub const BUNDLE_PUBLISH_ROOT_VAR: &'static str = "ENVOY_BUNDLE_PUBLISH_ROOT";

/// Deprecated canonical bundle publish root environment variable.
pub const LEGACY_BUNDLE_PUBLISH_ROOT_VAR: &'static str = "ENVOY_BNDLE_PROD";

/// Runtime paths included from every declared source root.
pub const DEFAULT_INCLUDES: [&'static str; 10] = [
    ".envoy/**",
    "py/**",
    "bin/**",
    "prebuilt/**",
    "resources/**",
    "resource/**",
    "docs/**",
    "LICENSE*",
    "NOTICE*",
    "THIRD_PARTY_LICENSES*",
];

/// Build, VCS, and cache paths excluded from every declared source root.
pub const DEFAULT_EXCLUDES: [&'static str; 30] = [
    ".git",
    ".git/**",
    ".gitignore",
    "**/.gitignore",
    ".gitattributes",
    "**/.gitattributes",
    ".gitmodules",
    "**/.gitmodules",
    ".github",
    ".github/**",
    ".hg",
    ".hg/**",
    ".svn",
    ".svn/**",
    "**/build",
    "**/build/**",
    "**/dist",
    "**/dist/**",
    "**/target",
    "**/target/**",
    "**/.pytest_cache",
    "**/.pytest_cache/**",
    "**/.ruff_cache",
    "**/.ruff_cache/**",
    "**/.mypy_cache",
    "**/.mypy_cache/**",
    "**/__pycache__",
    "**/__pycache__/**",
    "**/*.pyc",
    "**/*.pyo",
];

// ---------------------------------------------------------------------------
// Bundle identity
// ---------------------------------------------------------------------------

/// Convert a bundle directory name to a bundle ID: `-` becomes `:`.
pub fn bndlid_from_name(bundle_name: &str) -> (r: String)
    ensures
        r@ == replace_char(bundle_name@, '-', ':'),
{
    let cs = chars_of(bundle_name);
    string_of(&replace_chars(&cs, '-', ':'))
}

/// The publish directory of a bundle name as path components: the name
/// split at `-`.
pub fn publish_path(bundle_name: &str) -> (r: Vec<String>)
    ensures
        r@.map_values(|c: String| c@) == split_on(bundle_name@, '-'),
{
    let cs = chars_of(bundle_name);
    let parts = split_chars(&cs, '-');
    let ghost pv = parts@.map_values(|p: Vec<char>| p@);
    let mut out: Vec<String> = Vec::new();
    let mut i: usize = 0;
    while i < parts.len()
        invariant
            i <= parts.len(),
            pv == parts@.map_values(|p: Vec<char>| p@),
            out@.map_values(|c: String| c@) == pv.take(i as int),
        decreases parts.len() - i,
    {
        let ghost before = out@.map_values(|c: String| c@);
        let piece = string_of(&parts[i]);
        out.push(piece);
        proof {
            assert(out@.map_values(|c: String| c@) =~= before.push(pv[i as int]));
            assert(pv.take(i + 1) =~= pv.take(i as int).push(pv[i as int]));
        }
        i = i + 1;
    }
    assert(pv.take(parts.len() as int) =~= pv);
    out
}

/// Whether a command-line spec names a bundle ID rather than a path: it
/// does not start with `/`, `\`, `.` or `~`, and its first `:` comes at byte
/// offset 2 or later.
pub open spec fn looks_like_bndlid(spec: Seq<char>) -> bool {
    &&& spec.len() > 0
    &&& spec[0] != '/' && spec[0] != '\\' && spec[0] != '.' && spec[0] != '~'
    &&& match find_char(spec, ':') {
        Some(k) => utf8_len(spec.take(k)) >= 2,
        None => false,
    }
}

fn char_width(c: char) -> (r: usize)
    ensures
        r as nat == utf8_width(c),
{
    let v: u32 = c as u32;
    if v < 0x80 {
        1
    } else if v < 0x800 {
        2
    } else if v < 0x10000 {
        3
    } else {
        4
    }
}

/// Return `true` if `spec` looks like a bundle ID (see [`looks_like_bndlid`]).
pub fn is_bndlid(spec: &str) -> (r: bool)
    ensures
        r == looks_like_bndlid(spec@),
{
    let cs = chars_of(spec);
    if cs.len() == 0 {
        return false;
    }
    let first = cs[0];
    if first == '/' || first == '\\' || first == '.' || first == '~' {
        return false;
    }
    proof {
        lemma_find_char(spec@, ':');
    }
    match find_char_index(&cs, ':') {
        None => false,
        Some(k) => {
            if k >= 2 {
                proof {
                    lemma_utf8_len_at_least(spec@.take(k as int));
                }
                true
            } else if k == 1 {
                proof {
                    let t = spec@.take(1);
                    assert(t.drop_last() =~= Seq::<char>::empty());
                    assert(utf8_len(Seq::<char>::empty()) == 0);
                }
                char_width(first) >= 2
            } else {
                proof {
                    assert(spec@.take(0) =~= Seq::<char>::empty());
                }
                false
            }
        },
    }
}

proof fn lemma_utf8_len_at_least(s: Seq<char>)
    ensures
        utf8_len(s) >= s.len(),
    decreases s.len(),
{
    if s.len() > 0 {
        lemma_utf8_len_at_least(s.drop_last());
    }
}

/// The index of the last occurrence of `c` in `s`.
pub open spec fn rfind_char(s: Seq<char>, c: char) -> Option<int>
    decreases s.len(),
{
    if s.len() == 0 {
        None
    } else if s.last() == c {
        Some(s.len() - 1)
    } else {
        rfind_char(s.drop_last(), c)
    }
}

/// The text after the last `c` (all of `s` without one), the first item
/// of `str::rsplit`.
pub open spec fn after_last(s: Seq<char>, c: char) -> Seq<char> {
    match rfind_char(s, c) {
        Some(k) => s.skip(k + 1),
        None => s,
    }
}

/// Executable [`rfind_char`].
pub fn rfind_char_index(s: &Vec<char>, c: char) -> (r: Option<usize>)
    ensures
        match r {
            Some(k) => rfind_char(s@, c) == Some(k as int) && k < s.len(),
            None => rfind_char(s@, c) is None,
        },
{
    let mut i: usize = s.len();
    proof {
        assert(s@.take(s.len() as int) =~= s@);
    }
    while i > 0 && s[i - 1] != c
        invariant
            i <= s.len(),
            rfind_char(s@, c) == rfind_char(s@.take(i as int), c),
        decreases i,
    {
        proof {
            let t = s@.take(i as int);
            assert(t.drop_last() =~= s@.take(i - 1));
            assert(t.last() == s@[i - 1]);
        }
        i = i - 1;
    }
    if i == 0 {
        assert(s@.take(0) =~= Seq::<char>::empty());
        None
    } else {
        assert(s@.take(i as int).last() == s@[i - 1]);
        Some(i - 1)
    }
}

fn after_last_chars(s: &Vec<char>, c: char) -> (r: Vec<char>)
    ensures
        r@ == after_last(s@, c),
{
    match rfind_char_index(s, c) {
        Some(k) => slice_chars(s, k + 1, s.len()),
        None => {
            assert(s@.subrange(0, s.len() as int) =~= s@);
            slice_chars(s, 0, s.len())
        },
    }
}

/// `s` without its trailing `c` characters.
pub open spec fn strip_trailing(s: Seq<char>, c: char) -> Seq<char>
    decreases s.len(),
{
    if s.len() > 0 && s.last() == c {
        strip_trailing(s.drop_last(), c)
    } else {
        s
    }
}

fn strip_trailing_chars(s: &Vec<char>, c: char) -> (r: Vec<char>)
    ensures
        r@ == strip_trailing(s@, c),
{
    let mut i: usize = s.len();
    proof {
        assert(s@.take(s.len() as int) =~= s@);
    }
    while i > 0 && s[i - 1] == c
        invariant
            i <= s.len(),
            strip_trailing(s@, c) == strip_trailing(s@.take(i as int), c),
        decreases i,
    {
        proof {
            let t = s@.take(i as int);
            assert(t.drop_last() =~= s@.take(i - 1));
        }
        i = i - 1;
    }
    proof {
        if i > 0 {
            assert(s@.take(i as int).last() == s@[i - 1]);
        }
        assert(s@.take(s.len() as int) =~= s@);
        assert(s@.subrange(0, i as int) =~= s@.take(i as int));
    }
    slice_chars(s, 0, i)
}

/// The repository name in a remote URL: trailing `/` and a `.git` suffix
/// removed, then the text after the last `/`, then after the last `:`.
pub open spec fn url_repo_name(url: Seq<char>) -> Seq<char> {
    let n0 = strip_trailing(url, '/');
    let n = if has_suffix(n0, ".git"@) {
        n0.take(n0.len() - 4)
    } else {
        n0
    };
    after_last(after_last(n, '/'), ':')
}

/// Derive the bundle (repository) name: the name in the `origin` remote
/// URL when there is one and it is not empty, otherwise the bundle
/// directory's name.
pub fn repo_name_from(origin_url: Option<&str>, directory_name: &str) -> (r: String)
    ensures
        r@ == match origin_url {
            Some(u) => if url_repo_name(u@).len() > 0 {
                url_repo_name(u@)
            } else {
                directory_name@
            },
            None => directory_name@,
        },
{
    proof {
        reveal_strlit(".git");
    }
    if let Some(url) = origin_url {
        let cs = chars_of(url);
        let n0 = strip_trailing_chars(&cs, '/');
        let suffix = chars_of(".git");
        let n = if ends_with(&n0, &suffix) {
            let t = slice_chars(&n0, 0, n0.len() - 4);
            assert(t@ =~= n0@.take(n0@.len() - 4));
            t
        } else {
            n0
        };
        let a = after_last_chars(&n, '/');
        let b = after_last_chars(&a, ':');
        if b.len() > 0 {
            return string_of(&b);
        }
    }
    directory_name.to_owned()
}

/// Return the latest semantic version of a bundle's repository, given the
/// results of `git rev-parse --git-dir` and
/// `git tag --list --sort=-version:refname` in the bundle and the bundle's
/// displayed path.
pub fn detect_version(
    rev_parse: &Result<String, EngitError>,
    listing: Result<String, EngitError>,
    bundle_path: &str,
) -> (r: Result<String, EngitError>)
    requires
        listing_parse_defined(listing),
    ensures
        rev_parse is Err ==> (r matches Err(EngitError::Publish(m)) && m@ == "'"@ + bundle_path@
            + "' is not inside a git repository. Use --version dev for a test build without a git tag."@),
        rev_parse is Ok ==> match listing {
            Ok(s) => if version_tags(s@).len() > 0 {
                r matches Ok(v) && v@ == fields_text(version_fields(trim(newest_tag(version_tags(s@))))->0)
            } else {
                r matches Err(EngitError::Publish(m)) && m@ == "No semantic version tags found in '"@
                    + bundle_path@ + "'. Create one with 'engit tag' or use --version dev."@
            },
            Err(_) => r matches Err(EngitError::Publish(m)) && m@ == "No semantic version tags found in '"@
                + bundle_path@ + "'. Create one with 'engit tag' or use --version dev."@,
        },
{
    if rev_parse.is_err() {
        let mut m = chars_of("'");
        extend_str(&mut m, bundle_path);
        extend_str(&mut m, "' is not inside a git repository. Use --version dev for a test build without a git tag.");
        return Err(EngitError::Publish(string_of(&m)));
    }
    let ghost l = listing;
    match get_latest_semver_tag(listing) {
        Some(v) => {
            proof {
                let s = l->Ok_0;
                let f = version_fields(trim(newest_tag(version_tags(s@))))->0;
                lemma_fields_text(f, v);
            }
            Ok(v.version_string())
        },
        None => {
            let mut m = chars_of("No semantic version tags found in '");
            extend_str(&mut m, bundle_path);
            extend_str(&mut m, "'. Create one with 'engit tag' or use --version dev.");
            Err(EngitError::Publish(string_of(&m)))
        },
    }
}

// ---------------------------------------------------------------------------
// Versions and asset tokens
// ---------------------------------------------------------------------------

/// Where the `-envoy.<digits>` iteration suffix of `v` starts, when `v` ends
/// with one (the match of `-envoy\.\d+$`, with `\d` any Unicode decimal
/// digit). The suffix holds no `-` after its first character, so it starts
/// at the last `-` of `v`.
pub open spec fn envoy_suffix_start(v: Seq<char>) -> Option<int> {
    match rfind_char(v, '-') {
        Some(k) => if has_prefix(v.skip(k), "-envoy."@) && is_decimal_run(v.skip(k + 7)) {
            Some(k)
        } else {
            None
        },
        None => None,
    }
}

/// `v` without its `-envoy.<digits>` iteration suffix.
pub open spec fn base_version_of(v: Seq<char>) -> Seq<char> {
    match envoy_suffix_start(v) {
        Some(k) => v.take(k),
        None => v,
    }
}

/// Strip the `-envoy.<int>` iteration suffix from a version string.
pub fn base_version(version: &str) -> (r: String)
    ensures
        r@ == base_version_of(version@),
{
    proof {
        reveal_strlit("-envoy.");
    }
    let cs = chars_of(version);
    if let Some(k) = rfind_char_index(&cs, '-') {
        let tail = slice_chars(&cs, k, cs.len());
        assert(tail@ =~= cs@.skip(k as int));
        let marker = chars_of("-envoy.");
        if starts_with(&tail, &marker) {
            let digits = slice_chars(&cs, k + 7, cs.len());
            assert(digits@ =~= cs@.skip(k + 7));
            if decimal_run(&digits) {
                let head = slice_chars(&cs, 0, k);
                assert(head@ =~= cs@.take(k as int));
                return string_of(&head);
            }
        }
    }
    version.to_owned()
}

/// The `${NAME}` token at the start of `s`: its name and its length. A name
/// is one or more characters other than `}` (the regex `\$\{([^}]+)\}`).
pub open spec fn token_at(s: Seq<char>) -> Option<(Seq<char>, int)> {
    if s.len() >= 2 && s[0] == '$' && s[1] == '{' {
        match find_char(s.skip(2), '}') {
            Some(k) => if 0 < k && k + 3 <= s.len() {
                Some((s.skip(2).take(k), k + 3))
            } else {
                None
            },
            None => None,
        }
    } else {
        None
    }
}

/// The value of the first variable named `name` in `env`.
pub open spec fn env_lookup(env: Seq<(Seq<char>, Seq<char>)>, name: Seq<char>) -> Option<Seq<char>>
    decreases env.len(),
{
    if env.len() == 0 {
        None
    } else if env[0].0 == name {
        Some(env[0].1)
    } else {
        env_lookup(env.drop_first(), name)
    }
}

/// Pairs of strings as pairs of texts.
pub open spec fn pair_texts(env: Seq<(String, String)>) -> Seq<(Seq<char>, Seq<char>)> {
    env.map_values(|p: (String, String)| (p.0@, p.1@))
}

/// The value of a token: `VERSION` is the version, `BASE_VERSION` the
/// version without its iteration suffix, any other name the environment
/// variable of that name.
pub open spec fn token_value(
    name: Seq<char>,
    version: Seq<char>,
    env: Seq<(Seq<char>, Seq<char>)>,
) -> Option<Seq<char>> {
    if name == "VERSION"@ {
        Some(version)
    } else if name == "BASE_VERSION"@ {
        Some(base_version_of(version))
    } else {
        env_lookup(env, name)
    }
}

/// `s` with every `${NAME}` token, left to right, replaced by its value;
/// a token without a value stays as it is.
pub open spec fn expand_tokens(
    s: Seq<char>,
    version: Seq<char>,
    env: Seq<(Seq<char>, Seq<char>)>,
) -> Seq<char>
    decreases s.len(),
{
    if s.len() == 0 {
        Seq::empty()
    } else {
        match token_at(s) {
            Some((name, n)) => match token_value(name, version, env) {
                Some(v) => v + expand_tokens(s.skip(n), version, env),
                None => s.take(n) + expand_tokens(s.skip(n), version, env),
            },
            None => seq![s[0]] + expand_tokens(s.skip(1), version, env),
        }
    }
}

/// The names of the tokens of `s` that have no value, in order.
pub open spec fn missing_tokens(
    s: Seq<char>,
    version: Seq<char>,
    env: Seq<(Seq<char>, Seq<char>)>,
) -> Seq<Seq<char>>
    decreases s.len(),
{
    if s.len() == 0 {
        Seq::empty()
    } else {
        match token_at(s) {
            Some((name, n)) => match token_value(name, version, env) {
                Some(v) => missing_tokens(s.skip(n), version, env),
                None => seq![name] + missing_tokens(s.skip(n), version, env),
            },
            None => missing_tokens(s.skip(1), version, env),
        }
    }
}

/// Executable [`token_at`] at position `i` of `s`.
fn token_at_index(s: &Vec<char>, i: usize) -> (r: Option<(Vec<char>, usize)>)
    requires
        i <= s.len(),
    ensures
        match token_at(s@.skip(i as int)) {
            Some((name, n)) => r matches Some((nm, m)) && nm@ == name && m as int == n,
            None => r is None,
        },
{
    let ghost t = s@.skip(i as int);
    if s.len() - i >= 2 && s[i] == '$' && s[i + 1] == '{' {
        let rest = slice_chars(s, i + 2, s.len());
        assert(rest@ =~= t.skip(2));
        match find_char_index(&rest, '}') {
            Some(k) => {
                proof {
                    lemma_find_char(rest@, '}');
                }
                if k > 0 {
                    let name = slice_chars(&rest, 0, k);
                    assert(name@ =~= t.skip(2).take(k as int));
                    Some((name, k + 3))
                } else {
                    None
                }
            },
            None => None,
        }
    } else {
        None
    }
}

/// Executable [`env_lookup`].
fn lookup_env(env: &Vec<(String, String)>, name: &Vec<char>) -> (r: Option<String>)
    ensures
        match env_lookup(pair_texts(env@), name@) {
            Some(v) => r matches Some(x) && x@ == v,
            None => r is None,
        },
{
    let ghost ev = pair_texts(env@);
    let mut i: usize = 0;
    assert(ev.skip(0) =~= ev);
    while i < env.len()
        invariant
            i <= env.len(),
            ev == pair_texts(env@),
            env_lookup(ev, name@) == env_lookup(ev.skip(i as int), name@),
        decreases env.len() - i,
    {
        assert(ev.skip(i as int).drop_first() =~= ev.skip(i + 1));
        let key = chars_of(env[i].0.as_str());
        if chars_eq(&key, name) {
            return Some(env[i].1.clone());
        }
        i = i + 1;
    }
    None
}

/// Executable [`token_value`].
fn value_of_token(
    name: &Vec<char>,
    version: &str,
    env: &Vec<(String, String)>,
) -> (r: Option<String>)
    ensures
        match token_value(name@, version@, pair_texts(env@)) {
            Some(v) => r matches Some(x) && x@ == v,
            None => r is None,
        },
{
    let version_name = chars_of("VERSION");
    let base_name = chars_of("BASE_VERSION");
    if chars_eq(name, &version_name) {
        Some(version.to_owned())
    } else if chars_eq(name, &base_name) {
        Some(base_version(version))
    } else {
        lookup_env(env, name)
    }
}

/// Expands the tokens of `value`: the expanded text and the names of the
/// tokens that have no value.
fn expand_with_missing(
    value: &str,
    version: &str,
    env: &Vec<(String, String)>,
) -> (r: (Vec<char>, Vec<Vec<char>>))
    ensures
        r.0@ == expand_tokens(value@, version@, pair_texts(env@)),
        r.1@.map_values(|m: Vec<char>| m@) == missing_tokens(value@, version@, pair_texts(env@)),
{
    let ghost ev = pair_texts(env@);
    let s = chars_of(value);
    let mut out: Vec<char> = Vec::new();
    let mut missing: Vec<Vec<char>> = Vec::new();
    let mut i: usize = 0;
    assert(s@.skip(0) =~= s@);
    while i < s.len()
        invariant
            i <= s.len(),
            s@ == value@,
            ev == pair_texts(env@),
            expand_tokens(s@, version@, ev) == out@ + expand_tokens(s@.skip(i as int), version@, ev),
            missing_tokens(s@, version@, ev) == missing@.map_values(|m: Vec<char>| m@)
                + missing_tokens(s@.skip(i as int), version@, ev),
        decreases s.len() - i,
    {
        let ghost t = s@.skip(i as int);
        let ghost before = missing@.map_values(|m: Vec<char>| m@);
        match token_at_index(&s, i) {
            Some((name, n)) => {
                assert(t.skip(n as int) =~= s@.skip(i + n));
                match value_of_token(&name, version, env) {
                    Some(v) => {
                        let vc = chars_of(v.as_str());
                        extend_chars(&mut out, &vc);
                    },
                    None => {
                        let lit = slice_chars(&s, i, i + n);
                        assert(lit@ =~= t.take(n as int));
                        extend_chars(&mut out, &lit);
                        missing.push(name);
                        assert(missing@.map_values(|m: Vec<char>| m@) =~= before.push(name@));
                    },
                }
                i = i + n;
            },
            None => {
                assert(t.skip(1) =~= s@.skip(i + 1));
                assert(seq![t[0]] =~= seq![s@[i as int]]);
                out.push(s[i]);
                i = i + 1;
            },
        }
        assert(out@ + expand_tokens(s@.skip(i as int), version@, ev) =~= out@ + expand_tokens(s@.skip(i as int), version@, ev));
    }
    assert(s@.skip(s.len() as int) =~= Seq::<char>::empty());
    (out, missing)
}

/// Expand `${VAR}` tokens in `value`: `${VERSION}`, `${BASE_VERSION}` and
/// variables of the environment `env`; tokens without a value are kept.
pub fn resolve_asset_tokens(value: &str, version: &str, env: &Vec<(String, String)>) -> (r: String)
    ensures
        r@ == expand_tokens(value@, version@, pair_texts(env@)),
{
    let (out, _missing) = expand_with_missing(value, version, env);
    string_of(&out)
}

/// The texts held by character vectors.
pub open spec fn texts(v: Seq<Vec<char>>) -> Seq<Seq<char>> {
    v.map_values(|m: Vec<char>| m@)
}

/// Strictly increasing in the order of `str`.
pub open spec fn strictly_sorted(s: Seq<Seq<char>>) -> bool {
    forall|i: int, j: int| 0 <= i < j < s.len() ==> text_order(#[trigger] s[i], #[trigger] s[j]) < 0
}

/// `l` is `s` sorted with duplicates removed: strictly increasing, with the
/// same texts.
pub open spec fn is_sorted_set_of(l: Seq<Seq<char>>, s: Seq<Seq<char>>) -> bool {
    strictly_sorted(l) && l.to_set() == s.to_set()
}

/// Inserts `x` into a strictly increasing list unless it is already there.
fn insert_sorted_unique(list: &mut Vec<Vec<char>>, x: Vec<char>)
    requires
        strictly_sorted(texts(old(list)@)),
    ensures
        strictly_sorted(texts(final(list)@)),
        texts(final(list)@).to_set() == texts(old(list)@).to_set().insert(x@),
{
    let ghost l = texts(list@);
    let mut i: usize = 0;
    while i < list.len() && text_compare(&list[i], &x) < 0
        invariant
            i <= list.len(),
            l == texts(list@),
            strictly_sorted(l),
            forall|k: int| 0 <= k < i ==> text_order(#[trigger] l[k], x@) < 0,
        decreases list.len() - i,
    {
        assert(l[i as int] == list@[i as int]@);
        i = i + 1;
    }
    if i < list.len() && chars_eq(&list[i], &x) {
        assert(l[i as int] == x@);
        assert(l.to_set().insert(x@) =~= l.to_set());
        return;
    }
    proof {
        if i < list.len() {
            assert(l[i as int] == list@[i as int]@);
            lemma_text_order_props(l[i as int], x@);
            assert(text_order(x@, l[i as int]) < 0);
            assert forall|k: int| i <= k < l.len() implies text_order(x@, #[trigger] l[k]) < 0 by {
                if k > i {
                    lemma_text_order_transitive(x@, l[i as int], l[k]);
                }
            }
        }
    }
    list.insert(i, x);
    proof {
        let nl = texts(list@);
        assert(nl =~= l.insert(i as int, x@));
        assert forall|a: int, b: int| 0 <= a < b < nl.len() implies text_order(#[trigger] nl[a], #[trigger] nl[b]) < 0 by {
            if b < i {
            } else if b == i {
            } else if a < i {
                assert(nl[b] == l[b - 1]);
                lemma_text_order_transitive(nl[a], x@, nl[b]);
            } else if a == i {
                assert(nl[b] == l[b - 1]);
            } else {
                assert(nl[a] == l[a - 1]);
                assert(nl[b] == l[b - 1]);
            }
        }
        assert forall|t: Seq<char>| nl.to_set().contains(t) <==> l.to_set().insert(x@).contains(t) by {
            if nl.contains(t) {
                let k = choose|k: int| 0 <= k < nl.len() && nl[k] == t;
                if k < i {
                    assert(l[k] == t);
                } else if k > i {
                    assert(l[k - 1] == t);
                }
            }
            if l.contains(t) {
                let k = choose|k: int| 0 <= k < l.len() && l[k] == t;
                if k < i {
                    assert(nl[k] == t);
                } else {
                    assert(nl[k + 1] == t);
                }
            }
            if t == x@ {
                assert(nl[i as int] == t);
            }
        }
        assert(nl.to_set() =~= l.to_set().insert(x@));
    }
}

/// The texts of `items`, sorted, with duplicates removed (`sort` and
/// `dedup`).
fn sort_dedup(items: &Vec<Vec<char>>) -> (r: Vec<Vec<char>>)
    ensures
        is_sorted_set_of(texts(r@), texts(items@)),
{
    let mut out: Vec<Vec<char>> = Vec::new();
    let mut i: usize = 0;
    assert(texts(items@).take(0).to_set() =~= Set::<Seq<char>>::empty());
    assert(texts(out@).to_set() =~= Set::<Seq<char>>::empty());
    while i < items.len()
        invariant
            i <= items.len(),
            strictly_sorted(texts(out@)),
            texts(out@).to_set() == texts(items@).take(i as int).to_set(),
        decreases items.len() - i,
    {
        let x = items[i].clone();
        insert_sorted_unique(&mut out, x);
        proof {
            let t = texts(items@);
            assert(t.take(i + 1) =~= t.take(i as int).push(t[i as int]));
            let a = t.take(i + 1);
            let b = t.take(i as int);
            assert forall|z: Seq<char>| a.to_set().contains(z) <==> b.to_set().insert(t[i as int]).contains(z) by {
                if a.contains(z) {
                    let k = choose|k: int| 0 <= k < a.len() && a[k] == z;
                    if k < i {
                        assert(b[k] == z);
                    }
                }
                if b.contains(z) {
                    let k = choose|k: int| 0 <= k < b.len() && b[k] == z;
                    assert(a[k] == z);
                }
                if z == t[i as int] {
                    assert(a[i as int] == z);
                }
            }
            assert(a.to_set() =~= b.to_set().insert(t[i as int]));
        }
        i = i + 1;
    }
    assert(texts(items@).take(items.len() as int) =~= texts(items@));
    out
}

/// The message for tokens of a manifest that have no value.
pub open spec fn unresolved_tokens_text(names: Seq<Seq<char>>) -> Seq<char> {
    "Unresolved environment variable(s) in publish manifest: "@ + join(names, ", "@)
}

/// Expand the tokens of a manifest value, failing when a token other than
/// `${VERSION}` and `${BASE_VERSION}` names no variable of `env`; the error
/// lists those names sorted, each once.
pub fn resolve_asset_tokens_strict(
    value: &str,
    version: &str,
    env: &Vec<(String, String)>,
) -> (r: Result<String, EngitError>)
    ensures
        missing_tokens(value@, version@, pair_texts(env@)).len() == 0 ==> (r matches Ok(x)
            && x@ == expand_tokens(value@, version@, pair_texts(env@))),
        missing_tokens(value@, version@, pair_texts(env@)).len() > 0 ==> (r matches Err(
            EngitError::Publish(m),
        ) && exists|l: Seq<Seq<char>>|
            is_sorted_set_of(l, missing_tokens(value@, version@, pair_texts(env@)))
                && m@ == unresolved_tokens_text(l)),
{
    let (out, missing) = expand_with_missing(value, version, env);
    if missing.len() == 0 {
        return Ok(string_of(&out));
    }
    let names = sort_dedup(&missing);
    let mut m = chars_of("Unresolved environment variable(s) in publish manifest: ");
    let sep = chars_of(", ");
    let joined = join_chars(&names, &sep);
    extend_chars(&mut m, &joined);
    assert(texts(names@) == names@.map_values(|p: Vec<char>| p@));
    assert(texts(missing@) == missing@.map_values(|p: Vec<char>| p@));
    let ghost l = texts(names@);
    assert(is_sorted_set_of(l, missing_tokens(value@, version@, pair_texts(env@))));
    assert(m@ == unresolved_tokens_text(l));
    Err(EngitError::Publish(string_of(&m)))
}

// ---------------------------------------------------------------------------
// Validation of manifest values
// ---------------------------------------------------------------------------

/// The message for an artifact destination that is not a relative path.
pub open spec fn bad_destination_text(destination: Seq<char>) -> Seq<char> {
    "Artifact destination must be a relative path without '..': '"@ + destination + "'"@
}

/// A destination is accepted when it is not empty and all its components
/// are the current directory or names.
pub open spec fn is_safe_destination(destination: Seq<char>) -> bool {
    &&& destination.len() > 0
    &&& safe_components(path_components(destination))
}

/// Every component is the current directory or a name.
pub open spec fn safe_components(cs: Seq<Seq<char>>) -> bool {
    forall|i: int| 0 <= i < cs.len() ==> component_rank(#[trigger] cs[i]) >= 2 && cs[i] != ".."@
}

fn components_safe(comps: &Vec<Vec<char>>) -> (r: bool)
    ensures
        r == safe_components(texts(comps@)),
{
    proof {
        reveal_strlit("..");
    }
    let ghost cv = texts(comps@);
    let parent = chars_of("..");
    let mut i: usize = 0;
    while i < comps.len()
        invariant
            i <= comps.len(),
            cv == texts(comps@),
            parent@ == ".."@,
            forall|k: int| 0 <= k < i ==> #[trigger] component_rank(cv[k]) >= 2 && cv[k] != ".."@,
        decreases comps.len() - i,
    {
        assert(cv[i as int] == comps@[i as int]@);
        if component_rank_of(&comps[i]) < 2 || chars_eq(&comps[i], &parent) {
            return false;
        }
        i = i + 1;
    }
    true
}

/// Check that an artifact destination is a relative path without `..`.
pub fn validate_destination(destination: &str) -> (r: Result<(), EngitError>)
    ensures
        is_safe_destination(destination@) ==> r is Ok,
        !is_safe_destination(destination@) ==> (r matches Err(EngitError::Publish(m)) && m@
            == bad_destination_text(destination@)),
{
    proof {
        reveal_strlit("..");
    }
    let cs = chars_of(destination);
    let mut ok = cs.len() > 0;
    if ok {
        let comps = path_components_of(&cs);
        ok = components_safe(&comps);
        assert(texts(comps@) == comps@.map_values(|p: Vec<char>| p@));
    }
    if ok {
        Ok(())
    } else {
        let mut m = chars_of("Artifact destination must be a relative path without '..': '");
        extend_str(&mut m, destination);
        extend_str(&mut m, "'");
        Err(EngitError::Publish(string_of(&m)))
    }
}

/// A version is one safe path component: a single name other than `..`.
pub open spec fn is_safe_version(version: Seq<char>) -> bool {
    &&& version.len() > 0
    &&& path_components(version).len() == 1
    &&& component_rank(path_components(version)[0]) == 4
}

/// The message for a version that is not one safe path component.
pub open spec fn bad_version_text(version: Seq<char>) -> Seq<char> {
    "Publish version must be one safe path component: "@ + debug_text(version) + "."@
}

/// Check that a publish version is one safe path component.
pub fn validate_version(version: &str) -> (r: Result<(), EngitError>)
    ensures
        is_safe_version(version@) ==> r is Ok,
        !is_safe_version(version@) ==> (r matches Err(EngitError::Publish(m)) && m@
            == bad_version_text(version@)),
{
    let cs = chars_of(version);
    if cs.len() > 0 {
        let comps = path_components_of(&cs);
        if comps.len() == 1 {
            assert(comps@.map_values(|p: Vec<char>| p@)[0] == comps@[0]@);
            if component_rank_of(&comps[0]) == 4 {
                return Ok(());
            }
        }
    }
    let mut m = chars_of("Publish version must be one safe path component: ");
    let q = debug_quoted(version);
    extend_str(&mut m, q.as_str());
    extend_str(&mut m, ".");
    Err(EngitError::Publish(string_of(&m)))
}

/// Refuse to overwrite an existing publish, unless it is the development
/// version and `force` is set.
pub fn ensure_destination_available(
    exists: bool,
    path: &str,
    version: &str,
    force: bool,
) -> (r: Result<(), EngitError>)
    ensures
        (exists && !(version@ == DEV_VERSION@ && force)) ==> (r matches Err(EngitError::Publish(m))
            && m@ == "Published version already exists and is immutable: '"@ + path@ + "'."@),
        !(exists && !(version@ == DEV_VERSION@ && force)) ==> r is Ok,
{
    let v = chars_of(version);
    let dev = chars_of(DEV_VERSION);
    if exists && !(chars_eq(&v, &dev) && force) {
        let mut m = chars_of("Published version already exists and is immutable: '");
        extend_str(&mut m, path);
        extend_str(&mut m, "'.");
        return Err(EngitError::Publish(string_of(&m)));
    }
    Ok(())
}

/// The text handed to `Glob::new` for a pattern: backslashes become `/`.
pub open spec fn pattern_text(p: Seq<char>) -> Seq<char> {
    replace_char(p, '\\', '/')
}

/// The error `Glob::new` gives for a pattern, if any.
pub open spec fn pattern_error(p: Seq<char>) -> Option<Seq<char>> {
    glob_new_error(pattern_text(p))
}

/// `k` is the first pattern of `ps` that is refused.
pub open spec fn first_refused_at(ps: Seq<Seq<char>>, k: int) -> bool {
    &&& 0 <= k < ps.len()
    &&& pattern_error(ps[k]) is Some
    &&& forall|j: int| 0 <= j < k ==> pattern_error(#[trigger] ps[j]) is None
}

/// No pattern of `ps` is refused.
pub open spec fn none_refused(ps: Seq<Seq<char>>) -> bool {
    forall|j: int| 0 <= j < ps.len() ==> pattern_error(#[trigger] ps[j]) is None
}

/// Why a pattern cannot be matched on its own, if it cannot: `Glob::new`
/// refuses it, or its matcher cannot be built.
pub open spec fn matcher_error(p: Seq<char>) -> Option<Seq<char>> {
    match pattern_error(p) {
        Some(e) => Some(e),
        None => glob_set_build_error(seq![pattern_text(p)]),
    }
}

/// `k` is the first pattern of `ps` that cannot be matched on its own.
pub open spec fn first_unmatchable_at(ps: Seq<Seq<char>>, k: int) -> bool {
    &&& 0 <= k < ps.len()
    &&& matcher_error(ps[k]) is Some
    &&& forall|j: int| 0 <= j < k ==> matcher_error(#[trigger] ps[j]) is None
}

/// Every pattern of `ps` can be matched on its own.
pub open spec fn all_matchable(ps: Seq<Seq<char>>) -> bool {
    forall|j: int| 0 <= j < ps.len() ==> matcher_error(#[trigger] ps[j]) is None
}

/// The message for a refused pattern.
pub open spec fn invalid_pattern_text(label: Seq<char>, p: Seq<char>) -> Seq<char> {
    "Invalid "@ + label + " pattern "@ + debug_text(p) + ": "@ + pattern_error(p)->Some_0
}

/// Compiles a pattern's text with `Glob::new`, reporting its error.
fn pattern_refusal(p: &str) -> (r: Option<String>)
    ensures
        match pattern_error(p@) {
            Some(e) => r matches Some(x) && x@ == e,
            None => r is None,
        },
{
    let cs = chars_of(p);
    let t = string_of(&replace_chars(&cs, '\\', '/'));
    glob_error(t.as_str())
}

/// Check that every pattern compiles; the error names the first one that
/// does not, with `label` saying where it came from.
pub fn validate_patterns(patterns: &Vec<String>, label: &str) -> (r: Result<(), EngitError>)
    ensures
        none_refused(texts_of(patterns@)) ==> r is Ok,
        forall|k: int| #[trigger] first_refused_at(texts_of(patterns@), k) ==> (r matches Err(
            EngitError::Publish(m),
        ) && m@ == invalid_pattern_text(label@, patterns@[k]@)),
{
    let ghost pv = texts_of(patterns@);
    let mut i: usize = 0;
    while i < patterns.len()
        invariant
            i <= patterns.len(),
            pv == texts_of(patterns@),
            forall|j: int| 0 <= j < i ==> pattern_error(#[trigger] pv[j]) is None,
        decreases patterns.len() - i,
    {
        assert(pv[i as int] == patterns@[i as int]@);
        if let Some(e) = pattern_refusal(patterns[i].as_str()) {
            let mut m = chars_of("Invalid ");
            extend_str(&mut m, label);
            extend_str(&mut m, " pattern ");
            let q = debug_quoted(patterns[i].as_str());
            extend_str(&mut m, q.as_str());
            extend_str(&mut m, ": ");
            extend_str(&mut m, e.as_str());
            proof {
                assert(first_refused_at(pv, i as int));
                assert forall|k: int| #[trigger] first_refused_at(pv, k) implies k == i by {
                    if k < i {
                    } else if k > i {
                        assert(pattern_error(pv[i as int]) is None);
                    }
                }
            }
            return Err(EngitError::Publish(string_of(&m)));
        }
        i = i + 1;
    }
    Ok(())
}

/// The texts of strings.
pub open spec fn texts_of(v: Seq<String>) -> Seq<Seq<char>> {
    v.map_values(|p: String| p@)
}

// ---------------------------------------------------------------------------
// The files of one publish source
// ---------------------------------------------------------------------------

/// The built-in include patterns, as texts.
pub open spec fn default_includes() -> Seq<Seq<char>> {
    DEFAULT_INCLUDES@.map_values(|p: &str| p@)
}

/// The built-in exclude patterns, as texts.
pub open spec fn default_excludes() -> Seq<Seq<char>> {
    DEFAULT_EXCLUDES@.map_values(|p: &str| p@)
}

/// Whether a pattern holds a glob metacharacter (`*`, `?`, `[` or `]`).
pub open spec fn has_glob_meta(p: Seq<char>) -> bool {
    p.contains('*') || p.contains('?') || p.contains('[') || p.contains(']')
}

/// An explicit include pattern as it is matched: a plain pattern that
/// names a directory of the source stands for everything under it.
pub open spec fn expanded_include(p: Seq<char>, is_dir: bool) -> Seq<char> {
    let n = pattern_text(p);
    if !has_glob_meta(n) && is_dir {
        strip_trailing(n, '/') + "/**"@
    } else {
        n
    }
}

/// [`expanded_include`] of each pattern, given whether it names a directory.
pub open spec fn expanded_includes(ps: Seq<Seq<char>>, dirs: Seq<bool>) -> Seq<Seq<char>> {
    Seq::new(ps.len(), |i: int| expanded_include(ps[i], dirs[i]))
}

/// The include patterns of a source: the defaults, then its own, then the
/// command line's, expanded.
pub open spec fn source_includes(
    includes: Seq<Seq<char>>,
    include_dirs: Seq<bool>,
    cli_includes: Seq<Seq<char>>,
    cli_include_dirs: Seq<bool>,
) -> Seq<Seq<char>> {
    default_includes() + expanded_includes(includes, include_dirs) + expanded_includes(
        cli_includes,
        cli_include_dirs,
    )
}

/// The exclude patterns of a source: the defaults, then its own, then the
/// command line's, with backslashes made `/`.
pub open spec fn source_excludes(excludes: Seq<Seq<char>>, cli_excludes: Seq<Seq<char>>) -> Seq<
    Seq<char>,
> {
    default_excludes() + excludes.map_values(|p: Seq<char>| pattern_text(p)) + cli_excludes.map_values(
        |p: Seq<char>| pattern_text(p),
    )
}

/// Why a list of patterns cannot be built into a glob set, if it cannot:
/// the first refused pattern, else the builder's own error.
pub open spec fn glob_set_failure(ps: Seq<Seq<char>>) -> Option<Seq<char>> {
    if exists|k: int| first_refused_at(ps, k) {
        Some(invalid_pattern_text("publish"@, ps[choose|k: int| first_refused_at(ps, k)]))
    } else {
        match glob_set_build_error(ps.map_values(|p: Seq<char>| pattern_text(p))) {
            Some(e) => Some("Could not build publish patterns: "@ + e),
            None => None,
        }
    }
}

/// The compiled patterns of one publish source.
pub struct SourcePatterns {
    /// The source's explicit include patterns, as written.
    pub includes: Vec<String>,
    /// The explicit include patterns, expanded.
    pub expanded_includes: Vec<String>,
    /// The command line's include patterns, as written.
    pub cli_includes: Vec<String>,
    /// The command line's include patterns, expanded for this source.
    pub expanded_cli_includes: Vec<String>,
    /// Every include pattern of the source.
    pub include_set: globset::GlobSet,
    /// Every exclude pattern of the source.
    pub exclude_set: globset::GlobSet,
}

impl SourcePatterns {
    /// The written and the expanded patterns correspond one to one.
    pub open spec fn wf(&self) -> bool {
        &&& self.expanded_includes.len() == self.includes.len()
        &&& self.expanded_cli_includes.len() == self.cli_includes.len()
    }

    /// Whether the walk of the source skips `path` (a `/`-separated path
    /// relative to the source).
    pub fn is_excluded(&self, path: &str) -> (r: bool)
        ensures
            r == any_matches(glob_set_patterns(self.exclude_set), path@),
    {
        glob_set_is_match(&self.exclude_set, path)
    }
}

fn strings_of_array(a: &[&'static str]) -> (r: Vec<String>)
    ensures
        texts_of(r@) == a@.map_values(|p: &str| p@),
{
    let mut out: Vec<String> = Vec::new();
    let mut i: usize = 0;
    while i < a.len()
        invariant
            i <= a.len(),
            texts_of(out@) == a@.take(i as int).map_values(|p: &str| p@),
        decreases a.len() - i,
    {
        let ghost before = texts_of(out@);
        let item = a[i].to_owned();
        out.push(item);
        assert(texts_of(out@) =~= before.push(a@[i as int]@));
        assert(a@.take(i + 1).map_values(|p: &str| p@) =~= a@.take(i as int).map_values(|p: &str| p@).push(a@[i as int]@));
        i = i + 1;
    }
    assert(a@.take(a.len() as int) =~= a@);
    out
}

fn pattern_texts(ps: &Vec<String>) -> (r: Vec<String>)
    ensures
        texts_of(r@) == texts_of(ps@).map_values(|p: Seq<char>| pattern_text(p)),
{
    let mut out: Vec<String> = Vec::new();
    let mut i: usize = 0;
    while i < ps.len()
        invariant
            i <= ps.len(),
            texts_of(out@) == texts_of(ps@).take(i as int).map_values(|p: Seq<char>| pattern_text(p)),
        decreases ps.len() - i,
    {
        let ghost before = texts_of(out@);
        let cs = chars_of(ps[i].as_str());
        let item = string_of(&replace_chars(&cs, '\\', '/'));
        out.push(item);
        assert(texts_of(out@) =~= before.push(pattern_text(ps@[i as int]@)));
        assert(texts_of(ps@).take(i + 1).map_values(|p: Seq<char>| pattern_text(p)) =~= texts_of(ps@).take(i as int).map_values(|p: Seq<char>| pattern_text(p)).push(pattern_text(ps@[i as int]@)));
        i = i + 1;
    }
    assert(texts_of(ps@).take(ps.len() as int) =~= texts_of(ps@));
    out
}

fn expand_include(p: &str, is_dir: bool) -> (r: String)
    ensures
        r@ == expanded_include(p@, is_dir),
{
    proof {
        reveal_strlit("/**");
    }
    let cs = chars_of(p);
    let n = replace_chars(&cs, '\\', '/');
    if !(contains_char(&n, '*') || contains_char(&n, '?') || contains_char(&n, '[') || contains_char(&n, ']')) && is_dir {
        let mut t = strip_trailing_chars(&n, '/');
        extend_str(&mut t, "/**");
        string_of(&t)
    } else {
        string_of(&n)
    }
}

fn expand_includes(ps: &Vec<String>, dirs: &Vec<bool>) -> (r: Vec<String>)
    requires
        dirs.len() == ps.len(),
    ensures
        texts_of(r@) == expanded_includes(texts_of(ps@), dirs@),
{
    let mut out: Vec<String> = Vec::new();
    let mut i: usize = 0;
    while i < ps.len()
        invariant
            i <= ps.len(),
            dirs.len() == ps.len(),
            texts_of(out@) == expanded_includes(texts_of(ps@), dirs@).take(i as int),
        decreases ps.len() - i,
    {
        let ghost before = texts_of(out@);
        let item = expand_include(ps[i].as_str(), dirs[i]);
        out.push(item);
        assert(texts_of(out@) =~= before.push(item@));
        assert(expanded_includes(texts_of(ps@), dirs@).take(i + 1) =~= expanded_includes(texts_of(ps@), dirs@).take(i as int).push(item@));
        i = i + 1;
    }
    assert(expanded_includes(texts_of(ps@), dirs@).take(ps.len() as int) =~= expanded_includes(
        texts_of(ps@),
        dirs@,
    ));
    out
}

fn append_strings(a: &mut Vec<String>, b: &Vec<String>)
    ensures
        texts_of(final(a)@) == texts_of(old(a)@) + texts_of(b@),
{
    let mut i: usize = 0;
    while i < b.len()
        invariant
            i <= b.len(),
            texts_of(a@) == texts_of(old(a)@) + texts_of(b@).take(i as int),
        decreases b.len() - i,
    {
        let ghost before = texts_of(a@);
        let item = b[i].clone();
        a.push(item);
        assert(texts_of(a@) =~= before.push(b@[i as int]@));
        assert(texts_of(b@).take(i + 1) =~= texts_of(b@).take(i as int).push(b@[i as int]@));
        i = i + 1;
    }
    assert(texts_of(b@).take(b.len() as int) =~= texts_of(b@));
}

/// Builds the glob set of `ps`, failing as [`glob_set_failure`] says.
fn glob_set_of(ps: &Vec<String>) -> (r: Result<globset::GlobSet, EngitError>)
    ensures
        match glob_set_failure(texts_of(ps@)) {
            Some(m) => r matches Err(EngitError::Publish(x)) && x@ == m,
            None => r matches Ok(set) && glob_set_patterns(set) == texts_of(ps@).map_values(
                |p: Seq<char>| pattern_text(p),
            ),
        },
{
    let ghost pv = texts_of(ps@);
    match validate_patterns(ps, "publish") {
        Err(e) => {
            proof {
                reveal_strlit("publish");
                assert(exists|k: int| first_refused_at(pv, k)) by {
                    if !exists|k: int| first_refused_at(pv, k) {
                        assert(none_refused(pv)) by {
                            assert forall|j: int| 0 <= j < pv.len() implies pattern_error(#[trigger] pv[j]) is None by {
                                lemma_no_first_refused(pv, j);
                            }
                        }
                    }
                }
                let k = choose|k: int| first_refused_at(pv, k);
                assert(pv[k] == ps@[k]@);
            }
            return Err(e);
        },
        Ok(()) => {},
    }
    proof {
        if exists|k: int| first_refused_at(pv, k) {
            let k = choose|k: int| first_refused_at(pv, k);
            assert(ps@[k]@ == pv[k]);
        }
    }
    let texts = pattern_texts(ps);
    proof {
        assert forall|i: int| 0 <= i < texts_of(texts@).len() implies glob_new_error(#[trigger] texts_of(texts@)[i]) is None by {
            if !exists|k: int| first_refused_at(pv, k) {
                lemma_no_first_refused(pv, i);
            }
        }
    }
    assert(texts_of(texts@) == texts@.map_values(|p: String| p@));
    match build_glob_set(&texts) {
        Ok(set) => Ok(set),
        Err(e) => {
            let mut m = chars_of("Could not build publish patterns: ");
            extend_str(&mut m, e.as_str());
            Err(EngitError::Publish(string_of(&m)))
        },
    }
}

/// When no pattern is the first refused one, none is refused.
proof fn lemma_no_first_refused(ps: Seq<Seq<char>>, j: int)
    requires
        0 <= j < ps.len(),
        !exists|k: int| first_refused_at(ps, k),
    ensures
        pattern_error(ps[j]) is None,
    decreases j,
{
    if pattern_error(ps[j]) is Some {
        assert forall|i: int| 0 <= i < j implies pattern_error(#[trigger] ps[i]) is None by {
            lemma_no_first_refused(ps, i);
        }
        assert(first_refused_at(ps, j));
    }
}

/// Compile the patterns of one publish source: its explicit includes
/// (given whether each names a directory of the source) and excludes, and
/// the command line's. Every pattern must compile and each set must build.
pub fn source_patterns(
    includes: &Vec<String>,
    include_dirs: &Vec<bool>,
    excludes: &Vec<String>,
    cli_includes: &Vec<String>,
    cli_include_dirs: &Vec<bool>,
    cli_excludes: &Vec<String>,
) -> (r: Result<SourcePatterns, EngitError>)
    requires
        include_dirs.len() == includes.len(),
        cli_include_dirs.len() == cli_includes.len(),
    ensures
        ({
            let inc = source_includes(
                texts_of(includes@),
                include_dirs@,
                texts_of(cli_includes@),
                cli_include_dirs@,
            );
            let exc = source_excludes(texts_of(excludes@), texts_of(cli_excludes@));
            match glob_set_failure(inc) {
                Some(m) => r matches Err(EngitError::Publish(x)) && x@ == m,
                None => match glob_set_failure(exc) {
                    Some(m) => r matches Err(EngitError::Publish(x)) && x@ == m,
                    None => r matches Ok(p) && p.wf() && texts_of(p.includes@) == texts_of(includes@)
                        && texts_of(p.cli_includes@) == texts_of(cli_includes@)
                        && texts_of(p.expanded_includes@) == expanded_includes(
                        texts_of(includes@),
                        include_dirs@,
                    ) && texts_of(p.expanded_cli_includes@) == expanded_includes(
                        texts_of(cli_includes@),
                        cli_include_dirs@,
                    ) && glob_set_patterns(p.include_set) == inc.map_values(
                        |q: Seq<char>| pattern_text(q),
                    ) && glob_set_patterns(p.exclude_set) == exc.map_values(
                        |q: Seq<char>| pattern_text(q),
                    ),
                },
            }
        }),
{
    let expanded = expand_includes(includes, include_dirs);
    let expanded_cli = expand_includes(cli_includes, cli_include_dirs);
    let mut all_includes = strings_of_array(&DEFAULT_INCLUDES);
    append_strings(&mut all_includes, &expanded);
    append_strings(&mut all_includes, &expanded_cli);
    let mut all_excludes = strings_of_array(&DEFAULT_EXCLUDES);
    let ex = pattern_texts(excludes);
    let cex = pattern_texts(cli_excludes);
    append_strings(&mut all_excludes, &ex);
    append_strings(&mut all_excludes, &cex);
    let include_set = glob_set_of(&all_includes)?;
    let exclude_set = glob_set_of(&all_excludes)?;
    Ok(SourcePatterns {
        includes: clone_strings(includes),
        expanded_includes: expanded,
        cli_includes: clone_strings(cli_includes),
        expanded_cli_includes: expanded_cli,
        include_set,
        exclude_set,
    })
}

fn clone_strings(v: &Vec<String>) -> (r: Vec<String>)
    ensures
        texts_of(r@) == texts_of(v@),
{
    let mut out: Vec<String> = Vec::new();
    append_strings(&mut out, v);
    assert(texts_of(Seq::<String>::empty()) + texts_of(v@) =~= texts_of(v@));
    out
}

/// Whether some file matches the pattern.
pub open spec fn some_file_matches(pattern: Seq<char>, files: Seq<Seq<char>>) -> bool {
    exists|i: int| 0 <= i < files.len() && glob_matches(pattern_text(pattern), #[trigger] files[i])
}

/// The message for an explicit include pattern that matched nothing.
pub open spec fn unmatched_include_text(written: Seq<char>, source: Seq<char>) -> Seq<char> {
    "Explicit include pattern "@ + debug_text(written) + " matched no files under '"@ + source
        + "'."@
}

/// Why the explicit include `written`, expanded to `expanded`, fails on
/// the files of `source`, if it does.
pub open spec fn include_failure(
    written: Seq<char>,
    expanded: Seq<char>,
    files: Seq<Seq<char>>,
    source: Seq<char>,
) -> Option<Seq<char>> {
    match matcher_error(expanded) {
        Some(e) => Some(e),
        None => if some_file_matches(expanded, files) {
            None
        } else {
            Some(unmatched_include_text(written, source))
        },
    }
}

/// `k` is the first explicit include that fails.
pub open spec fn first_include_failure_at(
    p: SourcePatterns,
    files: Seq<Seq<char>>,
    source: Seq<char>,
    k: int,
) -> bool {
    &&& 0 <= k < p.includes.len()
    &&& include_failure(p.includes@[k]@, p.expanded_includes@[k]@, files, source) is Some
    &&& forall|j: int|
        0 <= j < k ==> (#[trigger] include_failure(
            p.includes@[j]@,
            p.expanded_includes@[j]@,
            files,
            source,
        )) is None
}

/// No explicit include fails.
pub open spec fn no_include_failure(p: SourcePatterns, files: Seq<Seq<char>>, source: Seq<char>) -> bool {
    forall|j: int|
        0 <= j < p.includes.len() ==> (#[trigger] include_failure(
            p.includes@[j]@,
            p.expanded_includes@[j]@,
            files,
            source,
        )) is None
}

/// Whether a file of the walk is published: some include pattern matches
/// it and no exclude pattern does.
pub open spec fn is_selected(p: SourcePatterns, file: Seq<char>) -> bool {
    any_matches(glob_set_patterns(p.include_set), file) && !any_matches(
        glob_set_patterns(p.exclude_set),
        file,
    )
}

/// The published files of a source, in walk order: the full source path
/// and the relative path of each selected file.
pub open spec fn selected_entries(p: SourcePatterns, source: Seq<char>, files: Seq<Seq<char>>) -> Seq<
    (Seq<char>, Seq<char>),
>
    decreases files.len(),
{
    if files.len() == 0 {
        Seq::empty()
    } else {
        let rest = selected_entries(p, source, files.drop_last());
        let f = files.last();
        if is_selected(p, f) {
            rest.push((path_join(source, f), f))
        } else {
            rest
        }
    }
}

/// The files one publish source contributes, and which command-line
/// include patterns matched some file of it.
pub struct SourceSelection {
    /// `(source path, relative path)` of each published file.
    pub files: Vec<(String, String)>,
    /// For each command-line include pattern, whether it matched a file.
    pub matched_cli: Vec<bool>,
}

fn any_file_matches(set: &globset::GlobSet, files: &Vec<String>) -> (r: bool)
    requires
        glob_set_patterns(*set).len() == 1,
    ensures
        r == exists|i: int| 0 <= i < files@.len() && glob_matches(glob_set_patterns(*set)[0], #[trigger] files@[i]@),
{
    let ghost pattern = glob_set_patterns(*set)[0];
    let mut i: usize = 0;
    while i < files.len()
        invariant
            i <= files.len(),
            glob_set_patterns(*set).len() == 1,
            pattern == glob_set_patterns(*set)[0],
            forall|k: int| 0 <= k < i ==> !glob_matches(pattern, #[trigger] files@[k]@),
        decreases files.len() - i,
    {
        if single_set_matches(set, files[i].as_str()) {
            return true;
        }
        i = i + 1;
    }
    false
}

/// Checks one expanded pattern against the files: `Err` with the
/// compiler's message when it does not compile, else whether it matches.
fn pattern_matches_files(expanded: &str, files: &Vec<String>) -> (r: Result<bool, String>)
    ensures
        match matcher_error(expanded@) {
            Some(e) => r matches Err(x) && x@ == e,
            None => r matches Ok(b) && b == some_file_matches(expanded@, texts_of(files@)),
        },
{
    let cs = chars_of(expanded);
    let t = string_of(&replace_chars(&cs, '\\', '/'));
    match glob_error(t.as_str()) {
        Some(e) => Err(e),
        None => {
            let set = match single_pattern_set(t.as_str()) {
                Ok(set) => set,
                Err(e) => return Err(e),
            };
            let b = any_file_matches(&set, files);
            proof {
                let fv = texts_of(files@);
                if b {
                    let i = choose|i: int| 0 <= i < files@.len() && glob_matches(t@, #[trigger] files@[i]@);
                    assert(fv[i] == files@[i]@);
                }
                if some_file_matches(expanded@, fv) {
                    let i = choose|i: int| 0 <= i < fv.len() && glob_matches(pattern_text(expanded@), #[trigger] fv[i]);
                    assert(fv[i] == files@[i]@);
                }
            }
            Ok(b)
        },
    }
}

/// `r` is what selecting the published files of a source gives for the
/// files `files` its walk found (see [`select_source_files`]).
pub open spec fn selection_of(
    p: SourcePatterns,
    files: Seq<Seq<char>>,
    source: Seq<char>,
    r: Result<SourceSelection, EngitError>,
) -> bool {
    &&& forall|k: int| #[trigger] first_include_failure_at(p, files, source, k) ==> (r matches Err(
        EngitError::Publish(m),
    ) && Some(m@) == include_failure(p.includes@[k]@, p.expanded_includes@[k]@, files, source))
    &&& no_include_failure(p, files, source) ==> (forall|k: int| #[trigger]
        first_unmatchable_at(texts_of(p.expanded_cli_includes@), k) ==> (r matches Err(
            EngitError::Publish(m),
        ) && Some(m@) == matcher_error(p.expanded_cli_includes@[k]@)))
    &&& no_include_failure(p, files, source) && all_matchable(texts_of(p.expanded_cli_includes@)) ==> (
    r matches Ok(sel) && pair_texts(sel.files@) == selected_entries(p, source, files)
        && sel.matched_cli@.len() == p.cli_includes.len() && forall|j: int|
        0 <= j < p.cli_includes.len() ==> #[trigger] sel.matched_cli@[j] == some_file_matches(
            p.expanded_cli_includes@[j]@,
            files,
        ))
}

/// Select the published files of one source from the files `files`
/// (`/`-separated paths relative to the source), in their order: each file
/// is judged by its own path. Every explicit include pattern must match
/// some file; the result records which command-line include patterns
/// matched. [`crate::walk::collect_source_files`] first applies the walk's
/// exclusions and its order.
pub fn select_source_files(p: &SourcePatterns, files: &Vec<String>, source: &str) -> (r: Result<
    SourceSelection,
    EngitError,
>)
    requires
        p.wf(),
    ensures
        forall|k: int| #[trigger] first_include_failure_at(*p, texts_of(files@), source@, k) ==> (r matches Err(
            EngitError::Publish(m),
        ) && Some(m@) == include_failure(
            p.includes@[k]@,
            p.expanded_includes@[k]@,
            texts_of(files@),
            source@,
        )),
        no_include_failure(*p, texts_of(files@), source@) ==> (forall|k: int| #[trigger]
            first_unmatchable_at(texts_of(p.expanded_cli_includes@), k) ==> (r matches Err(
                EngitError::Publish(m),
            ) && Some(m@) == matcher_error(p.expanded_cli_includes@[k]@))),
        no_include_failure(*p, texts_of(files@), source@) && all_matchable(
            texts_of(p.expanded_cli_includes@),
        ) ==> (r matches Ok(sel) && pair_texts(sel.files@) == selected_entries(
            *p,
            source@,
            texts_of(files@),
        ) && sel.matched_cli@.len() == p.cli_includes.len() && forall|j: int|
            0 <= j < p.cli_includes.len() ==> #[trigger] sel.matched_cli@[j] == some_file_matches(
                p.expanded_cli_includes@[j]@,
                texts_of(files@),
            )),
        selection_of(*p, texts_of(files@), source@, r),
        r matches Ok(sel) ==> pair_texts(sel.files@) == selected_entries(*p, source@, texts_of(files@)),
{
    let ghost fv = texts_of(files@);
    let mut i: usize = 0;
    while i < p.includes.len()
        invariant
            i <= p.includes.len(),
            p.wf(),
            fv == texts_of(files@),
            forall|j: int|
                0 <= j < i ==> (#[trigger] include_failure(
                    p.includes@[j]@,
                    p.expanded_includes@[j]@,
                    fv,
                    source@,
                )) is None,
        decreases p.includes.len() - i,
    {
        let failure: Option<String> = match pattern_matches_files(p.expanded_includes[i].as_str(), files) {
            Err(e) => Some(e),
            Ok(true) => None,
            Ok(false) => {
                let mut m = chars_of("Explicit include pattern ");
                let q = debug_quoted(p.includes[i].as_str());
                extend_str(&mut m, q.as_str());
                extend_str(&mut m, " matched no files under '");
                extend_str(&mut m, source);
                extend_str(&mut m, "'.");
                Some(string_of(&m))
            },
        };
        if let Some(m) = failure {
            proof {
                assert(first_include_failure_at(*p, fv, source@, i as int));
                assert forall|k: int| #[trigger] first_include_failure_at(*p, fv, source@, k) implies k == i by {
                    if k > i {
                        assert(include_failure(p.includes@[i as int]@, p.expanded_includes@[i as int]@, fv, source@) is None);
                    }
                }
            }
            return Err(EngitError::Publish(m));
        }
        i = i + 1;
    }
    let mut matched: Vec<bool> = Vec::new();
    let mut j: usize = 0;
    while j < p.cli_includes.len()
        invariant
            j <= p.cli_includes.len(),
            p.wf(),
            fv == texts_of(files@),
            no_include_failure(*p, fv, source@),
            matched@.len() == j,
            forall|k: int| 0 <= k < j ==> matcher_error(#[trigger] texts_of(p.expanded_cli_includes@)[k]) is None,
            forall|k: int| 0 <= k < j ==> #[trigger] matched@[k] == some_file_matches(
                p.expanded_cli_includes@[k]@,
                fv,
            ),
        decreases p.cli_includes.len() - j,
    {
        assert(texts_of(p.expanded_cli_includes@)[j as int] == p.expanded_cli_includes@[j as int]@);
        match pattern_matches_files(p.expanded_cli_includes[j].as_str(), files) {
            Err(e) => {
                proof {
                    let ev = texts_of(p.expanded_cli_includes@);
                    assert(first_unmatchable_at(ev, j as int));
                    assert forall|k: int| #[trigger] first_unmatchable_at(ev, k) implies k == j by {
                        if k > j {
                            assert(matcher_error(ev[j as int]) is None);
                        }
                    }
                }
                return Err(EngitError::Publish(e));
            },
            Ok(b) => {
                matched.push(b);
            },
        }
        j = j + 1;
    }
    let mut out: Vec<(String, String)> = Vec::new();
    let mut k: usize = 0;
    assert(fv.take(0) =~= Seq::<Seq<char>>::empty());
    while k < files.len()
        invariant
            k <= files.len(),
            fv == texts_of(files@),
            pair_texts(out@) == selected_entries(*p, source@, fv.take(k as int)),
        decreases files.len() - k,
    {
        let ghost before = pair_texts(out@);
        proof {
            let t = fv.take(k + 1);
            assert(t.drop_last() =~= fv.take(k as int));
            assert(t.last() == files@[k as int]@);
        }
        let f = files[k].as_str();
        if glob_set_is_match(&p.include_set, f) && !glob_set_is_match(&p.exclude_set, f) {
            let full = path_join_str(source, f);
            out.push((full, f.to_owned()));
            assert(pair_texts(out@) =~= before.push((path_join(source@, f@), f@)));
        }
        k = k + 1;
    }
    assert(fv.take(files.len() as int) =~= fv);
    Ok(SourceSelection { files: out, matched_cli: matched })
}

// ---------------------------------------------------------------------------
// The files of a publish, keyed by destination
// ---------------------------------------------------------------------------

/// The key of a `(source, destination)` entry: the destination's components.
pub open spec fn entry_key(e: (Seq<char>, Seq<char>)) -> Seq<Seq<char>> {
    path_components(e.1)
}

/// The entries are in strictly increasing order of destination.
pub open spec fn sorted_by_destination(es: Seq<(Seq<char>, Seq<char>)>) -> bool {
    forall|i: int, j: int|
        0 <= i < j < es.len() ==> path_order(entry_key(#[trigger] es[i]), entry_key(#[trigger] es[j]))
            < 0
}

/// The number of leading entries whose destination comes before `k`: where
/// `k` belongs in a sorted list.
pub open spec fn lower_bound(es: Seq<(Seq<char>, Seq<char>)>, k: Seq<Seq<char>>) -> int
    decreases es.len(),
{
    if es.len() == 0 {
        0
    } else if path_order(entry_key(es[0]), k) < 0 {
        1 + lower_bound(es.drop_first(), k)
    } else {
        0
    }
}

/// Whether the sorted entries hold the destination `k`.
pub open spec fn has_destination(es: Seq<(Seq<char>, Seq<char>)>, k: Seq<Seq<char>>) -> bool {
    let p = lower_bound(es, k);
    p < es.len() && entry_key(es[p]) == k
}

/// The sorted entries after inserting `e` as a map keyed by destination
/// does (`BTreeMap::insert`): a new destination goes in its place; for one
/// already held, the source is replaced and the held destination kept.
pub open spec fn map_insert(es: Seq<(Seq<char>, Seq<char>)>, e: (Seq<char>, Seq<char>)) -> Seq<
    (Seq<char>, Seq<char>),
> {
    let p = lower_bound(es, entry_key(e));
    if has_destination(es, entry_key(e)) {
        es.update(p, (e.0, es[p].1))
    } else {
        es.insert(p, e)
    }
}

/// The sorted entries after inserting each of `new` in turn.
#[verifier::opaque]
pub open spec fn insert_all(es: Seq<(Seq<char>, Seq<char>)>, new: Seq<(Seq<char>, Seq<char>)>) -> Seq<
    (Seq<char>, Seq<char>),
>
    decreases new.len(),
{
    if new.len() == 0 {
        es
    } else {
        map_insert(insert_all(es, new.drop_last()), new.last())
    }
}

/// Where a file of an artifact source is published: its relative path
/// under the artifact's destination (a destination of `.` adds nothing).
pub open spec fn artifact_destination(destination: Seq<char>, relative: Seq<char>) -> Seq<char> {
    if path_components(destination) == seq!["."@] {
        relative
    } else {
        path_join(destination, relative)
    }
}

/// The entries of an artifact source's files under its destination.
pub open spec fn artifact_entries(destination: Seq<char>, files: Seq<(Seq<char>, Seq<char>)>) -> Seq<
    (Seq<char>, Seq<char>),
> {
    files.map_values(|f: (Seq<char>, Seq<char>)| (f.0, artifact_destination(destination, f.1)))
}

/// `j` is the first entry of `new` whose destination is already taken when
/// it is added to `es`.
pub open spec fn first_collision_at(
    es: Seq<(Seq<char>, Seq<char>)>,
    new: Seq<(Seq<char>, Seq<char>)>,
    j: int,
) -> bool {
    &&& 0 <= j < new.len()
    &&& has_destination(insert_all(es, new.take(j)), entry_key(new[j]))
    &&& forall|i: int|
        0 <= i < j ==> !has_destination(
            insert_all(es, new.take(i)),
            entry_key(#[trigger] new[i]),
        )
}

/// The message for a destination published twice.
pub open spec fn collision_text(destination: Seq<char>, existing: Seq<char>, source: Seq<char>) -> Seq<
    char,
> {
    "Publish destination collision at '"@ + destination + "': '"@ + existing + "' and '"@ + source
        + "'."@
}

/// The message for a command-line include that matched nothing.
pub open spec fn unmatched_cli_text(pattern: Seq<char>) -> Seq<char> {
    "CLI include pattern "@ + debug_text(pattern) + " matched no files in any publish source."@
}

/// Whether the pattern at `j` (or an equal one) matched in some source.
pub open spec fn cli_matched(patterns: Seq<Seq<char>>, matched: Seq<bool>, j: int) -> bool {
    exists|k: int| 0 <= k < patterns.len() && patterns[k] == patterns[j] && #[trigger] matched[k]
}

/// The files of a publish, in order of destination, with which
/// command-line include patterns matched some file so far.
pub struct PublishFiles {
    entries: Vec<(String, String)>,
    keys: Vec<Vec<Vec<char>>>,
    matched_cli: Vec<bool>,
}

impl View for PublishFiles {
    type V = Seq<(Seq<char>, Seq<char>)>;

    /// The `(source, destination)` entries, sorted by destination.
    closed spec fn view(&self) -> Seq<(Seq<char>, Seq<char>)> {
        pair_texts(self.entries@)
    }
}

proof fn lemma_lower_bound(es: Seq<(Seq<char>, Seq<char>)>, k: Seq<Seq<char>>, p: int)
    requires
        0 <= p <= es.len(),
        forall|j: int| 0 <= j < p ==> path_order(entry_key(#[trigger] es[j]), k) < 0,
        p == es.len() || path_order(entry_key(es[p]), k) >= 0,
    ensures
        lower_bound(es, k) == p,
    decreases p,
{
    if p > 0 {
        assert(path_order(entry_key(es[0]), k) < 0);
        assert forall|j: int| 0 <= j < p - 1 implies path_order(entry_key(#[trigger] es.drop_first()[j]), k) < 0 by {
            assert(es.drop_first()[j] == es[j + 1]);
        }
        if p < es.len() {
            assert(es.drop_first()[p - 1] == es[p]);
        }
        lemma_lower_bound(es.drop_first(), k, p - 1);
    }
}

impl PublishFiles {
    /// Each key is its entry's destination components, and the entries are
    /// sorted by destination.
    pub closed spec fn wf(&self) -> bool {
        &&& self.keys.len() == self.entries.len()
        &&& forall|i: int|
            0 <= i < self.keys.len() ==> texts(#[trigger] self.keys@[i]@) == entry_key(self@[i])
        &&& sorted_by_destination(self@)
    }

    /// For each command-line include pattern, whether it matched so far.
    pub closed spec fn matched(&self) -> Seq<bool> {
        self.matched_cli@
    }

    /// Where `key` belongs, and whether it is already held.
    fn locate(&self, key: &Vec<Vec<char>>) -> (r: (usize, bool))
        requires
            self.wf(),
        ensures
            r.0 as int == lower_bound(self@, texts(key@)),
            r.1 == has_destination(self@, texts(key@)),
    {
        let ghost es = self@;
        let ghost k = texts(key@);
        let mut i: usize = 0;
        while i < self.keys.len() && path_compare(&self.keys[i], key) < 0
            invariant
                i <= self.keys.len(),
                self.wf(),
                es == self@,
                k == texts(key@),
                forall|j: int| 0 <= j < i ==> path_order(entry_key(#[trigger] es[j]), k) < 0,
            decreases self.keys.len() - i,
        {
            assert(texts(self.keys@[i as int]@) == self.keys@[i as int]@.map_values(|p: Vec<char>| p@));
            i = i + 1;
        }
        let found = if i < self.keys.len() {
            assert(texts(self.keys@[i as int]@) == self.keys@[i as int]@.map_values(|p: Vec<char>| p@));
            path_compare(&self.keys[i], key) == 0
        } else {
            false
        };
        proof {
            lemma_lower_bound(es, k, i as int);
            if i < self.keys.len() {
                lemma_path_order_props(entry_key(es[i as int]), k);
            }
        }
        (i, found)
    }

    /// Insert a new destination at `p`, its place in the order.
    fn insert_at(&mut self, p: usize, key: Vec<Vec<char>>, source: String, destination: String)
        requires
            old(self).wf(),
            p == lower_bound(old(self)@, texts(key@)),
            !has_destination(old(self)@, texts(key@)),
            texts(key@) == path_components(destination@),
        ensures
            final(self).wf(),
            final(self)@ == old(self)@.insert(p as int, (source@, destination@)),
            final(self).matched() == old(self).matched(),
    {
        let ghost es = self@;
        let ghost k = texts(key@);
        proof {
            lemma_lower_bound_props(es, k);
        }
        self.entries.insert(p, (source, destination));
        self.keys.insert(p, key);
        proof {
            let ns = self@;
            assert(ns =~= es.insert(p as int, (source@, destination@)));
            assert forall|i: int| 0 <= i < self.keys.len() implies texts(#[trigger] self.keys@[i]@) == entry_key(self@[i]) by {
                if i > p {
                    assert(self.keys@[i] == old(self).keys@[i - 1]);
                    assert(ns[i] == es[i - 1]);
                } else if i < p {
                    assert(self.keys@[i] == old(self).keys@[i]);
                }
            }
            assert forall|a: int, b: int| 0 <= a < b < ns.len() implies path_order(entry_key(#[trigger] ns[a]), entry_key(#[trigger] ns[b])) < 0 by {
                if b < p {
                } else if b == p {
                } else if a < p {
                    assert(ns[b] == es[b - 1]);
                    lemma_path_order_transitive(entry_key(ns[a]), k, entry_key(ns[b]));
                } else if a == p {
                    assert(ns[b] == es[b - 1]);
                } else {
                    assert(ns[a] == es[a - 1]);
                    assert(ns[b] == es[b - 1]);
                }
            }
        }
    }

    /// Replace the source of the held destination at `p`.
    fn replace_at(&mut self, p: usize, source: String)
        requires
            old(self).wf(),
            p < old(self)@.len(),
        ensures
            final(self).wf(),
            final(self)@ == old(self)@.update(p as int, (source@, old(self)@[p as int].1)),
            final(self).matched() == old(self).matched(),
    {
        let ghost es = self@;
        let dest = self.entries[p].1.clone();
        self.entries.set(p, (source, dest));
        proof {
            let ns = self@;
            assert(ns =~= es.update(p as int, (source@, es[p as int].1)));
            assert forall|i: int| 0 <= i < self.keys.len() implies texts(#[trigger] self.keys@[i]@) == entry_key(self@[i]) by {
                if i == p {
                    assert(entry_key(ns[i]) == entry_key(es[i]));
                } else {
                    assert(ns[i] == es[i]);
                }
            }
            assert forall|a: int, b: int| 0 <= a < b < ns.len() implies path_order(entry_key(#[trigger] ns[a]), entry_key(#[trigger] ns[b])) < 0 by {
                assert(entry_key(ns[a]) == entry_key(es[a]));
                assert(entry_key(ns[b]) == entry_key(es[b]));
            }
        }
    }

    /// Start a publish with the files of the bundle itself: each is
    /// published at its relative path.
    pub fn from_bundle(bundle: &SourceSelection) -> (r: PublishFiles)
        ensures
            r.wf(),
            r@ == insert_all(Seq::empty(), pair_texts(bundle.files@)),
            r.matched() == bundle.matched_cli@,
    {
        let mut out = PublishFiles { entries: Vec::new(), keys: Vec::new(), matched_cli: Vec::new() };
        let mut j: usize = 0;
        while j < bundle.matched_cli.len()
            invariant
                j <= bundle.matched_cli.len(),
                out.matched_cli@ == bundle.matched_cli@.take(j as int),
                out.entries@.len() == 0,
                out.keys@.len() == 0,
            decreases bundle.matched_cli.len() - j,
        {
            out.matched_cli.push(bundle.matched_cli[j]);
            assert(out.matched_cli@ =~= bundle.matched_cli@.take(j + 1));
            j = j + 1;
        }
        assert(bundle.matched_cli@.take(bundle.matched_cli.len() as int) =~= bundle.matched_cli@);
        assert(out@ =~= Seq::<(Seq<char>, Seq<char>)>::empty());
        let ghost new = pair_texts(bundle.files@);
        let mut i: usize = 0;
        proof {
            reveal(insert_all);
            assert(new.take(0) =~= Seq::<(Seq<char>, Seq<char>)>::empty());
        }
        while i < bundle.files.len()
            invariant
                i <= bundle.files.len(),
                new == pair_texts(bundle.files@),
                out.wf(),
                out@ == insert_all(Seq::empty(), new.take(i as int)),
                out.matched() == bundle.matched_cli@,
            decreases bundle.files.len() - i,
        {
            proof {
                lemma_insert_all_step(Seq::empty(), new, i as int);
            }
            let dest = bundle.files[i].1.clone();
            let source = bundle.files[i].0.clone();
            let dc = chars_of(dest.as_str());
            let key = path_components_of(&dc);
            assert(texts(key@) == key@.map_values(|p: Vec<char>| p@));
            let (p, found) = out.locate(&key);
            if found {
                out.replace_at(p, source);
            } else {
                out.insert_at(p, key, source, dest);
            }
            i = i + 1;
        }
        assert(new.take(bundle.files.len() as int) =~= new);
        out
    }

    /// Add the files of an artifact source under its destination; fails at
    /// the first file whose destination is already taken.
    pub fn add_artifact(&mut self, destination: &str, artifact: &SourceSelection) -> (r: Result<
        (),
        EngitError,
    >)
        requires
            old(self).wf(),
            artifact.matched_cli.len() == old(self).matched().len(),
        ensures
            final(self).wf(),
            forall|j: int| #[trigger]
                first_collision_at(
                    old(self)@,
                    artifact_entries(destination@, pair_texts(artifact.files@)),
                    j,
                ) ==> ({
                    let new = artifact_entries(destination@, pair_texts(artifact.files@));
                    let held = insert_all(old(self)@, new.take(j));
                    r matches Err(EngitError::Publish(m)) && m@ == collision_text(
                        new[j].1,
                        held[lower_bound(held, entry_key(new[j]))].0,
                        new[j].0,
                    )
                }),
            (forall|j: int|
                0 <= j < artifact.files.len() ==> !#[trigger] first_collision_at(
                    old(self)@,
                    artifact_entries(destination@, pair_texts(artifact.files@)),
                    j,
                )) ==> (r is Ok && final(self)@ == insert_all(
                old(self)@,
                artifact_entries(destination@, pair_texts(artifact.files@)),
            ) && final(self).matched().len() == old(self).matched().len() && forall|k: int|
                0 <= k < old(self).matched().len() ==> #[trigger] final(self).matched()[k] == (
                old(self).matched()[k] || artifact.matched_cli@[k])),
    {
        let ghost es0 = self@;
        let ghost m0 = self.matched();
        let entries = artifact_entries_of(destination, &artifact.files);
        self.add_entries(&entries)?;
        let ghost new = artifact_entries(destination@, pair_texts(artifact.files@));
        let mut k: usize = 0;
        while k < self.matched_cli.len()
            invariant
                k <= self.matched_cli.len(),
                self.matched_cli.len() == m0.len(),
                artifact.matched_cli.len() == m0.len(),
                self.wf(),
                self@ == insert_all(es0, new),
                forall|x: int| 0 <= x < k ==> #[trigger] self.matched_cli@[x] == (m0[x] || artifact.matched_cli@[x]),
                forall|x: int| k <= x < m0.len() ==> #[trigger] self.matched_cli@[x] == m0[x],
            decreases self.matched_cli.len() - k,
        {
            let b = self.matched_cli[k] || artifact.matched_cli[k];
            self.matched_cli.set(k, b);
            k = k + 1;
        }
        Ok(())
    }

    /// Add an entry whose destination must not be held yet: on a collision
    /// the entries stay as they were and the message is returned.
    fn add_new_entry(&mut self, source: String, dest: String) -> (r: Option<String>)
        requires
            old(self).wf(),
        ensures
            final(self).wf(),
            final(self).matched() == old(self).matched(),
            has_destination(old(self)@, path_components(dest@)) ==> (r matches Some(m) && final(self)@
                == old(self)@ && m@ == collision_text(
                dest@,
                old(self)@[lower_bound(old(self)@, path_components(dest@))].0,
                source@,
            )),
            !has_destination(old(self)@, path_components(dest@)) ==> (r is None && final(self)@
                == map_insert(old(self)@, (source@, dest@))),
    {
        let dc = chars_of(dest.as_str());
        let key = path_components_of(&dc);
        assert(texts(key@) == key@.map_values(|p: Vec<char>| p@));
        let (p, found) = self.locate(&key);
        if found {
            let existing = self.entries[p].0.as_str();
            let m = collision_message(dest.as_str(), existing, source.as_str());
            assert(self@[p as int].0 == existing@);
            return Some(m);
        }
        self.insert_at(p, key, source, dest);
        None
    }

    /// Add entries that must not take a held destination.
    fn add_entries(&mut self, new_entries: &Vec<(String, String)>) -> (r: Result<(), EngitError>)
        requires
            old(self).wf(),
        ensures
            final(self).wf(),
            final(self).matched() == old(self).matched(),
            forall|j: int| #[trigger]
                first_collision_at(old(self)@, pair_texts(new_entries@), j) ==> ({
                    let new = pair_texts(new_entries@);
                    let held = insert_all(old(self)@, new.take(j));
                    r matches Err(EngitError::Publish(m)) && m@ == collision_text(
                        new[j].1,
                        held[lower_bound(held, entry_key(new[j]))].0,
                        new[j].0,
                    )
                }),
            (forall|j: int|
                0 <= j < new_entries.len() ==> !#[trigger] first_collision_at(
                    old(self)@,
                    pair_texts(new_entries@),
                    j,
                )) ==> (r is Ok && final(self)@ == insert_all(old(self)@, pair_texts(new_entries@))),
    {
        let ghost es0 = self@;
        let ghost new = pair_texts(new_entries@);
        let mut i: usize = 0;
        proof {
            if new.len() > 0 {
                lemma_insert_all_step(es0, new, 0);
            } else {
                reveal(insert_all);
                assert(new.take(0) =~= Seq::<(Seq<char>, Seq<char>)>::empty());
            }
        }
        while i < new_entries.len()
            invariant
                i <= new_entries.len(),
                new == pair_texts(new_entries@),
                es0 == old(self)@,
                self.wf(),
                self@ == insert_all(es0, new.take(i as int)),
                self.matched() == old(self).matched(),
                forall|k: int| 0 <= k < i ==> !has_destination(
                    insert_all(es0, new.take(k)),
                    entry_key(#[trigger] new[k]),
                ),
            decreases new_entries.len() - i,
        {
            proof {
                lemma_insert_all_step(es0, new, i as int);
            }
            let source = new_entries[i].0.clone();
            let dest = new_entries[i].1.clone();
            assert(new[i as int] == (source@, dest@));
            match self.add_new_entry(source, dest) {
                Some(m) => {
                    proof {
                        lemma_first_collision(es0, new, i as int);
                    }
                    return Err(EngitError::Publish(m));
                },
                None => {},
            }
            i = i + 1;
        }
        assert(new.take(new_entries.len() as int) =~= new);
        Ok(())
    }

    /// The publish's `(source, destination)` entries in order of
    /// destination, once every command-line include pattern has matched a
    /// file in some source.
    pub fn finish(self, extra_includes: &Vec<String>) -> (r: Result<Vec<(String, String)>, EngitError>)
        requires
            self.wf(),
            self.matched().len() == extra_includes.len(),
        ensures
            (forall|j: int| 0 <= j < extra_includes.len() ==> #[trigger] cli_matched(
                texts_of(extra_includes@),
                self.matched(),
                j,
            )) ==> (r matches Ok(v) && pair_texts(v@) == self@),
            forall|j: int|
                0 <= j < extra_includes.len() && !#[trigger] cli_matched(
                    texts_of(extra_includes@),
                    self.matched(),
                    j,
                ) && (forall|i: int| 0 <= i < j ==> cli_matched(texts_of(extra_includes@), self.matched(), i))
                    ==> (r matches Err(EngitError::Publish(m)) && m@ == unmatched_cli_text(
                    extra_includes@[j]@,
                )),
    {
        let ghost pv = texts_of(extra_includes@);
        let mut j: usize = 0;
        while j < extra_includes.len()
            invariant
                j <= extra_includes.len(),
                pv == texts_of(extra_includes@),
                self.matched().len() == extra_includes.len(),
                forall|i: int| 0 <= i < j ==> #[trigger] cli_matched(pv, self.matched(), i),
            decreases extra_includes.len() - j,
        {
            let mut found = false;
            let mut k: usize = 0;
            let pj = chars_of(extra_includes[j].as_str());
            while k < extra_includes.len()
                invariant
                    k <= extra_includes.len(),
                    j < extra_includes.len(),
                    pv == texts_of(extra_includes@),
                    pj@ == pv[j as int],
                    self.matched().len() == extra_includes.len(),
                    found == exists|x: int| 0 <= x < k && pv[x] == pv[j as int] && #[trigger] self.matched()[x],
                decreases extra_includes.len() - k,
            {
                let pk = chars_of(extra_includes[k].as_str());
                assert(pv[k as int] == extra_includes@[k as int]@);
                if self.matched_cli[k] && chars_eq(&pk, &pj) {
                    found = true;
                }
                k = k + 1;
            }
            assert(pv[j as int] == extra_includes@[j as int]@);
            if !found {
                let mut m = chars_of("CLI include pattern ");
                let q = debug_quoted(extra_includes[j].as_str());
                extend_str(&mut m, q.as_str());
                extend_str(&mut m, " matched no files in any publish source.");
                proof {
                    assert(!cli_matched(pv, self.matched(), j as int));
                    assert forall|x: int|
                        0 <= x < extra_includes.len() && !#[trigger] cli_matched(pv, self.matched(), x)
                            && (forall|i: int| 0 <= i < x ==> cli_matched(pv, self.matched(), i))
                        implies x == j by {
                        if x > j {
                            assert(cli_matched(pv, self.matched(), j as int));
                        }
                    }
                }
                return Err(EngitError::Publish(string_of(&m)));
            }
            j = j + 1;
        }
        proof {
            assert forall|x: int|
                0 <= x < extra_includes.len() && !#[trigger] cli_matched(pv, self.matched(), x)
                    && (forall|i: int| 0 <= i < x ==> cli_matched(pv, self.matched(), i))
                implies false by {
            }
        }
        Ok(self.entries)
    }
}

fn collision_message(destination: &str, existing: &str, source: &str) -> (r: String)
    ensures
        r@ == collision_text(destination@, existing@, source@),
{
    let mut m = chars_of("Publish destination collision at '");
    extend_str(&mut m, destination);
    extend_str(&mut m, "': '");
    extend_str(&mut m, existing);
    extend_str(&mut m, "' and '");
    extend_str(&mut m, source);
    extend_str(&mut m, "'.");
    string_of(&m)
}

fn artifact_entries_of(destination: &str, files: &Vec<(String, String)>) -> (r: Vec<(String, String)>)
    ensures
        pair_texts(r@) == artifact_entries(destination@, pair_texts(files@)),
{
    proof {
        reveal_strlit(".");
    }
    let dcs = chars_of(destination);
    let dcomps = path_components_of(&dcs);
    let dot = chars_of(".");
    let is_cur = dcomps.len() == 1 && chars_eq(&dcomps[0], &dot);
    proof {
        let dv = dcomps@.map_values(|p: Vec<char>| p@);
        if is_cur {
            assert(dv =~= seq!["."@]);
        } else if dv.len() == 1 {
            assert(dv[0] == dcomps@[0]@);
            assert(dv != seq!["."@]);
        } else {
            assert(dv.len() != seq!["."@].len());
        }
    }
    let ghost target = artifact_entries(destination@, pair_texts(files@));
    let mut out: Vec<(String, String)> = Vec::new();
    let mut i: usize = 0;
    while i < files.len()
        invariant
            i <= files.len(),
            target == artifact_entries(destination@, pair_texts(files@)),
            is_cur == (path_components(destination@) == seq!["."@]),
            pair_texts(out@) == target.take(i as int),
        decreases files.len() - i,
    {
        let ghost before = pair_texts(out@);
        let rel = files[i].1.as_str();
        let dest = if is_cur {
            rel.to_owned()
        } else {
            path_join_str(destination, rel)
        };
        let source = files[i].0.clone();
        out.push((source, dest));
        assert(pair_texts(out@) =~= before.push(target[i as int]));
        assert(target.take(i + 1) =~= target.take(i as int).push(target[i as int]));
        i = i + 1;
    }
    assert(target.take(files.len() as int) =~= target);
    out
}

/// Inserting the first `i + 1` entries is inserting the first `i`, then
/// entry `i`.
pub proof fn lemma_insert_all_step(
    es: Seq<(Seq<char>, Seq<char>)>,
    new: Seq<(Seq<char>, Seq<char>)>,
    i: int,
)
    requires
        0 <= i < new.len(),
    ensures
        insert_all(es, new.take(i + 1)) == map_insert(insert_all(es, new.take(i)), new[i]),
        insert_all(es, new.take(0)) == es,
{
    reveal(insert_all);
    let t = new.take(i + 1);
    assert(t.drop_last() =~= new.take(i));
    assert(new.take(0) =~= Seq::<(Seq<char>, Seq<char>)>::empty());
}

/// A collision at `i`, with none before, is the first collision.
proof fn lemma_first_collision(
    es: Seq<(Seq<char>, Seq<char>)>,
    new: Seq<(Seq<char>, Seq<char>)>,
    i: int,
)
    requires
        0 <= i < new.len(),
        has_destination(insert_all(es, new.take(i)), entry_key(new[i])),
        forall|k: int| 0 <= k < i ==> !has_destination(
            insert_all(es, new.take(k)),
            entry_key(#[trigger] new[k]),
        ),
    ensures
        first_collision_at(es, new, i),
        forall|j: int| #[trigger] first_collision_at(es, new, j) ==> j == i,
{
    assert forall|j: int| #[trigger] first_collision_at(es, new, j) implies j == i by {
        if j > i {
            assert(!has_destination(insert_all(es, new.take(i)), entry_key(new[i])));
        }
    }
}

proof fn lemma_lower_bound_props(es: Seq<(Seq<char>, Seq<char>)>, k: Seq<Seq<char>>)
    requires
        sorted_by_destination(es),
    ensures
        0 <= lower_bound(es, k) <= es.len(),
        forall|j: int| 0 <= j < lower_bound(es, k) ==> path_order(entry_key(#[trigger] es[j]), k) < 0,
        !has_destination(es, k) ==> forall|j: int|
            lower_bound(es, k) <= j < es.len() ==> path_order(k, entry_key(#[trigger] es[j])) < 0,
    decreases es.len(),
{
    if es.len() > 0 {
        let t = es.drop_first();
        assert(sorted_by_destination(t)) by {
            assert forall|a: int, b: int| 0 <= a < b < t.len() implies path_order(entry_key(#[trigger] t[a]), entry_key(#[trigger] t[b])) < 0 by {
                assert(t[a] == es[a + 1]);
                assert(t[b] == es[b + 1]);
            }
        }
        lemma_lower_bound_props(t, k);
        let p = lower_bound(es, k);
        if path_order(entry_key(es[0]), k) < 0 {
            assert forall|j: int| 0 <= j < p implies path_order(entry_key(#[trigger] es[j]), k) < 0 by {
                if j > 0 {
                    assert(es[j] == t[j - 1]);
                }
            }
            if !has_destination(es, k) {
                if p < es.len() {
                    assert(es[p] == t[p - 1]);
                }
                assert forall|j: int| p <= j < es.len() implies path_order(k, entry_key(#[trigger] es[j])) < 0 by {
                    assert(es[j] == t[j - 1]);
                }
            }
        } else {
            if !has_destination(es, k) {
                lemma_path_order_props(entry_key(es[0]), k);
                assert(path_order(k, entry_key(es[0])) < 0);
                assert forall|j: int| 0 <= j < es.len() implies path_order(k, entry_key(#[trigger] es[j])) < 0 by {
                    if j > 0 {
                        lemma_path_order_transitive(k, entry_key(es[0]), entry_key(es[j]));
                    }
                }
            }
        }
    }
}

// ---------------------------------------------------------------------------
// The publish manifest
// ---------------------------------------------------------------------------

/// An external artifact source declared in the publish manifest.
pub struct ArtifactManifest {
    /// The source directory; may hold `${NAME}` tokens.
    pub source: String,
    /// Where the source's files go in the publish (`.` by default).
    pub destination: String,
    /// Extra include patterns for this source.
    pub includes: Vec<String>,
    /// Extra exclude patterns for this source.
    pub excludes: Vec<String>,
}

/// The publish manifest of a bundle (`.envoy/publish-manifest.yaml`).
pub struct PublishManifest {
    /// Extra include patterns for the bundle itself.
    pub includes: Vec<String>,
    /// Extra exclude patterns for the bundle itself.
    pub excludes: Vec<String>,
    /// External artifact sources.
    pub artifacts: Vec<ArtifactManifest>,
}

impl PublishManifest {
    /// The manifest of a bundle that has none.
    pub fn empty() -> (r: PublishManifest)
        ensures
            r.includes@.len() == 0,
            r.excludes@.len() == 0,
            r.artifacts@.len() == 0,
    {
        PublishManifest { includes: Vec::new(), excludes: Vec::new(), artifacts: Vec::new() }
    }
}

/// The message for a bundle that still has the retired manifest file.
pub open spec fn legacy_manifest_text(legacy_path: Seq<char>, manifest_path: Seq<char>) -> Seq<char> {
    "Legacy publish manifest '"@ + legacy_path + "' is no longer supported. Migrate it to '"@
        + manifest_path + "'."@
}

/// The error for a bundle that still has the retired manifest file at
/// `legacy_path`; `manifest_path` is where its replacement belongs.
pub fn legacy_manifest_error(legacy_path: &str, manifest_path: &str) -> (r: EngitError)
    ensures
        r matches EngitError::Publish(m) && m@ == legacy_manifest_text(legacy_path@, manifest_path@),
{
    let mut m = chars_of("Legacy publish manifest '");
    extend_str(&mut m, legacy_path);
    extend_str(&mut m, "' is no longer supported. Migrate it to '");
    extend_str(&mut m, manifest_path);
    extend_str(&mut m, "'.");
    EngitError::Publish(string_of(&m))
}

/// Check the command line's include and exclude patterns.
pub fn validate_cli_patterns(extra_includes: &Vec<String>, extra_excludes: &Vec<String>) -> (r: Result<
    (),
    EngitError,
>)
    ensures
        forall|k: int| #[trigger] first_refused_at(texts_of(extra_includes@), k) ==> (r matches Err(
            EngitError::Publish(m),
        ) && m@ == invalid_pattern_text("CLI include"@, extra_includes@[k]@)),
        none_refused(texts_of(extra_includes@)) ==> (forall|k: int| #[trigger]
            first_refused_at(texts_of(extra_excludes@), k) ==> (r matches Err(EngitError::Publish(m))
                && m@ == invalid_pattern_text("CLI exclude"@, extra_excludes@[k]@))),
        none_refused(texts_of(extra_includes@)) && none_refused(texts_of(extra_excludes@)) ==> r is Ok,
{
    validate_patterns(extra_includes, "CLI include")?;
    validate_patterns(extra_excludes, "CLI exclude")
}

/// Check the manifest's own include and exclude patterns.
pub fn validate_manifest_patterns(manifest: &PublishManifest) -> (r: Result<(), EngitError>)
    ensures
        forall|k: int| #[trigger] first_refused_at(texts_of(manifest.includes@), k) ==> (r matches Err(
            EngitError::Publish(m),
        ) && m@ == invalid_pattern_text("manifest include"@, manifest.includes@[k]@)),
        none_refused(texts_of(manifest.includes@)) ==> (forall|k: int| #[trigger]
            first_refused_at(texts_of(manifest.excludes@), k) ==> (r matches Err(EngitError::Publish(m))
                && m@ == invalid_pattern_text("manifest exclude"@, manifest.excludes@[k]@))),
        none_refused(texts_of(manifest.includes@)) && none_refused(texts_of(manifest.excludes@))
            ==> r is Ok,
{
    validate_patterns(&manifest.includes, "manifest include")?;
    validate_patterns(&manifest.excludes, "manifest exclude")
}

/// Check an artifact declaration and expand its source: the destination
/// must be safe, its patterns must compile, and every token of its source
/// must have a value. The result is the source path: the expanded text,
/// under the bundle directory when it is relative.
pub fn prepare_artifact(
    artifact: &ArtifactManifest,
    bundle_path: &str,
    version: &str,
    env: &Vec<(String, String)>,
) -> (r: Result<String, EngitError>)
    ensures
        !is_safe_destination(artifact.destination@) ==> (r matches Err(EngitError::Publish(m)) && m@
            == bad_destination_text(artifact.destination@)),
        is_safe_destination(artifact.destination@) ==> (forall|k: int| #[trigger]
            first_refused_at(texts_of(artifact.includes@), k) ==> (r matches Err(EngitError::Publish(m))
                && m@ == invalid_pattern_text("artifact include"@, artifact.includes@[k]@))),
        is_safe_destination(artifact.destination@) && none_refused(texts_of(artifact.includes@)) ==> (
        forall|k: int| #[trigger]
            first_refused_at(texts_of(artifact.excludes@), k) ==> (r matches Err(EngitError::Publish(m))
                && m@ == invalid_pattern_text("artifact exclude"@, artifact.excludes@[k]@))),
        is_safe_destination(artifact.destination@) && none_refused(texts_of(artifact.includes@))
            && none_refused(texts_of(artifact.excludes@)) ==> ({
            let missing = missing_tokens(artifact.source@, version@, pair_texts(env@));
            &&& missing.len() > 0 ==> (r matches Err(EngitError::Publish(m)) && exists|l: Seq<
                Seq<char>,
            >| is_sorted_set_of(l, missing) && m@ == unresolved_tokens_text(l))
            &&& missing.len() == 0 ==> (r matches Ok(p) && p@ == path_join(
                bundle_path@,
                expand_tokens(artifact.source@, version@, pair_texts(env@)),
            ))
        }),
{
    validate_destination(artifact.destination.as_str())?;
    validate_patterns(&artifact.includes, "artifact include")?;
    validate_patterns(&artifact.excludes, "artifact exclude")?;
    let expanded = resolve_asset_tokens_strict(artifact.source.as_str(), version, env)?;
    Ok(path_join_str(bundle_path, expanded.as_str()))
}

/// The error for an artifact source that is not a directory.
pub fn missing_source_error(source: &str) -> (r: EngitError)
    ensures
        r matches EngitError::Publish(m) && m@
            == "Publish artifact source does not exist or is not a directory: '"@ + source@ + "'"@,
{
    let mut m = chars_of("Publish artifact source does not exist or is not a directory: '");
    extend_str(&mut m, source);
    extend_str(&mut m, "'");
    EngitError::Publish(string_of(&m))
}

// ---------------------------------------------------------------------------
// Where a publish goes
// ---------------------------------------------------------------------------

/// Where the canonical bundle publish root comes from.
#[derive(Debug)]
pub struct PublishRoot {
    /// The root directory.
    pub path: String,
    /// Whether it came from the deprecated variable (a warning is due).
    pub deprecated: bool,
}

/// The message when no publish root is known.
pub open spec fn no_publish_root_text() -> Seq<char> {
    "No --output specified and neither "@ + BUNDLE_PUBLISH_ROOT_VAR@ + " nor "@
        + LEGACY_BUNDLE_PUBLISH_ROOT_VAR@ + " is set."@
}

/// Resolve the canonical bundle publish root from the values of
/// [`BUNDLE_PUBLISH_ROOT_VAR`] and [`LEGACY_BUNDLE_PUBLISH_ROOT_VAR`]: the
/// first that is set and not empty.
pub fn default_bundle_publish_root(preferred: Option<&str>, legacy: Option<&str>) -> (r: Result<
    PublishRoot,
    EngitError,
>)
    ensures
        (preferred matches Some(p) && p@.len() > 0) ==> (r matches Ok(root) && root.path@
            == preferred->Some_0@ && !root.deprecated),
        !(preferred matches Some(p) && p@.len() > 0) && (legacy matches Some(l) && l@.len() > 0) ==> (
        r matches Ok(root) && root.path@ == legacy->Some_0@ && root.deprecated),
        !(preferred matches Some(p) && p@.len() > 0) && !(legacy matches Some(l) && l@.len() > 0) ==> (
        r matches Err(EngitError::Publish(m)) && m@ == no_publish_root_text()),
{
    if let Some(p) = preferred {
        if p.unicode_len() > 0 {
            return Ok(PublishRoot { path: p.to_owned(), deprecated: false });
        }
    }
    if let Some(l) = legacy {
        if l.unicode_len() > 0 {
            return Ok(PublishRoot { path: l.to_owned(), deprecated: true });
        }
    }
    let mut m = chars_of("No --output specified and neither ");
    extend_str(&mut m, BUNDLE_PUBLISH_ROOT_VAR);
    extend_str(&mut m, " nor ");
    extend_str(&mut m, LEGACY_BUNDLE_PUBLISH_ROOT_VAR);
    extend_str(&mut m, " is set.");
    Err(EngitError::Publish(string_of(&m)))
}

/// The deprecation warning for the legacy publish root variable.
pub fn legacy_root_warning() -> (r: String)
    ensures
        r@ == "warning: "@ + LEGACY_BUNDLE_PUBLISH_ROOT_VAR@ + " is deprecated; use "@
            + BUNDLE_PUBLISH_ROOT_VAR@ + " instead."@,
{
    let mut m = chars_of("warning: ");
    extend_str(&mut m, LEGACY_BUNDLE_PUBLISH_ROOT_VAR);
    extend_str(&mut m, " is deprecated; use ");
    extend_str(&mut m, BUNDLE_PUBLISH_ROOT_VAR);
    extend_str(&mut m, " instead.");
    string_of(&m)
}

/// `parts` pushed in turn onto `base` (`PathBuf::push`).
pub open spec fn join_all(base: Seq<char>, parts: Seq<Seq<char>>) -> Seq<char>
    decreases parts.len(),
{
    if parts.len() == 0 {
        base
    } else {
        path_join(join_all(base, parts.drop_last()), parts.last())
    }
}

fn join_all_of(base: &str, parts: &Vec<String>) -> (r: String)
    ensures
        r@ == join_all(base@, texts_of(parts@)),
{
    let ghost pv = texts_of(parts@);
    let mut out = base.to_owned();
    let mut i: usize = 0;
    assert(pv.take(0) =~= Seq::<Seq<char>>::empty());
    while i < parts.len()
        invariant
            i <= parts.len(),
            pv == texts_of(parts@),
            out@ == join_all(base@, pv.take(i as int)),
        decreases parts.len() - i,
    {
        proof {
            let t = pv.take(i + 1);
            assert(t.drop_last() =~= pv.take(i as int));
            assert(t.last() == parts@[i as int]@);
        }
        out = path_join_str(out.as_str(), parts[i].as_str());
        i = i + 1;
    }
    assert(pv.take(parts.len() as int) =~= pv);
    out
}

/// The bundle directories for a bundle ID under each root: the ID split at
/// `:` and pushed onto the root.
pub open spec fn bndlid_candidates(roots: Seq<Seq<char>>, bndlid: Seq<char>) -> Seq<Seq<char>> {
    roots.map_values(|root: Seq<char>| path_join(root, join_all(Seq::empty(), split_on(bndlid, ':'))))
}

/// The roots listed in the value of `ENVOY_BNDL_ROOTS`: split at
/// `separator`, trimmed, empty entries dropped.
pub open spec fn bndl_roots(value: Seq<char>, separator: char) -> Seq<Seq<char>> {
    split_on(value, separator).map_values(|r: Seq<char>| trim(r)).filter(|r: Seq<char>| r.len() > 0)
}

/// The roots of the bundle search path (see [`bndl_roots`]).
pub fn bndl_roots_of(value: &str, separator: char) -> (r: Vec<String>)
    ensures
        texts_of(r@) == bndl_roots(value@, separator),
{
    let cs = chars_of(value);
    let pieces = split_chars(&cs, separator);
    let ghost tv = split_on(value@, separator).map_values(|r: Seq<char>| trim(r));
    let ghost pred = |r: Seq<char>| r.len() > 0;
    let mut out: Vec<String> = Vec::new();
    let mut i: usize = 0;
    assert(tv.take(0).filter(pred) =~= Seq::<Seq<char>>::empty()) by {
        lemma_filter_empty(tv.take(0), pred);
    }
    while i < pieces.len()
        invariant
            i <= pieces.len(),
            pieces@.map_values(|p: Vec<char>| p@) == split_on(value@, separator),
            tv == split_on(value@, separator).map_values(|r: Seq<char>| trim(r)),
            pred == (|r: Seq<char>| r.len() > 0),
            texts_of(out@) == tv.take(i as int).filter(pred),
        decreases pieces.len() - i,
    {
        let ghost before = texts_of(out@);
        let t = trim_chars(&pieces[i]);
        assert(tv[i as int] == trim(pieces@[i as int]@));
        proof {
            lemma_filter_step(tv, pred, i as int);
        }
        if t.len() > 0 {
            out.push(string_of(&t));
            assert(texts_of(out@) =~= before.push(t@));
        }
        i = i + 1;
    }
    assert(tv.take(pieces.len() as int) =~= tv);
    out
}

/// The candidate directories of a bundle ID, one per root.
pub fn bndlid_candidates_of(roots: &Vec<String>, bndlid: &str) -> (r: Vec<String>)
    ensures
        texts_of(r@) == bndlid_candidates(texts_of(roots@), bndlid@),
{
    let cs = chars_of(bndlid);
    let segs = split_chars(&cs, ':');
    let mut parts: Vec<String> = Vec::new();
    let mut j: usize = 0;
    while j < segs.len()
        invariant
            j <= segs.len(),
            texts_of(parts@) == segs@.map_values(|p: Vec<char>| p@).take(j as int),
        decreases segs.len() - j,
    {
        let ghost before = texts_of(parts@);
        parts.push(string_of(&segs[j]));
        assert(texts_of(parts@) =~= before.push(segs@[j as int]@));
        assert(segs@.map_values(|p: Vec<char>| p@).take(j + 1) =~= segs@.map_values(|p: Vec<char>| p@).take(j as int).push(segs@[j as int]@));
        j = j + 1;
    }
    assert(segs@.map_values(|p: Vec<char>| p@).take(segs.len() as int) =~= segs@.map_values(|p: Vec<char>| p@));
    let rel = join_all_of("", &parts);
    proof {
        assert(""@ =~= Seq::<char>::empty()) by {
            reveal_strlit("");
        }
    }
    let ghost target = bndlid_candidates(texts_of(roots@), bndlid@);
    let mut out: Vec<String> = Vec::new();
    let mut i: usize = 0;
    while i < roots.len()
        invariant
            i <= roots.len(),
            target == bndlid_candidates(texts_of(roots@), bndlid@),
            rel@ == join_all(Seq::empty(), split_on(bndlid@, ':')),
            texts_of(out@) == target.take(i as int),
        decreases roots.len() - i,
    {
        let ghost before = texts_of(out@);
        let c = path_join_str(roots[i].as_str(), rel.as_str());
        out.push(c);
        assert(texts_of(out@) =~= before.push(target[i as int]));
        assert(target.take(i + 1) =~= target.take(i as int).push(target[i as int]));
        i = i + 1;
    }
    assert(target.take(roots.len() as int) =~= target);
    out
}

/// Resolve a bundle ID against the value of `ENVOY_BNDL_ROOTS`, given for
/// each candidate directory ([`bndlid_candidates`]) whether it is a
/// directory: the first that is.
pub fn resolve_bndlid_to_path(
    bndlid: &str,
    roots_value: &str,
    separator: char,
    is_dir: &Vec<bool>,
) -> (r: Result<String, EngitError>)
    requires
        is_dir.len() == bndl_roots(roots_value@, separator).len(),
    ensures
        roots_value@.len() == 0 ==> (r matches Err(EngitError::Publish(m)) && m@
            == "Cannot resolve bundle ID "@ + debug_text(bndlid@) + ": ENVOY_BNDL_ROOTS is not set."@),
        roots_value@.len() > 0 ==> ({
            let cands = bndlid_candidates(bndl_roots(roots_value@, separator), bndlid@);
            &&& forall|k: int|
                0 <= k < is_dir.len() && is_dir@[k] && (forall|j: int|
                    0 <= j < k ==> !#[trigger] is_dir@[j]) ==> (r matches Ok(p) && p@ == cands[k])
            &&& (forall|j: int| 0 <= j < is_dir.len() ==> !#[trigger] is_dir@[j]) ==> (r matches Err(
                EngitError::Publish(m),
            ) && m@ == "Bundle "@ + debug_text(bndlid@) + " not found in ENVOY_BNDL_ROOTS ("@ + join(
                bndl_roots(roots_value@, separator),
                ", "@,
            ) + ")."@)
        }),
{
    proof {
        reveal_strlit("");
    }
    if roots_value.unicode_len() == 0 {
        let mut m = chars_of("Cannot resolve bundle ID ");
        let q = debug_quoted(bndlid);
        extend_str(&mut m, q.as_str());
        extend_str(&mut m, ": ENVOY_BNDL_ROOTS is not set.");
        return Err(EngitError::Publish(string_of(&m)));
    }
    let roots = bndl_roots_of(roots_value, separator);
    let cands = bndlid_candidates_of(&roots, bndlid);
    let ghost cv = bndlid_candidates(bndl_roots(roots_value@, separator), bndlid@);
    assert(texts_of(cands@).len() == cands@.len());
    assert(texts_of(roots@).len() == roots@.len());
    assert(cv.len() == texts_of(roots@).len());
    let mut i: usize = 0;
    while i < is_dir.len()
        invariant
            i <= is_dir.len(),
            is_dir.len() == cands.len(),
            roots_value@.len() > 0,
            texts_of(cands@) == cv,
            cv == bndlid_candidates(bndl_roots(roots_value@, separator), bndlid@),
            forall|j: int| 0 <= j < i ==> !#[trigger] is_dir@[j],
        decreases is_dir.len() - i,
    {
        if is_dir[i] {
            assert(texts_of(cands@)[i as int] == cands@[i as int]@);
            return Ok(cands[i].clone());
        }
        i = i + 1;
    }
    let mut m = chars_of("Bundle ");
    let q = debug_quoted(bndlid);
    extend_str(&mut m, q.as_str());
    extend_str(&mut m, " not found in ENVOY_BNDL_ROOTS (");
    let joined = join_strings(&roots, ", ");
    extend_str(&mut m, joined.as_str());
    extend_str(&mut m, ").");
    Err(EngitError::Publish(string_of(&m)))
}

// ---------------------------------------------------------------------------
// Planning a publish
// ---------------------------------------------------------------------------

/// The bundle name within its bundle ID: the text after the first `:`, or
/// the whole ID when it has none.
pub open spec fn bndl_name_of(bndlid: Seq<char>) -> Seq<char> {
    match split_once(bndlid, ':') {
        Some((_, rest)) => rest,
        None => bndlid,
    }
}

/// What a publish of a bundle is called and where it goes.
#[derive(Debug)]
pub struct PublishPlan {
    /// The bundle ID.
    pub bndlid: String,
    /// The bundle name within its ID.
    pub bndl_name: String,
    /// The runtime directory under the output directory.
    pub directory: String,
    /// The zip archive under the output directory.
    pub archive: String,
}

/// Settings for a bundle publish operation.
#[derive(Clone, Debug)]
pub struct BundlePublishOptions {
    /// Root directory that receives the versioned publish.
    pub output_dir: String,
    /// Version directory name, or [`DEV_VERSION`] for a development publish.
    pub version: String,
    /// Whether to create a zip archive alongside the runtime directory.
    pub create_zip: bool,
    /// Additional runtime globs applied to every publish source.
    pub extra_includes: Vec<String>,
    /// Additional exclusion globs applied to every publish source.
    pub extra_excludes: Vec<String>,
    /// Whether an existing development publish may be replaced.
    pub force: bool,
    /// Whether to validate and report the publish without writing it.
    pub dry_run: bool,
}

/// Paths created by a bundle publish.
#[derive(Clone, Debug, PartialEq, Eq)]
pub struct BundlePublishResult {
    /// Canonical runtime directory.
    pub directory: String,
    /// Optional zip archive generated alongside the runtime directory.
    pub archive: Option<String>,
}

impl PublishPlan {
    /// What a publish made from this plan reports: the runtime directory,
    /// and the archive when the options ask for one.
    pub fn result(&self, options: &BundlePublishOptions) -> (r: BundlePublishResult)
        ensures
            r.directory@ == self.directory@,
            options.create_zip ==> (r.archive matches Some(a) && a@ == self.archive@),
            !options.create_zip ==> r.archive is None,
    {
        let archive = if options.create_zip {
            Some(self.archive.clone())
        } else {
            None
        };
        BundlePublishResult { directory: self.directory.clone(), archive }
    }
}

/// The runtime directory of a publish: the bundle's publish path, then the
/// version, under the output directory.
pub open spec fn publish_directory(output_dir: Seq<char>, bundle_name: Seq<char>, version: Seq<char>) -> Seq<
    char,
> {
    path_join(path_join(output_dir, join_all(Seq::empty(), split_on(bundle_name, '-'))), version)
}

/// The zip archive of a publish: `<bundle name>-<version>.zip` under the
/// output directory.
pub open spec fn publish_archive(output_dir: Seq<char>, bundle_name: Seq<char>, version: Seq<char>) -> Seq<
    char,
> {
    path_join(output_dir, bundle_name + "-"@ + version + ".zip"@)
}

/// Check the settings of a publish and name it: the version must be one
/// safe path component, and `force` is only for the development version.
pub fn plan_publish(output_dir: &str, bundle_name: &str, version: &str, force: bool) -> (r: Result<
    PublishPlan,
    EngitError,
>)
    ensures
        !is_safe_version(version@) ==> (r matches Err(EngitError::Publish(m)) && m@ == bad_version_text(
            version@,
        )),
        is_safe_version(version@) && force && version@ != DEV_VERSION@ ==> (r matches Err(
            EngitError::Publish(m),
        ) && m@ == "--force may only be used with --version "@ + DEV_VERSION@ + "."@),
        is_safe_version(version@) && !(force && version@ != DEV_VERSION@) ==> (r matches Ok(plan)
            && plan.bndlid@ == replace_char(bundle_name@, '-', ':') && plan.bndl_name@ == bndl_name_of(
            replace_char(bundle_name@, '-', ':'),
        ) && plan.directory@ == publish_directory(output_dir@, bundle_name@, version@)
            && plan.archive@ == publish_archive(output_dir@, bundle_name@, version@)),
{
    validate_version(version)?;
    let v = chars_of(version);
    let dev = chars_of(DEV_VERSION);
    if force && !chars_eq(&v, &dev) {
        let mut m = chars_of("--force may only be used with --version ");
        extend_str(&mut m, DEV_VERSION);
        extend_str(&mut m, ".");
        return Err(EngitError::Publish(string_of(&m)));
    }
    let bndlid = bndlid_from_name(bundle_name);
    let idc = chars_of(bndlid.as_str());
    proof {
        lemma_find_char(idc@, ':');
    }
    let bndl_name = match find_char_index(&idc, ':') {
        Some(k) => {
            assert(k < idc.len());
            string_of(&slice_chars(&idc, k + 1, idc.len()))
        },
        None => bndlid.clone(),
    };
    let parts = publish_path(bundle_name);
    proof {
        assert(""@ =~= Seq::<char>::empty()) by {
            reveal_strlit("");
        }
    }
    let rel = join_all_of("", &parts);
    let base = path_join_str(output_dir, rel.as_str());
    let directory = path_join_str(base.as_str(), version);
    let mut a = chars_of(bundle_name);
    extend_str(&mut a, "-");
    extend_str(&mut a, version);
    extend_str(&mut a, ".zip");
    let name = string_of(&a);
    let archive = path_join_str(output_dir, name.as_str());
    assert(texts_of(parts@) == parts@.map_values(|c: String| c@));
    Ok(PublishPlan { bndlid, bndl_name, directory, archive })
}

/// The lines a dry run prints: the bundle and version, the folder, the zip
/// when one is made, and each file's relative path.
pub open spec fn dry_run_text(
    bndlid: Seq<char>,
    version: Seq<char>,
    directory: Seq<char>,
    archive: Option<Seq<char>>,
    relatives: Seq<Seq<char>>,
) -> Seq<Seq<char>> {
    seq!["Bundle: "@ + bndlid + "  version: "@ + version, "Folder: "@ + directory] + match archive {
        Some(a) => seq!["Zip:    "@ + a],
        None => Seq::empty(),
    } + seq!["Files that would be included ("@ + decimal(relatives.len()) + "):"@]
        + relatives.map_values(|r: Seq<char>| "  "@ + r)
}

/// The report of a dry run (see [`dry_run_text`]); `files` are the
/// publish's `(source, destination)` entries.
pub fn dry_run_lines(
    bndlid: &str,
    version: &str,
    directory: &str,
    archive: Option<&str>,
    files: &Vec<(String, String)>,
) -> (r: Vec<String>)
    ensures
        texts_of(r@) == dry_run_text(
            bndlid@,
            version@,
            directory@,
            match archive {
                Some(a) => Some(a@),
                None => None,
            },
            pair_texts(files@).map_values(|f: (Seq<char>, Seq<char>)| f.1),
        ),
{
    let ghost rels = pair_texts(files@).map_values(|f: (Seq<char>, Seq<char>)| f.1);
    let mut out: Vec<String> = Vec::new();
    let mut l1 = chars_of("Bundle: ");
    extend_str(&mut l1, bndlid);
    extend_str(&mut l1, "  version: ");
    extend_str(&mut l1, version);
    out.push(string_of(&l1));
    let mut l2 = chars_of("Folder: ");
    extend_str(&mut l2, directory);
    out.push(string_of(&l2));
    if let Some(a) = archive {
        let mut l3 = chars_of("Zip:    ");
        extend_str(&mut l3, a);
        out.push(string_of(&l3));
    }
    let mut l4 = chars_of("Files that would be included (");
    push_decimal(&mut l4, files.len() as u64);
    extend_str(&mut l4, "):");
    out.push(string_of(&l4));
    let ghost head = texts_of(out@);
    assert(head =~= seq!["Bundle: "@ + bndlid@ + "  version: "@ + version@, "Folder: "@ + directory@]
        + match archive {
        Some(a) => seq!["Zip:    "@ + a@],
        None => Seq::<Seq<char>>::empty(),
    } + seq!["Files that would be included ("@ + decimal(rels.len()) + "):"@]);
    let mut i: usize = 0;
    while i < files.len()
        invariant
            i <= files.len(),
            rels == pair_texts(files@).map_values(|f: (Seq<char>, Seq<char>)| f.1),
            texts_of(out@) == head + rels.take(i as int).map_values(|r: Seq<char>| "  "@ + r),
        decreases files.len() - i,
    {
        let ghost before = texts_of(out@);
        let mut line = chars_of("  ");
        extend_str(&mut line, files[i].1.as_str());
        out.push(string_of(&line));
        assert(texts_of(out@) =~= before.push("  "@ + rels[i as int]));
        assert(rels.take(i + 1).map_values(|r: Seq<char>| "  "@ + r) =~= rels.take(i as int).map_values(
            |r: Seq<char>| "  "@ + r,
        ).push("  "@ + rels[i as int]));
        i = i + 1;
    }
    assert(rels.take(files.len() as int) =~= rels);
    out
}

/// The name of a file's entry in the publish archive:
/// `<bundle name with - as />/<version>/<relative path with \ as />`.
pub open spec fn zip_entry_text(bundle_name: Seq<char>, version: Seq<char>, relative: Seq<char>) -> Seq<
    char,
> {
    replace_char(bundle_name, '-', '/') + "/"@ + version + "/"@ + replace_char(relative, '\\', '/')
}

/// The archive entry name of a published file (see [`zip_entry_text`]).
pub fn zip_entry_name(bundle_name: &str, version: &str, relative: &str) -> (r: String)
    ensures
        r@ == zip_entry_text(bundle_name@, version@, relative@),
{
    let b = chars_of(bundle_name);
    let mut out = replace_chars(&b, '-', '/');
    extend_str(&mut out, "/");
    extend_str(&mut out, version);
    extend_str(&mut out, "/");
    let rc = chars_of(relative);
    let rel = replace_chars(&rc, '\\', '/');
    extend_chars(&mut out, &rel);
    string_of(&out)
}

/// The archive entry name of the bundle marker file.
pub fn marker_entry_name(bundle_name: &str, version: &str) -> (r: String)
    ensures
        r@ == replace_char(bundle_name@, '-', '/') + "/"@ + version@ + "/"@ + BUNDLE_MARKER_FILE@,
{
    let b = chars_of(bundle_name);
    let mut out = replace_chars(&b, '-', '/');
    extend_str(&mut out, "/");
    extend_str(&mut out, version);
    extend_str(&mut out, "/");
    extend_str(&mut out, BUNDLE_MARKER_FILE);
    string_of(&out)
}

/// The error for a bundle directory that does not exist.
pub fn missing_bundle_error(bundle_path: &str) -> (r: EngitError)
    ensures
        r matches EngitError::Publish(m) && m@ == "Bundle path does not exist: '"@ + bundle_path@ + "'"@,
{
    let mut m = chars_of("Bundle path does not exist: '");
    extend_str(&mut m, bundle_path);
    extend_str(&mut m, "'");
    EngitError::Publish(string_of(&m))
}

// ---------------------------------------------------------------------------
// Laws of a publish
// ---------------------------------------------------------------------------

/// Excludes win: every published file of a source is one the walk found,
/// matched by some include pattern and by no exclude pattern, under the
/// source's path.
pub proof fn law_selected_files_are_included_and_not_excluded(
    p: SourcePatterns,
    source: Seq<char>,
    files: Seq<Seq<char>>,
)
    ensures
        forall|i: int|
            0 <= i < selected_entries(p, source, files).len() ==> {
                let e = #[trigger] selected_entries(p, source, files)[i];
                &&& files.contains(e.1)
                &&& any_matches(glob_set_patterns(p.include_set), e.1)
                &&& !any_matches(glob_set_patterns(p.exclude_set), e.1)
                &&& e.0 == path_join(source, e.1)
            },
    decreases files.len(),
{
    if files.len() > 0 {
        let d = files.drop_last();
        law_selected_files_are_included_and_not_excluded(p, source, d);
        let rest = selected_entries(p, source, d);
        assert forall|i: int| 0 <= i < selected_entries(p, source, files).len() implies {
            let e = #[trigger] selected_entries(p, source, files)[i];
            &&& files.contains(e.1)
            &&& any_matches(glob_set_patterns(p.include_set), e.1)
            &&& !any_matches(glob_set_patterns(p.exclude_set), e.1)
            &&& e.0 == path_join(source, e.1)
        } by {
            let e = selected_entries(p, source, files)[i];
            if i < rest.len() {
                assert(e == rest[i]);
                let k = choose|k: int| 0 <= k < d.len() && d[k] == e.1;
                assert(files[k] == e.1);
            } else {
                assert(files[files.len() - 1] == e.1);
            }
        }
    }
}

/// The entries of a publish are in strictly increasing order of
/// destination, so no two share a destination.
pub proof fn law_publish_destinations_sorted_and_distinct(f: PublishFiles)
    requires
        f.wf(),
    ensures
        sorted_by_destination(f@),
        forall|i: int, j: int|
            0 <= i < j < f@.len() ==> entry_key(#[trigger] f@[i]) != entry_key(#[trigger] f@[j]),
{
    assert forall|i: int, j: int| 0 <= i < j < f@.len() implies entry_key(#[trigger] f@[i]) != entry_key(
        #[trigger] f@[j],
    ) by {
        lemma_path_order_props(entry_key(f@[i]), entry_key(f@[j]));
    }
}

/// Inserting an entry whose destination is not held keeps every entry
/// that was held, and holds the new one.
proof fn lemma_insert_new_keeps(es: Seq<(Seq<char>, Seq<char>)>, e: (Seq<char>, Seq<char>))
    requires
        !has_destination(es, entry_key(e)),
        lower_bound(es, entry_key(e)) <= es.len(),
        0 <= lower_bound(es, entry_key(e)),
    ensures
        forall|x: (Seq<char>, Seq<char>)| es.contains(x) ==> map_insert(es, e).contains(x),
        map_insert(es, e).contains(e),
{
    let p = lower_bound(es, entry_key(e));
    let ns = es.insert(p, e);
    assert(map_insert(es, e) == ns);
    assert forall|x: (Seq<char>, Seq<char>)| es.contains(x) implies ns.contains(x) by {
        let k = choose|k: int| 0 <= k < es.len() && es[k] == x;
        if k < p {
            assert(ns[k] == x);
        } else {
            assert(ns[k + 1] == x);
        }
    }
    assert(ns[p] == e);
}

proof fn lemma_lower_bound_range(es: Seq<(Seq<char>, Seq<char>)>, k: Seq<Seq<char>>)
    ensures
        0 <= lower_bound(es, k) <= es.len(),
    decreases es.len(),
{
    if es.len() > 0 {
        lemma_lower_bound_range(es.drop_first(), k);
    }
}

/// An artifact never replaces a published file: when no file of the
/// artifact collides, every entry held before is still held unchanged and
/// every file of the artifact is held at its destination.
pub proof fn law_artifact_keeps_existing_entries(
    es: Seq<(Seq<char>, Seq<char>)>,
    new: Seq<(Seq<char>, Seq<char>)>,
)
    requires
        forall|j: int| 0 <= j < new.len() ==> !#[trigger] first_collision_at(es, new, j),
    ensures
        forall|x: (Seq<char>, Seq<char>)| es.contains(x) ==> insert_all(es, new).contains(x),
        forall|j: int| 0 <= j < new.len() ==> insert_all(es, new).contains(#[trigger] new[j]),
    decreases new.len(),
{
    if new.len() == 0 {
        reveal(insert_all);
    } else {
        let n = (new.len() - 1) as int;
        let front = new.take(n);
        assert forall|j: int| 0 <= j < front.len() implies !#[trigger] first_collision_at(es, front, j) by {
            assert(front.take(j) =~= new.take(j));
            assert(front[j] == new[j]);
            assert forall|i: int| 0 <= i < j implies front.take(i) =~= new.take(i) && front[i] == new[i] by {}
            if first_collision_at(es, front, j) {
                assert(first_collision_at(es, new, j));
            }
        }
        law_artifact_keeps_existing_entries(es, front);
        lemma_no_collision_before(es, new, n);
        lemma_insert_all_step(es, new, n);
        assert(new.take(n + 1) =~= new);
        let held = insert_all(es, front);
        lemma_lower_bound_range(held, entry_key(new[n]));
        lemma_insert_new_keeps(held, new[n]);
        assert forall|j: int| 0 <= j < new.len() implies insert_all(es, new).contains(#[trigger] new[j]) by {
            if j < n {
                assert(front[j] == new[j]);
                assert(held.contains(front[j]));
            }
        }
    }
}

/// With no first collision anywhere, no entry collides at all.
proof fn lemma_no_collision_before(
    es: Seq<(Seq<char>, Seq<char>)>,
    new: Seq<(Seq<char>, Seq<char>)>,
    n: int,
)
    requires
        0 <= n < new.len(),
        forall|j: int| 0 <= j < new.len() ==> !#[trigger] first_collision_at(es, new, j),
    ensures
        forall|j: int| 0 <= j <= n ==> !has_destination(insert_all(es, new.take(j)), entry_key(#[trigger] new[j])),
    decreases n,
{
    if n > 0 {
        lemma_no_collision_before(es, new, n - 1);
    }
    assert forall|j: int| 0 <= j <= n implies !has_destination(insert_all(es, new.take(j)), entry_key(#[trigger] new[j])) by {
        if j < n && n > 0 {
        } else {
            if has_destination(insert_all(es, new.take(j)), entry_key(new[j])) {
                if j > 0 {
                    lemma_no_collision_before(es, new, j - 1);
                }
                assert(first_collision_at(es, new, j));
            }
        }
    }
}

/// The last occurrence of `c` is at `k` when `s[k] == c` and no later
/// character is `c`.
proof fn lemma_rfind_char_at(s: Seq<char>, c: char, k: int)
    requires
        0 <= k < s.len(),
        s[k] == c,
        forall|j: int| k < j < s.len() ==> s[j] != c,
    ensures
        rfind_char(s, c) == Some(k),
    decreases s.len(),
{
    if s.len() - 1 > k {
        let d = s.drop_last();
        assert forall|j: int| k < j < d.len() implies d[j] != c by {
            assert(d[j] == s[j]);
        }
        lemma_rfind_char_at(d, c, k);
    }
}

/// The iteration suffix `-envoy.<digits>` is what [`base_version`]
/// removes: a version with one gives back the version before it.
pub proof fn law_base_version_strips_iteration_suffix(v: Seq<char>, digits: Seq<char>)
    requires
        is_decimal_run(digits),
    ensures
        base_version_of(v + "-envoy."@ + digits) == v,
{
    reveal_strlit("-envoy.");
    let s = v + "-envoy."@ + digits;
    let k = v.len() as int;
    assert(s[k] == '-');
    assert forall|j: int| k < j < s.len() implies s[j] != '-' by {
        if j >= k + 7 {
            assert(s[j] == digits[j - k - 7]);
            assert(is_decimal_number(digits[j - k - 7]));
        }
    }
    lemma_rfind_char_at(s, '-', k);
    assert(s.skip(k).take(7) =~= "-envoy."@);
    assert(s.skip(k + 7) =~= digits);
    assert(s.take(k) =~= v);
}

/// Text without `$` has no tokens: expanding it changes nothing.
pub proof fn law_text_without_tokens_is_unchanged(
    s: Seq<char>,
    version: Seq<char>,
    env: Seq<(Seq<char>, Seq<char>)>,
)
    requires
        !s.contains('$'),
    ensures
        expand_tokens(s, version, env) == s,
        missing_tokens(s, version, env).len() == 0,
    decreases s.len(),
{
    if s.len() > 0 {
        assert(s[0] != '$');
        let t = s.skip(1);
        assert(!t.contains('$')) by {
            if t.contains('$') {
                let k = choose|k: int| 0 <= k < t.len() && t[k] == '$';
                assert(s[k + 1] == '$');
            }
        }
        law_text_without_tokens_is_unchanged(t, version, env);
        assert(seq![s[0]] + t =~= s);
    }
}

/// A plain include pattern (no `*`, `?`, `[` or `]`) that names a
/// directory stands for every file under that directory: its expansion ends
/// with `/**`, and before that is the directory's path (the pattern with
/// `/` for `\` and without trailing `/`). Any other pattern is matched as
/// written, with `/` for `\`.
pub proof fn law_directory_include_covers_its_files(p: Seq<char>, is_dir: bool)
    ensures
        !has_glob_meta(pattern_text(p)) && is_dir ==> {
            let r = expanded_include(p, is_dir);
            &&& r.len() >= 3
            &&& r.skip(r.len() - 3) == "/**"@
            &&& r.take(r.len() - 3) == strip_trailing(pattern_text(p), '/')
        },
        has_glob_meta(pattern_text(p)) || !is_dir ==> expanded_include(p, is_dir) == pattern_text(p),
{
    reveal_strlit("/**");
    if !has_glob_meta(pattern_text(p)) && is_dir {
        let d = strip_trailing(pattern_text(p), '/');
        let r = expanded_include(p, is_dir);
        assert(r == d + "/**"@);
        assert(r.skip(r.len() - 3) =~= "/**"@);
        assert(r.take(r.len() - 3) =~= d);
    }
}

/// The bundle ID of a name is the name with every `-` written `:`: same
/// length, every other character kept, no `-` left.
pub proof fn law_bundle_id_replaces_dashes(name: Seq<char>)
    ensures
        replace_char(name, '-', ':').len() == name.len(),
        forall|i: int| 0 <= i < name.len() ==> (#[trigger] replace_char(name, '-', ':')[i]) == if name[i]
            == '-' {
            ':'
        } else {
            name[i]
        },
        !replace_char(name, '-', ':').contains('-'),
{
    let r = replace_char(name, '-', ':');
    if r.contains('-') {
        let k = choose|k: int| 0 <= k < r.len() && r[k] == '-';
        assert(r[k] == if name[k] == '-' { ':' } else { name[k] });
    }
}

} // verus!
