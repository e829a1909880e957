//! GitHub operations through the `gh` command: the arguments of each
//! command and what their output means.

use vstd::prelude::*;

use crate::error::{command_failure_text, EngitError};
use crate::publish::texts_of;
use crate::text::{chars_eq, chars_of, decimal, push_decimal, string_of, trim, trim_str, utf8_width};

verus! {

/// Single repository search result returned by `gh search repos`.
pub struct RepoSearchResult {
    /// Repository name only.
    pub name: String,
    /// Full `owner/name` repository name.
    pub full_name: String,
    /// Human-readable description.
    pub description: String,
    /// HTML repository URL.
    pub url: String,
    /// Stargazer count.
    pub stars: u64,
    /// Last update timestamp string from GitHub.
    pub updated_at: String,
}

impl RepoSearchResult {
    /// A copy of the result.
    pub fn copy(&self) -> (r: RepoSearchResult)
        ensures
            r.name@ == self.name@,
            r.full_name@ == self.full_name@,
            r.description@ == self.description@,
            r.url@ == self.url@,
            r.stars == self.stars,
            r.updated_at@ == self.updated_at@,
    {
        RepoSearchResult {
            name: self.name.clone(),
            full_name: self.full_name.clone(),
            description: self.description.clone(),
            url: self.url.clone(),
            stars: self.stars,
            updated_at: self.updated_at.clone(),
        }
    }
}

/// Finish a `gh` command from its outcome: its trimmed output when it
/// succeeded, else an error describing the failure.
pub fn finish_gh(args: &Vec<String>, success: bool, stdout: &str, stderr: &str) -> (r: Result<
    String,
    EngitError,
>)
    ensures
        success ==> (r matches Ok(o) && o@ == trim(stdout@)),
        !success ==> (r matches Err(EngitError::GitHub(m)) && m@ == command_failure_text(
            "gh"@,
            texts_of(args@),
            trim(stdout@),
            trim(stderr@),
        )),
{
    let out = trim_str(stdout);
    let err = trim_str(stderr);
    if success {
        Ok(out)
    } else {
        Err(EngitError::github_command(args, out.as_str(), err.as_str()))
    }
}

/// The error for a `gh` command that could not be started: `gh` missing,
/// else an I/O error at the working directory when there is one, else the
/// system's message.
pub fn gh_spawn_error(not_found: bool, cwd: Option<&str>, message: &str) -> (r: EngitError)
    ensures
        not_found ==> r is GhCliNotFound,
        !not_found && cwd is Some ==> (r matches EngitError::Io { path, message: m } && path@
            == cwd->Some_0@ && m@ == message@),
        !not_found && cwd is None ==> (r matches EngitError::GitHub(m) && m@ == message@),
{
    if not_found {
        EngitError::GhCliNotFound
    } else {
        match cwd {
            Some(c) => EngitError::Io { path: c.to_owned(), message: message.to_owned() },
            None => EngitError::GitHub(message.to_owned()),
        }
    }
}

fn push_arg(v: &mut Vec<String>, s: &str)
    ensures
        texts_of(final(v)@) == texts_of(old(v)@).push(s@),
{
    v.push(s.to_owned());
    assert(texts_of(v@) =~= texts_of(old(v)@).push(s@));
}

/// The `gh` arguments that create a GitHub release for an existing tag.
pub open spec fn create_release_text(
    tag: Seq<char>,
    title: Seq<char>,
    notes: Seq<char>,
    draft: bool,
    prerelease: bool,
    latest: bool,
    generate_notes: bool,
) -> Seq<Seq<char>> {
    seq!["release"@, "create"@, tag, "--title"@, title, "--notes"@, notes] + (if draft {
        seq!["--draft"@]
    } else {
        Seq::empty()
    }) + (if prerelease {
        seq!["--prerelease"@]
    } else {
        Seq::empty()
    }) + (if latest && !prerelease {
        seq!["--latest"@]
    } else {
        Seq::empty()
    }) + (if generate_notes {
        seq!["--generate-notes"@]
    } else {
        Seq::empty()
    })
}

/// The `gh` arguments that create a GitHub release for an existing tag
/// (see [`create_release_text`]); the release's URL is what the command
/// prints.
pub fn create_release(
    tag: &str,
    title: &str,
    notes: &str,
    draft: bool,
    prerelease: bool,
    latest: bool,
    generate_notes: bool,
) -> (r: Vec<String>)
    ensures
        texts_of(r@) == create_release_text(
            tag@,
            title@,
            notes@,
            draft,
            prerelease,
            latest,
            generate_notes,
        ),
{
    let mut v: Vec<String> = Vec::new();
    push_arg(&mut v, "release");
    push_arg(&mut v, "create");
    push_arg(&mut v, tag);
    push_arg(&mut v, "--title");
    push_arg(&mut v, title);
    push_arg(&mut v, "--notes");
    push_arg(&mut v, notes);
    let ghost base = texts_of(v@);
    if draft {
        push_arg(&mut v, "--draft");
    }
    let ghost a = texts_of(v@);
    if prerelease {
        push_arg(&mut v, "--prerelease");
    }
    let ghost b = texts_of(v@);
    if latest && !prerelease {
        push_arg(&mut v, "--latest");
    }
    let ghost c = texts_of(v@);
    if generate_notes {
        push_arg(&mut v, "--generate-notes");
    }
    assert(texts_of(v@) =~= create_release_text(
        tag@,
        title@,
        notes@,
        draft,
        prerelease,
        latest,
        generate_notes,
    ));
    v
}

/// The `gh` arguments that look up a release's tag.
pub fn release_exists_args(tag: &str) -> (r: Vec<String>)
    ensures
        texts_of(r@) == seq!["release"@, "view"@, tag@, "--json"@, "tagName"@],
{
    let mut v: Vec<String> = Vec::new();
    push_arg(&mut v, "release");
    push_arg(&mut v, "view");
    push_arg(&mut v, tag);
    push_arg(&mut v, "--json");
    push_arg(&mut v, "tagName");
    v
}

/// The `gh` arguments that look up a release's URL.
pub fn release_url_args(tag: &str) -> (r: Vec<String>)
    ensures
        texts_of(r@) == seq!["release"@, "view"@, tag@, "--json"@, "url"@, "--jq"@, ".url"@],
{
    let mut v: Vec<String> = Vec::new();
    push_arg(&mut v, "release");
    push_arg(&mut v, "view");
    push_arg(&mut v, tag);
    push_arg(&mut v, "--json");
    push_arg(&mut v, "url");
    push_arg(&mut v, "--jq");
    push_arg(&mut v, ".url");
    v
}

/// The `gh` arguments that look up the current repository's owner.
pub fn current_org_args() -> (r: Vec<String>)
    ensures
        texts_of(r@) == seq!["repo"@, "view"@, "--json"@, "owner"@, "--jq"@, ".owner.login"@],
{
    let mut v: Vec<String> = Vec::new();
    push_arg(&mut v, "repo");
    push_arg(&mut v, "view");
    push_arg(&mut v, "--json");
    push_arg(&mut v, "owner");
    push_arg(&mut v, "--jq");
    push_arg(&mut v, ".owner.login");
    v
}

/// What a lookup prints, when it succeeded and printed something: the
/// trimmed output (a release URL, or the owner of the repository).
pub fn lookup_output(success: bool, stdout: &str) -> (r: Option<String>)
    ensures
        (success && trim(stdout@).len() > 0) ==> (r matches Some(s) && s@ == trim(stdout@)),
        !(success && trim(stdout@).len() > 0) ==> r is None,
{
    if !success {
        return None;
    }
    let t = trim_str(stdout);
    if t.unicode_len() == 0 {
        None
    } else {
        Some(t)
    }
}

/// The organisations a search runs in: each given one, or everywhere
/// (`None`) when none is given.
pub open spec fn search_targets_text(orgs: Option<Seq<Seq<char>>>) -> Seq<Option<Seq<char>>> {
    match orgs {
        Some(o) => if o.len() > 0 {
            o.map_values(|x: Seq<char>| Some(x))
        } else {
            seq![None]
        },
        None => seq![None],
    }
}

/// The organisations a search runs in (see [`search_targets_text`]).
pub fn search_targets(orgs: Option<&Vec<String>>) -> (r: Vec<Option<String>>)
    ensures
        r@.map_values(|x: Option<String>| match x {
            Some(s) => Some(s@),
            None => None,
        }) == search_targets_text(
            match orgs {
                Some(o) => Some(texts_of(o@)),
                None => None,
            },
        ),
{
    let mut out: Vec<Option<String>> = Vec::new();
    match orgs {
        Some(o) => if o.len() > 0 {
            let mut i: usize = 0;
            while i < o.len()
                invariant
                    i <= o.len(),
                    out@.map_values(|x: Option<String>| match x {
                        Some(s) => Some(s@),
                        None => None,
                    }) == texts_of(o@).take(i as int).map_values(|x: Seq<char>| Some(x)),
                decreases o.len() - i,
            {
                let ghost before = out@.map_values(|x: Option<String>| match x {
                    Some(s) => Some(s@),
                    None => None,
                });
                out.push(Some(o[i].clone()));
                assert(out@.map_values(|x: Option<String>| match x {
                    Some(s) => Some(s@),
                    None => None,
                }) =~= before.push(Some(o@[i as int]@)));
                assert(texts_of(o@).take(i + 1).map_values(|x: Seq<char>| Some(x)) =~= texts_of(o@).take(i as int).map_values(|x: Seq<char>| Some(x)).push(Some(o@[i as int]@)));
                i = i + 1;
            }
            assert(texts_of(o@).take(o.len() as int) =~= texts_of(o@));
        } else {
            out.push(None);
            assert(out@.map_values(|x: Option<String>| match x {
                Some(s) => Some(s@),
                None => None,
            }) =~= seq![None]);
        },
        None => {
            out.push(None);
            assert(out@.map_values(|x: Option<String>| match x {
                Some(s) => Some(s@),
                None => None,
            }) =~= seq![None]);
        },
    }
    out
}

/// The `gh` arguments of a repository search in one organisation (or
/// everywhere).
pub open spec fn search_args_text(query: Seq<char>, org: Option<Seq<char>>, limit: nat) -> Seq<
    Seq<char>,
> {
    seq!["search"@, "repos"@, query] + match org {
        Some(o) => seq!["--owner"@, o],
        None => Seq::empty(),
    } + seq![
        "--limit"@,
        decimal(limit),
        "--json"@,
        "name,fullName,description,url,stargazersCount,updatedAt"@,
    ]
}

/// The `gh` arguments of a repository search (see [`search_args_text`]).
pub fn search_args(query: &str, org: Option<&str>, limit: usize) -> (r: Vec<String>)
    ensures
        texts_of(r@) == search_args_text(
            query@,
            match org {
                Some(o) => Some(o@),
                None => None,
            },
            limit as nat,
        ),
{
    let mut v: Vec<String> = Vec::new();
    push_arg(&mut v, "search");
    push_arg(&mut v, "repos");
    push_arg(&mut v, query);
    if let Some(o) = org {
        push_arg(&mut v, "--owner");
        push_arg(&mut v, o);
    }
    push_arg(&mut v, "--limit");
    let mut n: Vec<char> = Vec::new();
    push_decimal(&mut n, limit as u64);
    let ns = string_of(&n);
    push_arg(&mut v, ns.as_str());
    push_arg(&mut v, "--json");
    push_arg(&mut v, "name,fullName,description,url,stargazersCount,updatedAt");
    assert(texts_of(v@) =~= search_args_text(
        query@,
        match org {
            Some(o) => Some(o@),
            None => None,
        },
        limit as nat,
    ));
    v
}

/// The full names of search results.
pub open spec fn full_names(rs: Seq<RepoSearchResult>) -> Seq<Seq<char>> {
    rs.map_values(|r: RepoSearchResult| r.full_name@)
}

/// The results with each full name kept once, at its first occurrence.
pub open spec fn first_by_full_name(rs: Seq<RepoSearchResult>) -> Seq<RepoSearchResult>
    decreases rs.len(),
{
    if rs.len() == 0 {
        Seq::empty()
    } else {
        let rest = first_by_full_name(rs.drop_last());
        if full_names(rs.drop_last()).contains(rs.last().full_name@) {
            rest
        } else {
            rest.push(rs.last())
        }
    }
}

/// The results of the searches in each organisation, one after another.
pub open spec fn concat_results(per_target: Seq<Seq<RepoSearchResult>>) -> Seq<RepoSearchResult>
    decreases per_target.len(),
{
    if per_target.len() == 0 {
        Seq::empty()
    } else {
        concat_results(per_target.drop_last()) + per_target.last()
    }
}

proof fn lemma_first_names(rs: Seq<RepoSearchResult>)
    ensures
        forall|n: Seq<char>| full_names(first_by_full_name(rs)).contains(n) <==> full_names(rs).contains(n),
    decreases rs.len(),
{
    if rs.len() > 0 {
        let d = rs.drop_last();
        lemma_first_names(d);
        let rest = first_by_full_name(d);
        let x = rs.last().full_name@;
        assert(full_names(rs) =~= full_names(d).push(x));
        lemma_push_contains(full_names(d), x);
        if !full_names(d).contains(x) {
            assert(first_by_full_name(rs) == rest.push(rs.last()));
            assert(full_names(rest.push(rs.last())) =~= full_names(rest).push(x));
            lemma_push_contains(full_names(rest), x);
        } else {
            assert(first_by_full_name(rs) == rest);
        }
        assert forall|n: Seq<char>| full_names(first_by_full_name(rs)).contains(n) <==> full_names(rs).contains(n) by {
            assert(full_names(rest).contains(n) <==> full_names(d).contains(n));
        }
    } else {
        assert(full_names(rs) =~= Seq::<Seq<char>>::empty());
        assert(full_names(first_by_full_name(rs)) =~= Seq::<Seq<char>>::empty());
    }
}

proof fn lemma_push_contains(s: Seq<Seq<char>>, x: Seq<char>)
    ensures
        forall|n: Seq<char>| s.push(x).contains(n) <==> (s.contains(n) || n == x),
{
    assert forall|n: Seq<char>| s.push(x).contains(n) <==> (s.contains(n) || n == x) by {
        if s.push(x).contains(n) {
            let k = choose|k: int| 0 <= k < s.push(x).len() && s.push(x)[k] == n;
            if k < s.len() {
                assert(s[k] == n);
            }
        }
        if s.contains(n) {
            let k = choose|k: int| 0 <= k < s.len() && s[k] == n;
            assert(s.push(x)[k] == n);
        }
        if n == x {
            assert(s.push(x)[s.len() as int] == n);
        }
    }
}

fn names_contain(rs: &Vec<RepoSearchResult>, name: &str) -> (r: bool)
    ensures
        r == full_names(rs@).contains(name@),
{
    let nc = chars_of(name);
    let mut i: usize = 0;
    while i < rs.len()
        invariant
            i <= rs.len(),
            nc@ == name@,
            forall|k: int| 0 <= k < i ==> full_names(rs@)[k] != name@,
        decreases rs.len() - i,
    {
        let c = chars_of(rs[i].full_name.as_str());
        if chars_eq(&c, &nc) {
            assert(full_names(rs@)[i as int] == name@);
            return true;
        }
        i = i + 1;
    }
    false
}

/// Combine the results of the searches in each organisation: in order,
/// each repository (by full name) once.
pub fn search_repos(per_target: &Vec<Vec<RepoSearchResult>>) -> (r: Vec<RepoSearchResult>)
    ensures
        r@.len() == first_by_full_name(concat_results(per_target@.map_values(
            |v: Vec<RepoSearchResult>| v@,
        ))).len(),
        forall|i: int|
            0 <= i < r@.len() ==> {
                let e = first_by_full_name(
                    concat_results(per_target@.map_values(|v: Vec<RepoSearchResult>| v@)),
                )[i];
                &&& (#[trigger] r@[i]).name@ == e.name@
                &&& r@[i].full_name@ == e.full_name@
                &&& r@[i].description@ == e.description@
                &&& r@[i].url@ == e.url@
                &&& r@[i].stars == e.stars
                &&& r@[i].updated_at@ == e.updated_at@
            },
{
    let ghost pv = per_target@.map_values(|v: Vec<RepoSearchResult>| v@);
    let mut out: Vec<RepoSearchResult> = Vec::new();
    let mut t: usize = 0;
    let ghost mut seen: Seq<RepoSearchResult> = Seq::empty();
    assert(pv.take(0) =~= Seq::<Seq<RepoSearchResult>>::empty());
    while t < per_target.len()
        invariant
            t <= per_target.len(),
            pv == per_target@.map_values(|v: Vec<RepoSearchResult>| v@),
            seen == concat_results(pv.take(t as int)),
            same_results(out@, first_by_full_name(seen)),
        decreases per_target.len() - t,
    {
        let batch = &per_target[t];
        let ghost seen0 = seen;
        let mut i: usize = 0;
        while i < batch.len()
            invariant
                i <= batch.len(),
                seen == seen0 + batch@.take(i as int),
                same_results(out@, first_by_full_name(seen)),
            decreases batch.len() - i,
        {
            let ghost prev = seen;
            proof {
                seen = seen.push(batch@[i as int]);
                assert(seen.drop_last() =~= prev);
                assert(seen0 + batch@.take(i + 1) =~= seen);
                lemma_first_names(prev);
            }
            let present = names_contain(&out, batch[i].full_name.as_str());
            proof {
                assert(full_names(out@) =~= full_names(first_by_full_name(prev)));
            }
            if !present {
                let ghost before = out@;
                out.push(batch[i].copy());
                proof {
                    assert forall|k: int| 0 <= k < out@.len() implies same_result(
                        #[trigger] out@[k],
                        first_by_full_name(seen)[k],
                    ) by {
                        if k < before.len() {
                            assert(out@[k] == before[k]);
                        }
                    }
                }
            }
            i = i + 1;
        }
        proof {
            let t2 = pv.take(t + 1);
            assert(t2.drop_last() =~= pv.take(t as int));
            assert(t2.last() == batch@);
            assert(batch@.take(batch.len() as int) =~= batch@);
        }
        t = t + 1;
    }
    assert(pv.take(per_target.len() as int) =~= pv);
    out
}

/// Two results hold the same values.
pub open spec fn same_result(a: RepoSearchResult, b: RepoSearchResult) -> bool {
    &&& a.name@ == b.name@
    &&& a.full_name@ == b.full_name@
    &&& a.description@ == b.description@
    &&& a.url@ == b.url@
    &&& a.stars == b.stars
    &&& a.updated_at@ == b.updated_at@
}

/// Two lists of results hold the same values, in order.
pub open spec fn same_results(a: Seq<RepoSearchResult>, b: Seq<RepoSearchResult>) -> bool {
    a.len() == b.len() && forall|i: int| 0 <= i < a.len() ==> same_result(#[trigger] a[i], b[i])
}

/// The `gh` arguments that list releases.
pub fn release_list_args() -> (r: Vec<String>)
    ensures
        texts_of(r@) == seq!["release"@, "list"@, "--limit"@, "100"@, "--json"@, "tagName,name,isPrerelease"@],
{
    let mut v: Vec<String> = Vec::new();
    push_arg(&mut v, "release");
    push_arg(&mut v, "list");
    push_arg(&mut v, "--limit");
    push_arg(&mut v, "100");
    push_arg(&mut v, "--json");
    push_arg(&mut v, "tagName,name,isPrerelease");
    v
}

/// The `gh` arguments that fetch a release's tag, title and notes.
pub fn release_detail_args(tag: &str) -> (r: Vec<String>)
    ensures
        texts_of(r@) == seq!["release"@, "view"@, tag@, "--json"@, "tagName,name,body"@],
{
    let mut v: Vec<String> = Vec::new();
    push_arg(&mut v, "release");
    push_arg(&mut v, "view");
    push_arg(&mut v, tag);
    push_arg(&mut v, "--json");
    push_arg(&mut v, "tagName,name,body");
    v
}

/// The error for output of `gh` that could not be read; `search` says
/// whether it came from a repository search.
pub fn unexpected_response_error(search: bool, message: &str) -> (r: EngitError)
    ensures
        r matches EngitError::GitHub(m) && m@ == (if search {
            "Unexpected response from gh search: "@
        } else {
            "Unexpected response from gh: "@
        }) + message@,
{
    let mut m = if search {
        chars_of("Unexpected response from gh search: ")
    } else {
        chars_of("Unexpected response from gh: ")
    };
    crate::text::extend_str(&mut m, message);
    EngitError::GitHub(string_of(&m))
}

/// The first `n` bytes of `s` when they end at a character boundary
/// (`str::get(..n)`), else nothing.
pub open spec fn byte_prefix(s: Seq<char>, n: nat) -> Option<Seq<char>>
    decreases s.len(),
{
    if n == 0 {
        Some(Seq::empty())
    } else if s.len() == 0 {
        None
    } else if utf8_width(s[0]) > n {
        None
    } else {
        match byte_prefix(s.drop_first(), (n - utf8_width(s[0])) as nat) {
            Some(p) => Some(seq![s[0]] + p),
            None => None,
        }
    }
}

fn char_width(c: char) -> (r: usize)
    ensures
        r as nat == utf8_width(c),
{
    let v: u32 = c as u32;
    if v < 0x80 {
        1
    } else if v < 0x800 {
        2
    } else if v < 0x10000 {
        3
    } else {
        4
    }
}

/// The date part of an update timestamp: its first ten bytes, or nothing
/// when it is shorter or they split a character.
pub fn updated_date(updated_at: &str) -> (r: String)
    ensures
        r@ == match byte_prefix(updated_at@, 10) {
            Some(p) => p,
            None => Seq::empty(),
        },
{
    let cs = chars_of(updated_at);
    let mut i: usize = 0;
    let mut left: usize = 10;
    assert(cs@.skip(0) =~= cs@);
    while i < cs.len() && left > 0 && char_width(cs[i]) <= left
        invariant
            i <= cs.len(),
            left <= 10,
            cs@ == updated_at@,
            byte_prefix(cs@, 10) == match byte_prefix(cs@.skip(i as int), left as nat) {
                Some(p) => Some(cs@.take(i as int) + p),
                None => None,
            },
        decreases cs.len() - i,
    {
        let w = char_width(cs[i]);
        proof {
            let t = cs@.skip(i as int);
            assert(t.drop_first() =~= cs@.skip(i + 1));
            assert(t[0] == cs@[i as int]);
            assert forall|p: Seq<char>| cs@.take(i as int) + (seq![t[0]] + p) =~= cs@.take(i + 1) + p by {}
        }
        left = left - w;
        i = i + 1;
    }
    if left == 0 {
        assert(cs@.take(i as int) + Seq::<char>::empty() =~= cs@.take(i as int));
        string_of(&crate::text::slice_chars(&cs, 0, i))
    } else {
        proof {
            let t = cs@.skip(i as int);
            if i < cs.len() {
                assert(t[0] == cs@[i as int]);
            } else {
                assert(t.len() == 0);
            }
        }
        String::new()
    }
}

/// What a search prints for its results.
pub open spec fn search_report_text(query: Seq<char>, scope: Seq<char>, results: Seq<RepoSearchResult>) -> Seq<
    Seq<char>,
> {
    if results.len() == 0 {
        seq!["No repositories found matching '"@ + query + "' in: "@ + scope]
    } else {
        seq![
            "\nSearch: '"@ + query + "'  |  Scope: "@ + scope + "  |  "@ + decimal(results.len())
                + " result(s)\n"@,
        ] + result_lines(results)
    }
}

/// The lines shown for each result.
pub open spec fn result_lines(results: Seq<RepoSearchResult>) -> Seq<Seq<char>>
    decreases results.len(),
{
    if results.len() == 0 {
        Seq::empty()
    } else {
        result_lines(results.drop_last()) + result_block(results.last())
    }
}

/// The lines shown for one result: its full name, its description when
/// it has one, its URL, stars and update date, and a blank line.
pub open spec fn result_block(r: RepoSearchResult) -> Seq<Seq<char>> {
    seq!["  "@ + r.full_name@] + (if r.description@.len() > 0 {
        seq!["    "@ + r.description@]
    } else {
        Seq::empty()
    }) + seq![
        "    "@ + r.url@ + "  \u{2605} "@ + decimal(r.stars as nat) + "  updated: "@ + match byte_prefix(
            r.updated_at@,
            10,
        ) {
            Some(p) => p,
            None => Seq::empty(),
        },
        Seq::empty(),
    ]
}

fn result_block_lines(r: &RepoSearchResult) -> (out: Vec<String>)
    ensures
        texts_of(out@) == result_block(*r),
{
    proof {
        reveal_strlit("");
    }
    let mut out: Vec<String> = Vec::new();
    let mut a = chars_of("  ");
    crate::text::extend_str(&mut a, r.full_name.as_str());
    out.push(string_of(&a));
    if r.description.unicode_len() > 0 {
        let mut b = chars_of("    ");
        crate::text::extend_str(&mut b, r.description.as_str());
        out.push(string_of(&b));
    }
    let mut c = chars_of("    ");
    crate::text::extend_str(&mut c, r.url.as_str());
    crate::text::extend_str(&mut c, "  \u{2605} ");
    push_decimal(&mut c, r.stars);
    crate::text::extend_str(&mut c, "  updated: ");
    let d = updated_date(r.updated_at.as_str());
    crate::text::extend_str(&mut c, d.as_str());
    out.push(string_of(&c));
    out.push(String::new());
    assert(texts_of(out@) =~= result_block(*r));
    out
}

/// The lines a search prints (see [`search_report_text`]).
pub fn search_report_lines(query: &str, scope: &str, results: &Vec<RepoSearchResult>) -> (r: Vec<String>)
    ensures
        texts_of(r@) == search_report_text(query@, scope@, results@),
{
    let mut out: Vec<String> = Vec::new();
    if results.len() == 0 {
        let mut l = chars_of("No repositories found matching '");
        crate::text::extend_str(&mut l, query);
        crate::text::extend_str(&mut l, "' in: ");
        crate::text::extend_str(&mut l, scope);
        out.push(string_of(&l));
        assert(texts_of(out@) =~= search_report_text(query@, scope@, results@));
        return out;
    }
    let mut h = chars_of("\nSearch: '");
    crate::text::extend_str(&mut h, query);
    crate::text::extend_str(&mut h, "'  |  Scope: ");
    crate::text::extend_str(&mut h, scope);
    crate::text::extend_str(&mut h, "  |  ");
    push_decimal(&mut h, results.len() as u64);
    crate::text::extend_str(&mut h, " result(s)\n");
    out.push(string_of(&h));
    let ghost head = texts_of(out@);
    let mut i: usize = 0;
    assert(results@.take(0) =~= Seq::<RepoSearchResult>::empty());
    assert(texts_of(out@) =~= head + result_lines(results@.take(0)));
    while i < results.len()
        invariant
            i <= results.len(),
            texts_of(out@) == head + result_lines(results@.take(i as int)),
        decreases results.len() - i,
    {
        let ghost before = texts_of(out@);
        proof {
            let t = results@.take(i + 1);
            assert(t.drop_last() =~= results@.take(i as int));
            assert(t.last() == results@[i as int]);
        }
        let ghost old_out = out@;
        let mut block = result_block_lines(&results[i]);
        let ghost bv = block@;
        out.append(&mut block);
        assert(texts_of(out@) =~= texts_of(old_out) + texts_of(bv));
        assert(texts_of(out@) =~= head + result_lines(results@.take(i + 1)));
        i = i + 1;
    }
    assert(results@.take(results.len() as int) =~= results@);
    out
}

} // verus!
