//! The GitHub web address of a repository.

use vstd::prelude::*;

use crate::error::EngitError;
use crate::text::{
    chars_of, ends_with, extend_chars, extend_str, find_char_index, has_prefix, has_suffix,
    lemma_find_char, lemma_find_char_at, slice_chars, split_once, starts_with, string_of, trim, trim_chars,
};

verus! {

/// The HTTPS address for a remote URL: an `git@host:path` address becomes
/// `https://host/path`, and a trailing `.git` is removed.
pub open spec fn https_url(remote_url: Seq<char>) -> Seq<char> {
    let url = trim(remote_url);
    let converted = if has_prefix(url, "git@"@) {
        match split_once(url.skip(4), ':') {
            Some((host, path)) => "https://"@ + host + seq!['/'] + path,
            None => url,
        }
    } else {
        url
    };
    if has_suffix(converted, ".git"@) {
        converted.take(converted.len() - 4)
    } else {
        converted
    }
}

/// Convert a remote URL to its HTTPS web address (see [`https_url`]).
pub fn to_https_url(remote_url: &str) -> (r: String)
    ensures
        r@ == https_url(remote_url@),
{
    proof {
        reveal_strlit("git@");
        reveal_strlit(".git");
    }
    let cs = chars_of(remote_url);
    let url = trim_chars(&cs);
    let prefix = chars_of("git@");
    let converted = if starts_with(&url, &prefix) {
        let rest = slice_chars(&url, 4, url.len());
        assert(rest@ =~= url@.skip(4));
        proof {
            lemma_find_char(rest@, ':');
        }
        match find_char_index(&rest, ':') {
            Some(k) => {
                let host = slice_chars(&rest, 0, k);
                let path = slice_chars(&rest, k + 1, rest.len());
                assert(host@ =~= rest@.take(k as int));
                assert(path@ =~= rest@.skip(k + 1));
                let mut v = chars_of("https://");
                extend_chars(&mut v, &host);
                v.push('/');
                extend_chars(&mut v, &path);
                v
            },
            None => url,
        }
    } else {
        url
    };
    proof {
        let u = trim(remote_url@);
        let expected = if has_prefix(u, "git@"@) {
            match split_once(u.skip(4), ':') {
                Some((host, path)) => "https://"@ + host + seq!['/'] + path,
                None => u,
            }
        } else {
            u
        };
        assert(converted@ =~= expected);
    }
    let suffix = chars_of(".git");
    if ends_with(&converted, &suffix) {
        let n = converted.len();
        let t = slice_chars(&converted, 0, n - 4);
        assert(t@ =~= converted@.take(n - 4));
        string_of(&t)
    } else {
        string_of(&converted)
    }
}

/// The address opened in the browser: the repository address, followed by
/// `/tree/<branch>` when a branch is known.
pub fn web_url(base_url: &str, branch: Option<&str>) -> (r: String)
    ensures
        r@ == match branch {
            Some(b) => base_url@ + "/tree/"@ + b@,
            None => base_url@,
        },
{
    let mut v = chars_of(base_url);
    if let Some(b) = branch {
        extend_str(&mut v, "/tree/");
        extend_str(&mut v, b);
    }
    string_of(&v)
}

/// The error for a remote without a URL.
pub fn missing_remote_url_error(remote: &str) -> (r: EngitError)
    ensures
        r matches EngitError::Git(m) && m@ == "Remote '"@ + remote@
            + "' has no URL. Check your git remote configuration."@,
{
    let mut m = chars_of("Remote '");
    extend_str(&mut m, remote);
    extend_str(&mut m, "' has no URL. Check your git remote configuration.");
    EngitError::Git(string_of(&m))
}

/// An SSH remote `git@host:path` (host without `:`, no surrounding
/// whitespace) opens at `https://host/path`, the path shortened only by a
/// trailing `.git`.
pub proof fn law_ssh_remote_web_address(host: Seq<char>, path: Seq<char>)
    requires
        !host.contains(':'),
        trim("git@"@ + host + ":"@ + path) == "git@"@ + host + ":"@ + path,
    ensures
        !has_suffix(path, ".git"@) ==> https_url("git@"@ + host + ":"@ + path) == "https://"@ + host
            + "/"@ + path,
        has_suffix(path, ".git"@) ==> https_url("git@"@ + host + ":"@ + path) == "https://"@ + host
            + "/"@ + path.take(path.len() - 4),
{
    reveal_strlit("git@");
    reveal_strlit(":");
    reveal_strlit("/");
    reveal_strlit(".git");
    reveal_strlit("https://");
    let url = "git@"@ + host + ":"@ + path;
    assert(has_prefix(url, "git@"@)) by {
        assert(url.take(4) =~= "git@"@);
    }
    let rest = url.skip(4);
    assert(rest =~= host + ":"@ + path);
    assert forall|j: int| 0 <= j < host.len() implies rest[j] != ':' by {
        assert(rest[j] == host[j]);
        if host[j] == ':' {
            assert(host.contains(':'));
        }
    }
    lemma_find_char_at(rest, ':', host.len() as int);
    assert(rest.take(host.len() as int) =~= host);
    assert(rest.skip(host.len() as int + 1) =~= path);
    let converted = "https://"@ + host + seq!['/'] + path;
    assert(converted =~= "https://"@ + host + "/"@ + path);
    let n = converted.len();
    if has_suffix(path, ".git"@) {
        assert(converted.skip(n - 4) =~= path.skip(path.len() - 4));
        assert(converted.take(n - 4) =~= "https://"@ + host + "/"@ + path.take(path.len() - 4));
    } else {
        if has_suffix(converted, ".git"@) {
            if path.len() >= 4 {
                assert(converted.skip(n - 4) =~= path.skip(path.len() - 4));
            } else {
                let slash = n - path.len() - 1;
                assert(converted[slash] == '/');
                assert(converted.skip(n - 4)[3 - path.len()] == converted[slash]);
                assert(".git"@[3 - path.len()] != '/');
            }
        }
    }
}

/// A remote that is not an SSH `git@` address (no surrounding whitespace)
/// is its own web address, shortened only by a trailing `.git`.
pub proof fn law_other_remote_web_address(url: Seq<char>)
    requires
        !has_prefix(url, "git@"@),
        trim(url) == url,
    ensures
        !has_suffix(url, ".git"@) ==> https_url(url) == url,
        has_suffix(url, ".git"@) ==> https_url(url) == url.take(url.len() - 4),
        has_suffix(url, ".git"@) ==> https_url(url) + ".git"@ == url,
{
    reveal_strlit(".git");
    if has_suffix(url, ".git"@) {
        assert(url.take(url.len() - 4) + ".git"@ =~= url);
    }
}

} // verus!
