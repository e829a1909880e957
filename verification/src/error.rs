//! The library's error type and the text that describes each error.

use vstd::prelude::*;

use crate::text::{chars_of, extend_chars, extend_str, join, join_chars, string_of, trim, trim_str};

verus! {

/// Root error type for every fallible operation of the library.
///
/// Errors that in a running program carry an operating-system or parser
/// error hold that error's rendered message.
#[derive(Debug, Clone)]
pub enum EngitError {
    /// Generic error.
    Engit(String),
    /// A git command failed.
    Git(String),
    /// The working directory is not inside a git repository.
    NotAGitRepo,
    /// No semantic version tags exist.
    NoTagsFound(String),
    /// A version string is not a semantic version.
    SemVer(String),
    /// A GitHub CLI command failed.
    GitHub(String),
    /// The GitHub CLI is not installed.
    GhCliNotFound,
    /// A bundle publish failed.
    Publish(String),
    /// A bundle cache operation failed.
    Cache(String),
    /// Validation / usage error.
    Validation(String),
    /// Failure reported by the framework.
    Framework(String),
    /// I/O error at a path.
    Io { path: String, message: String },
    /// JSON parse error in a file.
    Json { path: String, message: String },
    /// YAML parse error in a file.
    Yaml { path: String, message: String },
}

/// The text shown for [`EngitError::NotAGitRepo`].
pub open spec fn not_a_git_repo_text() -> Seq<char> {
    "Not inside a git repository. Run engit commands from within a git working directory."@
}

/// The text shown for [`EngitError::GhCliNotFound`].
pub open spec fn gh_not_found_text() -> Seq<char> {
    "'gh' CLI not found on PATH. Install it from https://cli.github.com/ to use this command."@
}

/// The text that describes an error (its `Display` rendering).
pub open spec fn error_text(e: EngitError) -> Seq<char> {
    match e {
        EngitError::Engit(m) => m@,
        EngitError::Git(m) => m@,
        EngitError::NotAGitRepo => not_a_git_repo_text(),
        EngitError::NoTagsFound(m) => m@,
        EngitError::SemVer(m) => m@,
        EngitError::GitHub(m) => m@,
        EngitError::GhCliNotFound => gh_not_found_text(),
        EngitError::Publish(m) => m@,
        EngitError::Cache(m) => m@,
        EngitError::Validation(m) => m@,
        EngitError::Framework(m) => m@,
        EngitError::Io { path, message } => "I/O error at "@ + path@ + ": "@ + message@,
        EngitError::Json { path, message } => "invalid JSON in "@ + path@ + ": "@ + message@,
        EngitError::Yaml { path, message } => "invalid YAML in "@ + path@ + ": "@ + message@,
    }
}

/// The failure message for a command run by `tool` with `args`: the trimmed
/// stderr, followed by the trimmed stdout when both are present; the stdout
/// alone when stderr is empty; a generic message when both are empty.
pub open spec fn command_failure_text(
    tool: Seq<char>,
    args: Seq<Seq<char>>,
    stdout: Seq<char>,
    stderr: Seq<char>,
) -> Seq<char> {
    let out = trim(stdout);
    let err = trim(stderr);
    if err.len() > 0 && out.len() == 0 {
        err
    } else if err.len() > 0 {
        err + "\nstdout:\n"@ + out
    } else if out.len() > 0 {
        out
    } else {
        tool + " "@ + join(args, " "@) + " failed."@
    }
}

/// Builds the failure message for a command (see [`command_failure_text`]).
pub fn format_command_failure(tool: &str, args: &Vec<String>, stdout: &str, stderr: &str) -> (out:
    String)
    ensures
        out@ == command_failure_text(tool@, args@.map_values(|a: String| a@), stdout@, stderr@),
{
    let out_t = trim_str(stdout);
    let err_t = trim_str(stderr);
    let out_c = chars_of(out_t.as_str());
    let err_c = chars_of(err_t.as_str());
    if err_c.len() > 0 && out_c.len() == 0 {
        err_t
    } else if err_c.len() > 0 {
        let mut v = err_c;
        extend_str(&mut v, "\nstdout:\n");
        extend_chars(&mut v, &out_c);
        string_of(&v)
    } else if out_c.len() > 0 {
        out_t
    } else {
        let mut v = chars_of(tool);
        extend_str(&mut v, " ");
        let mut parts: Vec<Vec<char>> = Vec::new();
        let mut i: usize = 0;
        while i < args.len()
            invariant
                i <= args.len(),
                parts@.map_values(|p: Vec<char>| p@) == args@.take(i as int).map_values(|a: String| a@),
            decreases args.len() - i,
        {
            let c = chars_of(args[i].as_str());
            let ghost before = parts@.map_values(|p: Vec<char>| p@);
            parts.push(c);
            proof {
                assert(parts@.map_values(|p: Vec<char>| p@) =~= before.push(args@[i as int]@));
                assert(args@.take(i + 1).map_values(|a: String| a@) =~= args@.take(i as int).map_values(|a: String| a@).push(args@[i as int]@));
            }
            i = i + 1;
        }
        assert(args@.take(args.len() as int) =~= args@);
        let sep = chars_of(" ");
        let joined = join_chars(&parts, &sep);
        extend_chars(&mut v, &joined);
        extend_str(&mut v, " failed.");
        string_of(&v)
    }
}

impl EngitError {
    /// A git failure built from a command's captured output.
    pub fn git_command(args: &Vec<String>, stdout: &str, stderr: &str) -> (e: EngitError)
        ensures
            e matches EngitError::Git(m) && m@ == command_failure_text("git"@, args@.map_values(|a: String| a@), stdout@, stderr@),
    {
        EngitError::Git(format_command_failure("git", args, stdout, stderr))
    }

    /// A GitHub CLI failure built from a command's captured output.
    pub fn github_command(args: &Vec<String>, stdout: &str, stderr: &str) -> (e: EngitError)
        ensures
            e matches EngitError::GitHub(m) && m@ == command_failure_text("gh"@, args@.map_values(|a: String| a@), stdout@, stderr@),
    {
        EngitError::GitHub(format_command_failure("gh", args, stdout, stderr))
    }

    /// An I/O error at `path` with the operating system's message.
    pub fn io(path: &str, message: &str) -> (e: EngitError)
        ensures
            e matches EngitError::Io { path: p, message: m } && p@ == path@ && m@ == message@,
    {
        EngitError::Io { path: path.to_owned(), message: message.to_owned() }
    }

    /// A JSON parse error in the file at `path`.
    pub fn json(path: &str, message: &str) -> (e: EngitError)
        ensures
            e matches EngitError::Json { path: p, message: m } && p@ == path@ && m@ == message@,
    {
        EngitError::Json { path: path.to_owned(), message: message.to_owned() }
    }

    /// A YAML parse error in the file at `path`.
    pub fn yaml(path: &str, message: &str) -> (e: EngitError)
        ensures
            e matches EngitError::Yaml { path: p, message: m } && p@ == path@ && m@ == message@,
    {
        EngitError::Yaml { path: path.to_owned(), message: message.to_owned() }
    }

    /// The text that describes this error.
    pub fn describe(&self) -> (out: String)
        ensures
            out@ == error_text(*self),
    {
        match self {
            EngitError::Engit(m) => m.clone(),
            EngitError::Git(m) => m.clone(),
            EngitError::NotAGitRepo => {
                let mut v: Vec<char> = Vec::new();
                extend_str(&mut v, "Not inside a git repository. Run engit commands from within a git working directory.");
                string_of(&v)
            },
            EngitError::NoTagsFound(m) => m.clone(),
            EngitError::SemVer(m) => m.clone(),
            EngitError::GitHub(m) => m.clone(),
            EngitError::GhCliNotFound => {
                let mut v: Vec<char> = Vec::new();
                extend_str(&mut v, "'gh' CLI not found on PATH. Install it from https://cli.github.com/ to use this command.");
                string_of(&v)
            },
            EngitError::Publish(m) => m.clone(),
            EngitError::Cache(m) => m.clone(),
            EngitError::Validation(m) => m.clone(),
            EngitError::Framework(m) => m.clone(),
            EngitError::Io { path, message } => {
                let mut v: Vec<char> = Vec::new();
                extend_str(&mut v, "I/O error at ");
                extend_str(&mut v, path.as_str());
                extend_str(&mut v, ": ");
                extend_str(&mut v, message.as_str());
                string_of(&v)
            },
            EngitError::Json { path, message } => {
                let mut v: Vec<char> = Vec::new();
                extend_str(&mut v, "invalid JSON in ");
                extend_str(&mut v, path.as_str());
                extend_str(&mut v, ": ");
                extend_str(&mut v, message.as_str());
                string_of(&v)
            },
            EngitError::Yaml { path, message } => {
                let mut v: Vec<char> = Vec::new();
                extend_str(&mut v, "invalid YAML in ");
                extend_str(&mut v, path.as_str());
                extend_str(&mut v, ": ");
                extend_str(&mut v, message.as_str());
                string_of(&v)
            },
        }
    }
}

} // verus!
