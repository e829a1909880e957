//! Choosing the editor command and naming its scratch file.

use vstd::prelude::*;

use crate::text::{chars_of, is_whitespace, is_ws, string_of, trim, trim_chars};

verus! {

/// The tokenizer state after some characters of a command line: finished
/// words, the word being read, and the open quote character if any.
pub open spec fn command_state(s: Seq<char>) -> (Seq<Seq<char>>, Seq<char>, Option<char>)
    decreases s.len(),
{
    if s.len() == 0 {
        (Seq::empty(), Seq::empty(), None)
    } else {
        let (parts, current, quote) = command_state(s.drop_last());
        let ch = s.last();
        match quote {
            Some(q) => if ch == q {
                (parts, current, None)
            } else {
                (parts, current.push(ch), quote)
            },
            None => if ch == '"' || ch == '\'' {
                (parts, current, Some(ch))
            } else if is_ws(ch) {
                if current.len() > 0 {
                    (parts.push(current), Seq::empty(), None)
                } else {
                    (parts, current, None)
                }
            } else {
                (parts, current.push(ch), None)
            },
        }
    }
}

/// The words of a command line: split at whitespace outside quotes; single
/// or double quotes group characters and are removed.
pub open spec fn command_words(s: Seq<char>) -> Seq<Seq<char>> {
    let (parts, current, _) = command_state(s);
    if current.len() > 0 {
        parts.push(current)
    } else {
        parts
    }
}

/// Split a command line into words (see [`command_words`]).
pub fn split_command(value: &str) -> (r: Vec<String>)
    ensures
        r@.map_values(|w: String| w@) == command_words(value@),
{
    let cs = chars_of(value);
    let mut parts: Vec<String> = Vec::new();
    let mut current: Vec<char> = Vec::new();
    let mut quote: Option<char> = None;
    let mut i: usize = 0;
    while i < cs.len()
        invariant
            i <= cs.len(),
            cs@ == value@,
            (parts@.map_values(|w: String| w@), current@, quote) == command_state(cs@.take(i as int)),
        decreases cs.len() - i,
    {
        let ch = cs[i];
        proof {
            assert(cs@.take(i + 1).drop_last() =~= cs@.take(i as int));
            assert(cs@.take(i + 1).last() == ch);
        }
        match quote {
            Some(active) => {
                if ch == active {
                    quote = None;
                } else {
                    current.push(ch);
                }
            },
            None => {
                if ch == '"' || ch == '\'' {
                    quote = Some(ch);
                } else if is_whitespace(ch) {
                    if current.len() > 0 {
                        let ghost before = parts@.map_values(|w: String| w@);
                        parts.push(string_of(&current));
                        assert(parts@.map_values(|w: String| w@) =~= before.push(current@));
                        current = Vec::new();
                    }
                } else {
                    current.push(ch);
                }
            },
        }
        i = i + 1;
    }
    assert(cs@.take(cs.len() as int) =~= cs@);
    if current.len() > 0 {
        let ghost before = parts@.map_values(|w: String| w@);
        parts.push(string_of(&current));
        assert(parts@.map_values(|w: String| w@) =~= before.push(current@));
    }
    parts
}

/// The editor command: the first of `GIT_EDITOR`, `VISUAL` and `EDITOR`
/// whose trimmed value is not empty, split into words; otherwise Notepad on
/// Windows and `vim` elsewhere.
pub open spec fn editor_command(
    git_editor: Option<Seq<char>>,
    visual: Option<Seq<char>>,
    editor: Option<Seq<char>>,
    windows: bool,
) -> Seq<Seq<char>> {
    if git_editor matches Some(v) && trim(v).len() > 0 {
        command_words(trim(git_editor->0))
    } else if visual matches Some(v) && trim(v).len() > 0 {
        command_words(trim(visual->0))
    } else if editor matches Some(v) && trim(v).len() > 0 {
        command_words(trim(editor->0))
    } else if windows {
        seq!["C:\\Windows\\notepad.exe"@]
    } else {
        seq!["vim"@]
    }
}

fn nonblank_trimmed(value: Option<&str>) -> (r: Option<String>)
    ensures
        match value {
            Some(v) => if trim(v@).len() > 0 {
                r matches Some(t) && t@ == trim(v@)
            } else {
                r is None
            },
            None => r is None,
        },
{
    match value {
        Some(v) => {
            let t = trim_chars(&chars_of(v));
            if t.len() > 0 {
                Some(string_of(&t))
            } else {
                None
            }
        },
        None => None,
    }
}

/// The editor command, given the values of `GIT_EDITOR`, `VISUAL` and
/// `EDITOR` (see [`editor_command`]).
pub fn find_editor(git_editor: Option<&str>, visual: Option<&str>, editor: Option<&str>, windows: bool) -> (r:
    Vec<String>)
    ensures
        r@.map_values(|w: String| w@) == editor_command(
            match git_editor { Some(v) => Some(v@), None => None },
            match visual { Some(v) => Some(v@), None => None },
            match editor { Some(v) => Some(v@), None => None },
            windows,
        ),
{
    if let Some(t) = nonblank_trimmed(git_editor) {
        return split_command(t.as_str());
    }
    if let Some(t) = nonblank_trimmed(visual) {
        return split_command(t.as_str());
    }
    if let Some(t) = nonblank_trimmed(editor) {
        return split_command(t.as_str());
    }
    let fallback = if windows {
        string_of(&chars_of("C:\\Windows\\notepad.exe"))
    } else {
        string_of(&chars_of("vim"))
    };
    let mut v: Vec<String> = Vec::new();
    let ghost f = fallback@;
    v.push(fallback);
    assert(v@.map_values(|w: String| w@) =~= seq![f]);
    v
}

/// A character that cannot appear in a file name on some platform.
pub open spec fn is_reserved_filename_char(c: char) -> bool {
    c == '\\' || c == '/' || c == ':' || c == '*' || c == '?' || c == '"' || c == '<' || c == '>'
        || c == '|'
}

/// `filename` with each reserved character replaced by `_`.
pub open spec fn sanitized_filename(filename: Seq<char>) -> Seq<char> {
    filename.map_values(|c: char| if is_reserved_filename_char(c) { '_' } else { c })
}

/// Make a name safe to use as a file name (see [`sanitized_filename`]).
pub fn sanitize_filename(filename: &str) -> (r: String)
    ensures
        r@ == sanitized_filename(filename@),
{
    let cs = chars_of(filename);
    let mut out: Vec<char> = Vec::new();
    let mut i: usize = 0;
    while i < cs.len()
        invariant
            i <= cs.len(),
            out@ == sanitized_filename(cs@.take(i as int)),
        decreases cs.len() - i,
    {
        let c = cs[i];
        let reserved = c == '\\' || c == '/' || c == ':' || c == '*' || c == '?' || c == '"' || c
            == '<' || c == '>' || c == '|';
        out.push(if reserved { '_' } else { c });
        i = i + 1;
        assert(out@ =~= sanitized_filename(cs@.take(i as int)));
    }
    assert(cs@.take(cs.len() as int) =~= cs@);
    string_of(&out)
}

} // verus!
