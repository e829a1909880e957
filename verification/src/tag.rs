//! Choosing the next version to tag and preparing the tag annotation.

use vstd::prelude::*;

use crate::error::EngitError;
use crate::git::{is_newest_first, law_latest_is_first_sorted, newest_tag, version_tags};
use crate::semver::{
    label_of, number_of, parse_is_undefined, pre_text, version_fields, version_of_fields,
    SemVer,
};
use crate::text::{
    chars_eq, chars_of, decimal, drop_leading_blank, drop_trailing_blank, extend_chars,
    extend_str, has_prefix, join, join_chars, parse_u64, parsed_u64, push_decimal, slice_chars,
    starts_with, string_of, trim, trim_blank_lines, uncommented_lines, uncommented_lines_of,
    is_not_comment, is_ws, lines, split_on, strip_cr, trim_start, trim_end, is_blank_line,
    lemma_split_on_concat,
};

verus! {

// ---------------------------------------------------------------------------
// Automatic prerelease numbering
// ---------------------------------------------------------------------------

/// The tag prefix `vMAJOR.MINOR.PATCH-LABEL.` shared by the numbered
/// prereleases of a label.
pub open spec fn prerelease_prefix(major: u64, minor: u64, patch: u64, label: Seq<char>) -> Seq<
    char,
> {
    seq!['v'] + decimal(major as nat) + seq!['.'] + decimal(minor as nat) + seq!['.'] + decimal(
        patch as nat,
    ) + seq!['-'] + label + seq!['.']
}

/// The number after `prefix` in a tag, when the tag has the prefix and the
/// rest reads as a `u64`.
pub open spec fn suffix_number(tag: Seq<char>, prefix: Seq<char>) -> Option<u64> {
    if has_prefix(tag, prefix) {
        parsed_u64(tag.skip(prefix.len() as int))
    } else {
        None
    }
}

/// The largest number that follows `prefix` in any of the tags.
pub open spec fn max_suffix(tags: Seq<Seq<char>>, prefix: Seq<char>) -> Option<u64>
    decreases tags.len(),
{
    if tags.len() == 0 {
        None
    } else {
        let m = max_suffix(tags.drop_last(), prefix);
        match (m, suffix_number(tags.last(), prefix)) {
            (Some(a), Some(b)) => Some(if a >= b { a } else { b }),
            (None, n) => n,
            (m, None) => m,
        }
    }
}

/// The number for the next prerelease: one more than the largest existing
/// one, or 1.
pub open spec fn next_number(tags: Seq<Seq<char>>, prefix: Seq<char>) -> nat {
    match max_suffix(tags, prefix) {
        Some(m) => (m + 1) as nat,
        None => 1,
    }
}

fn prefix_chars(base: &SemVer, label: &str) -> (r: Vec<char>)
    ensures
        r@ == prerelease_prefix(base.major, base.minor, base.patch, label@),
{
    let mut r: Vec<char> = Vec::new();
    r.push('v');
    push_decimal(&mut r, base.major);
    r.push('.');
    push_decimal(&mut r, base.minor);
    r.push('.');
    push_decimal(&mut r, base.patch);
    r.push('-');
    extend_str(&mut r, label);
    r.push('.');
    assert(r@ =~= prerelease_prefix(base.major, base.minor, base.patch, label@));
    r
}

/// The largest number that follows `vMAJOR.MINOR.PATCH-LABEL.` of `base`
/// (whose prerelease is ignored) and `label` in any of the tags.
pub fn max_prerelease_number(base: &SemVer, label: &str, tags: &Vec<String>) -> (r: Option<u64>)
    ensures
        r == max_suffix(
            tags@.map_values(|t: String| t@),
            prerelease_prefix(base.major, base.minor, base.patch, label@),
        ),
{
    let prefix = prefix_chars(base, label);
    let ghost tv = tags@.map_values(|t: String| t@);
    let mut best: Option<u64> = None;
    let mut i: usize = 0;
    while i < tags.len()
        invariant
            i <= tags.len(),
            tv == tags@.map_values(|t: String| t@),
            best == max_suffix(tv.take(i as int), prefix@),
        decreases tags.len() - i,
    {
        let t = chars_of(tags[i].as_str());
        let n: Option<u64> = if starts_with(&t, &prefix) {
            let rest = slice_chars(&t, prefix.len(), t.len());
            assert(t@.subrange(prefix.len() as int, t@.len() as int) =~= t@.skip(prefix@.len() as int));
            parse_u64(&rest)
        } else {
            None
        };
        proof {
            assert(tv.take(i + 1).drop_last() =~= tv.take(i as int));
            assert(tv.take(i + 1).last() == tv[i as int]);
            assert(tv[i as int] == t@);
        }
        best = match (best, n) {
            (Some(a), Some(b)) => Some(if a >= b { a } else { b }),
            (None, n) => n,
            (m, None) => m,
        };
        i = i + 1;
    }
    assert(tv.take(tags.len() as int) =~= tv);
    best
}

/// The next prerelease number for `label` on the version `base` (whose
/// prerelease is ignored), given the repository's semantic version tags.
pub fn next_prerelease_number(base: &SemVer, label: &str, tags: &Vec<String>) -> (r: u64)
    requires
        max_suffix(
            tags@.map_values(|t: String| t@),
            prerelease_prefix(base.major, base.minor, base.patch, label@),
        ) != Some(u64::MAX),
    ensures
        r as nat == next_number(
            tags@.map_values(|t: String| t@),
            prerelease_prefix(base.major, base.minor, base.patch, label@),
        ),
{
    match max_prerelease_number(base, label, tags) {
        Some(m) => m + 1,
        None => 1,
    }
}

// ---------------------------------------------------------------------------
// Choosing the next version
// ---------------------------------------------------------------------------

/// `s` with ASCII upper-case letters made lower-case.
pub open spec fn ascii_lowercase(s: Seq<char>) -> Seq<char> {
    s.map_values(|c: char| if 'A' <= c <= 'Z' { ((c as int) + 32) as char } else { c })
}

fn lowercase(s: &str) -> (r: Vec<char>)
    ensures
        r@ == ascii_lowercase(s@),
{
    let cs = chars_of(s);
    let mut out: Vec<char> = Vec::new();
    let mut i: usize = 0;
    while i < cs.len()
        invariant
            i <= cs.len(),
            out@ == ascii_lowercase(cs@.take(i as int)),
        decreases cs.len() - i,
    {
        let c = cs[i];
        let l = if 'A' <= c && c <= 'Z' {
            let b: u8 = (c as u8) + 32;
            b as char
        } else {
            c
        };
        out.push(l);
        i = i + 1;
        assert(out@ =~= ascii_lowercase(cs@.take(i as int)));
    }
    assert(cs@.take(cs.len() as int) =~= cs@);
    out
}

/// A list of semantic version tags, as `git` listing gives it.
pub open spec fn are_version_tags(tags: Seq<Seq<char>>) -> bool {
    forall|i: int|
        0 <= i < tags.len() ==> !parse_is_undefined(#[trigger] tags[i]) && version_fields(
            trim(tags[i]),
        ) is Some
}

/// The textual fields of the newest tag.
pub open spec fn latest_fields(tags: Seq<Seq<char>>) -> (Seq<char>, Seq<char>, Seq<char>, Option<
    Seq<char>,
>) {
    version_fields(trim(tags[0]))->0
}

/// The inputs on which choosing a version has a defined result: an explicit
/// version must parse, the next automatic prerelease number must fit, and a
/// bumped component must not be at its maximum.
pub open spec fn resolve_is_defined(
    bump: Option<Seq<char>>,
    version: Option<Seq<char>>,
    tags: Seq<Seq<char>>,
) -> bool {
    &&& are_version_tags(tags)
    &&& match (bump, version) {
        (None, Some(v)) => {
            &&& !parse_is_undefined(v)
            &&& match version_fields(trim(v)) {
                Some(f) => match f.3 {
                    Some(p) => number_of(p) is None ==> max_suffix(
                        tags,
                        prerelease_prefix(
                            parsed_u64(f.0)->0,
                            parsed_u64(f.1)->0,
                            parsed_u64(f.2)->0,
                            label_of(p),
                        ),
                    ) != Some(u64::MAX),
                    None => true,
                },
                None => true,
            }
        },
        (Some(b), None) => tags.len() > 0 ==> {
            let l = ascii_lowercase(b);
            let f = latest_fields(tags);
            &&& l == "major"@ ==> parsed_u64(f.0) != Some(u64::MAX)
            &&& l == "minor"@ ==> parsed_u64(f.1) != Some(u64::MAX)
            &&& l == "patch"@ ==> parsed_u64(f.2) != Some(u64::MAX)
        },
        _ => true,
    }
}

/// Resolve the next version to tag from exactly one of a bump component
/// (`major`, `minor` or `patch`, any case) or an explicit version, given
/// the repository's semantic version tags newest first.
///
/// An explicit prerelease without a number gets the next free number for
/// its label; a bump applies to the newest tag.
pub fn resolve_next_version(bump: Option<&str>, version: Option<&str>, tags: &Vec<String>) -> (r:
    Result<SemVer, EngitError>)
    requires
        resolve_is_defined(
            match bump { Some(b) => Some(b@), None => None },
            match version { Some(v) => Some(v@), None => None },
            tags@.map_values(|t: String| t@),
        ),
    ensures
        bump is Some == version is Some ==> (r matches Err(EngitError::Validation(m)) && m@
            == "Provide exactly one of 'bump' or 'version'."@),
        bump is None && version is Some ==> match version_fields(trim(version->0@)) {
            None => r matches Err(EngitError::SemVer(_)),
            Some(f) => r matches Ok(v) && parsed_u64(f.0) == Some(v.major) && parsed_u64(f.1)
                == Some(v.minor) && parsed_u64(f.2) == Some(v.patch) && match f.3 {
                Some(p) => if number_of(p) is None {
                    pre_text(v) == Some(
                        label_of(p) + seq!['.'] + decimal(
                            next_number(
                                tags@.map_values(|t: String| t@),
                                prerelease_prefix(v.major, v.minor, v.patch, label_of(p)),
                            ),
                        ),
                    )
                } else {
                    pre_text(v) == Some(p)
                },
                None => v.prerelease is None,
            },
        },
        bump is Some && version is None && tags.len() == 0 ==> (r matches Err(
            EngitError::NoTagsFound(m),
        ) && m@
            == "No semantic version tags found in this repository. Use --version to supply an explicit first version (e.g. --version 0.0.1)."@),
        bump is Some && version is None && tags.len() > 0 ==> {
            let l = ascii_lowercase(bump->0@);
            let f = latest_fields(tags@.map_values(|t: String| t@));
            if l == "major"@ {
                r matches Ok(v) && v.major == parsed_u64(f.0)->0 + 1 && v.minor == 0 && v.patch == 0
                    && v.prerelease is None
            } else if l == "minor"@ {
                r matches Ok(v) && parsed_u64(f.0) == Some(v.major) && v.minor == parsed_u64(f.1)->0 + 1
                    && v.patch == 0 && v.prerelease is None
            } else if l == "patch"@ {
                r matches Ok(v) && parsed_u64(f.0) == Some(v.major) && parsed_u64(f.1) == Some(v.minor)
                    && v.patch == parsed_u64(f.2)->0 + 1 && v.prerelease is None
            } else {
                r matches Err(EngitError::Validation(m)) && m@ == "Unknown bump component '"@ + l
                    + "'. Use 'major', 'minor', or 'patch'."@
            }
        },
{
    let ghost tv = tags@.map_values(|t: String| t@);
    if bump.is_some() == version.is_some() {
        let mut m: Vec<char> = Vec::new();
        extend_str(&mut m, "Provide exactly one of 'bump' or 'version'.");
        return Err(EngitError::Validation(string_of(&m)));
    }
    if let Some(version) = version {
        let parsed = SemVer::parse(version)?;
        if parsed.prerelease.is_some() && parsed.prerelease_number().is_none() {
            let label = match parsed.prerelease_label() {
                Some(l) => l,
                None => "",
            };
            let base = SemVer {
                major: parsed.major,
                minor: parsed.minor,
                patch: parsed.patch,
                prerelease: None,
            };
            let next_number = next_prerelease_number(&base, label, tags);
            let mut p = chars_of(label);
            p.push('.');
            push_decimal(&mut p, next_number);
            return Ok(
                SemVer {
                    major: parsed.major,
                    minor: parsed.minor,
                    patch: parsed.patch,
                    prerelease: Some(string_of(&p)),
                },
            );
        }
        return Ok(parsed);
    }
    if tags.len() == 0 {
        let mut m: Vec<char> = Vec::new();
        extend_str(
            &mut m,
            "No semantic version tags found in this repository. Use --version to supply an explicit first version (e.g. --version 0.0.1).",
        );
        return Err(EngitError::NoTagsFound(string_of(&m)));
    }
    let b = match bump {
        Some(b) => b,
        None => "",
    };
    assert(tv[0] == tags@[0]@);
    let current = match SemVer::parse(tags[0].as_str()) {
        Ok(v) => v,
        Err(e) => return Err(e),
    };
    let l = lowercase(b);
    let major = chars_of("major");
    let minor = chars_of("minor");
    let patch = chars_of("patch");
    if chars_eq(&l, &major) {
        Ok(current.bump_major())
    } else if chars_eq(&l, &minor) {
        Ok(current.bump_minor())
    } else if chars_eq(&l, &patch) {
        Ok(current.bump_patch())
    } else {
        let mut m: Vec<char> = Vec::new();
        extend_str(&mut m, "Unknown bump component '");
        extend_chars(&mut m, &l);
        extend_str(&mut m, "'. Use 'major', 'minor', or 'patch'.");
        Err(EngitError::Validation(string_of(&m)))
    }
}

/// Whether choosing the next version reads the repository's tags: for a
/// bump, or for an explicit prerelease without a number.
pub fn reads_tags(bump: Option<&str>, version: Option<&str>) -> (r: bool)
    requires
        bump is None && version is Some ==> !parse_is_undefined(version->0@),
    ensures
        r == match (bump, version) {
            (Some(_), None) => true,
            (None, Some(v)) => version_fields(trim(v@)) matches Some(f) && f.3 matches Some(p)
                && number_of(p) is None,
            _ => false,
        },
{
    match (bump, version) {
        (Some(_), None) => true,
        (None, Some(v)) => match SemVer::parse(v) {
            Ok(parsed) => parsed.prerelease.is_some() && parsed.prerelease_number().is_none(),
            Err(_) => false,
        },
        _ => false,
    }
}

/// Whether choosing the next version has a defined result (see
/// [`resolve_is_defined`]) for tags as a tag listing gives them.
pub fn resolve_is_possible(bump: Option<&str>, version: Option<&str>, tags: &Vec<String>) -> (r:
    bool)
    requires
        are_version_tags(tags@.map_values(|t: String| t@)),
    ensures
        r == resolve_is_defined(
            match bump { Some(b) => Some(b@), None => None },
            match version { Some(v) => Some(v@), None => None },
            tags@.map_values(|t: String| t@),
        ),
{
    let ghost tv = tags@.map_values(|t: String| t@);
    match (bump, version) {
        (None, Some(v)) => {
            if !SemVer::parse_is_defined(v) {
                return false;
            }
            let parsed = match SemVer::parse(v) {
                Ok(p) => p,
                Err(_) => return true,
            };
            if parsed.prerelease.is_some() && parsed.prerelease_number().is_none() {
                let label = match parsed.prerelease_label() {
                    Some(l) => l,
                    None => "",
                };
                let base = SemVer {
                    major: parsed.major,
                    minor: parsed.minor,
                    patch: parsed.patch,
                    prerelease: None,
                };
                match max_prerelease_number(&base, label, tags) {
                    Some(m) => m != u64::MAX,
                    None => true,
                }
            } else {
                true
            }
        },
        (Some(b), None) => {
            if tags.len() == 0 {
                return true;
            }
            assert(tv[0] == tags@[0]@);
            let current = match SemVer::parse(tags[0].as_str()) {
                Ok(c) => c,
                Err(_) => return true,
            };
            let l = lowercase(b);
            proof {
                reveal_strlit("major");
                reveal_strlit("minor");
                reveal_strlit("patch");
            }
            assert("major"@[1] != "minor"@[1] && "major"@[0] != "patch"@[0] && "minor"@[0]
                != "patch"@[0]);
            let r = if chars_eq(&l, &chars_of("major")) {
                current.major != u64::MAX
            } else if chars_eq(&l, &chars_of("minor")) {
                current.minor != u64::MAX
            } else if chars_eq(&l, &chars_of("patch")) {
                current.patch != u64::MAX
            } else {
                true
            };
            r
        },
        _ => true,
    }
}

// ---------------------------------------------------------------------------
// Annotation text
// ---------------------------------------------------------------------------

/// `text` without `#` comment lines and without leading and trailing blank
/// lines, joined with `\n`.
pub open spec fn comment_free_text(text: Seq<char>) -> Seq<char> {
    join(drop_trailing_blank(drop_leading_blank(uncommented_lines(text))), seq!['\n'])
}

/// Remove `#` comment lines and blank edge lines from an annotation.
pub fn strip_comments(text: &str) -> (r: String)
    ensures
        r@ == comment_free_text(text@),
{
    let cs = chars_of(text);
    let kept = uncommented_lines_of(&cs);
    let trimmed = trim_blank_lines(&kept);
    let mut sep: Vec<char> = Vec::new();
    sep.push('\n');
    assert(sep@ =~= seq!['\n']);
    let joined = join_chars(&trimmed, &sep);
    string_of(&joined)
}

/// `- <message>` for each commit subject.
pub open spec fn bullet_lines(commits: Seq<Seq<char>>) -> Seq<Seq<char>> {
    commits.map_values(|m: Seq<char>| "- "@ + m)
}

/// The body of generated notes: commit bullets, or a sentence for an
/// initial or unchanged release.
pub open spec fn notes_body_lines(commits: Seq<Seq<char>>, initial: bool) -> Seq<Seq<char>> {
    if commits.len() > 0 {
        bullet_lines(commits)
    } else if initial {
        seq!["This is the initial release."@]
    } else {
        seq!["This is a no-change release."@]
    }
}

/// The lines of the editor draft for a new tag.
pub open spec fn tag_draft_lines(
    tag: Seq<char>,
    default_annotation: Seq<char>,
    commits: Seq<Seq<char>>,
    prev_tag: Option<Seq<char>>,
) -> Seq<Seq<char>> {
    let history: Seq<Seq<char>> = match prev_tag {
        Some(p) => seq![
            "# Previous tag: "@ + p,
            "# Commits above pre-populated from git log since "@ + p + "."@,
        ],
        None => seq!["# First tag in this repository."@],
    };
    seq![default_annotation, Seq::empty()] + notes_body_lines(commits, prev_tag is None) + seq![
        Seq::empty(),
        "#"@,
        "# Write a message for tag: "@ + tag,
    ] + history + seq![
        "# Lines starting with '#' will be ignored."@,
        "# Save the file to confirm. Close without saving to cancel."@,
    ]
}

/// Appends `- <message>` lines for the commits.
pub fn push_bullets(lines: &mut Vec<Vec<char>>, commits: &Vec<String>)
    ensures
        final(lines)@.map_values(|p: Vec<char>| p@) == old(lines)@.map_values(|p: Vec<char>| p@)
            + bullet_lines(commits@.map_values(|c: String| c@)),
{
    let ghost cv = commits@.map_values(|c: String| c@);
    let ghost start = lines@.map_values(|p: Vec<char>| p@);
    let mut i: usize = 0;
    while i < commits.len()
        invariant
            i <= commits.len(),
            cv == commits@.map_values(|c: String| c@),
            lines@.map_values(|p: Vec<char>| p@) == start + bullet_lines(cv.take(i as int)),
        decreases commits.len() - i,
    {
        let mut l: Vec<char> = Vec::new();
        extend_str(&mut l, "- ");
        extend_str(&mut l, commits[i].as_str());
        let ghost before = lines@.map_values(|p: Vec<char>| p@);
        lines.push(l);
        proof {
            assert(cv[i as int] == commits@[i as int]@);
            assert(lines@.map_values(|p: Vec<char>| p@) =~= before.push("- "@ + cv[i as int]));
            assert(bullet_lines(cv.take(i + 1)) =~= bullet_lines(cv.take(i as int)).push("- "@ + cv[i as int]));
        }
        i = i + 1;
    }
    assert(cv.take(commits.len() as int) =~= cv);
}

fn line_of(s: &str) -> (r: Vec<char>)
    ensures
        r@ == s@,
{
    chars_of(s)
}

/// The editor draft for a new tag: the default annotation, a blank line,
/// the notes body, and `#` guidance lines, each ending with `\n`.
pub fn build_tag_draft(tag: &str, default_annotation: &str, commits: &Vec<String>, prev_tag: Option<
    &str,
>) -> (r: String)
    ensures
        r@ == join(
            tag_draft_lines(
                tag@,
                default_annotation@,
                commits@.map_values(|c: String| c@),
                match prev_tag { Some(p) => Some(p@), None => None },
            ),
            seq!['\n'],
        ) + seq!['\n'],
{
    let ghost cv = commits@.map_values(|c: String| c@);
    let mut lines: Vec<Vec<char>> = Vec::new();
    lines.push(line_of(default_annotation));
    lines.push(Vec::new());
    let ghost head = lines@.map_values(|p: Vec<char>| p@);
    if commits.len() > 0 {
        push_bullets(&mut lines, commits);
    } else if prev_tag.is_none() {
        lines.push(line_of("This is the initial release."));
    } else {
        lines.push(line_of("This is a no-change release."));
    }
    let ghost with_body = lines@.map_values(|p: Vec<char>| p@);
    proof {
        assert(with_body =~= head + notes_body_lines(cv, prev_tag is None));
    }
    let e: Vec<char> = Vec::new();
    let hash = line_of("#");
    let mut w = line_of("# Write a message for tag: ");
    extend_str(&mut w, tag);
    let mut tail: Vec<Vec<char>> = Vec::new();
    tail.push(e);
    tail.push(hash);
    tail.push(w);
    match prev_tag {
        Some(p) => {
            let mut a = line_of("# Previous tag: ");
            extend_str(&mut a, p);
            tail.push(a);
            let mut b = line_of("# Commits above pre-populated from git log since ");
            extend_str(&mut b, p);
            extend_str(&mut b, ".");
            tail.push(b);
        },
        None => {
            tail.push(line_of("# First tag in this repository."));
        },
    }
    tail.push(line_of("# Lines starting with '#' will be ignored."));
    tail.push(line_of("# Save the file to confirm. Close without saving to cancel."));
    let ghost tail_v = tail@.map_values(|p: Vec<char>| p@);
    proof {
        let history: Seq<Seq<char>> = match prev_tag {
            Some(p) => seq![
                "# Previous tag: "@ + p@,
                "# Commits above pre-populated from git log since "@ + p@ + "."@,
            ],
            None => seq!["# First tag in this repository."@],
        };
        assert(tail_v =~= seq![
            Seq::<char>::empty(),
            "#"@,
            "# Write a message for tag: "@ + tag@,
        ] + history + seq![
            "# Lines starting with '#' will be ignored."@,
            "# Save the file to confirm. Close without saving to cancel."@,
        ]);
    }
    let mut k: usize = 0;
    while k < tail.len()
        invariant
            k <= tail.len(),
            tail_v == tail@.map_values(|p: Vec<char>| p@),
            lines@.map_values(|p: Vec<char>| p@) == with_body + tail_v.take(k as int),
        decreases tail.len() - k,
    {
        let piece = slice_chars(&tail[k], 0, tail[k].len());
        assert(tail@[k as int]@.subrange(0, tail@[k as int]@.len() as int) =~= tail_v[k as int]);
        let ghost before = lines@.map_values(|p: Vec<char>| p@);
        lines.push(piece);
        assert(lines@.map_values(|p: Vec<char>| p@) =~= before.push(tail_v[k as int]));
        assert(tail_v.take(k + 1) =~= tail_v.take(k as int).push(tail_v[k as int]));
        k = k + 1;
    }
    proof {
        assert(tail_v.take(tail_v.len() as int) =~= tail_v);
        assert(head =~= seq![default_annotation@, Seq::<char>::empty()]);
        assert(lines@.map_values(|p: Vec<char>| p@) =~= tag_draft_lines(
            tag@,
            default_annotation@,
            cv,
            match prev_tag { Some(p) => Some(p@), None => None },
        ));
    }
    let mut sep: Vec<char> = Vec::new();
    sep.push('\n');
    assert(sep@ =~= seq!['\n']);
    let mut joined = join_chars(&lines, &sep);
    joined.push('\n');
    string_of(&joined)
}

/// The default annotation for a tag: the given message, or
/// `Release <tag>`.
pub fn default_annotation(message: Option<&str>, tag_name: &str) -> (r: String)
    ensures
        r@ == match message {
            Some(m) => m@,
            None => "Release "@ + tag_name@,
        },
{
    match message {
        Some(m) => m.to_owned(),
        None => {
            let mut v = line_of("Release ");
            extend_str(&mut v, tag_name);
            string_of(&v)
        },
    }
}

/// The error for a tag that already exists.
pub fn tag_exists_error(tag: &str) -> (r: EngitError)
    ensures
        r matches EngitError::Git(m) && m@ == "Tag '"@ + tag@
            + "' already exists. Use --version to supply a different version."@,
{
    let mut m = chars_of("Tag '");
    extend_str(&mut m, tag);
    extend_str(&mut m, "' already exists. Use --version to supply a different version.");
    EngitError::Git(string_of(&m))
}

// ---------------------------------------------------------------------------
// The tag draft read back
// ---------------------------------------------------------------------------

/// A line with no line break in it.
pub open spec fn single_line(l: Seq<char>) -> bool {
    !l.contains('\n') && !l.contains('\r')
}

proof fn lemma_single_line_concat(a: Seq<char>, b: Seq<char>)
    requires
        single_line(a),
        single_line(b),
    ensures
        single_line(a + b),
{
    assert forall|i: int| 0 <= i < (a + b).len() implies (a + b)[i] != '\n' && (a + b)[i] != '\r' by {
        if i < a.len() {
            assert((a + b)[i] == a[i]);
        } else {
            assert((a + b)[i] == b[i - a.len()]);
        }
    }
}

proof fn lemma_literal_single_line(l: Seq<char>)
    requires
        forall|i: int| 0 <= i < l.len() ==> l[i] != '\n' && l[i] != '\r',
    ensures
        single_line(l),
{
}

proof fn lemma_join_prepend(x: Seq<char>, r: Seq<Seq<char>>, sep: Seq<char>)
    requires
        r.len() >= 1,
    ensures
        join(seq![x] + r, sep) == x + sep + join(r, sep),
    decreases r.len(),
{
    let l = seq![x] + r;
    assert(l.last() == r.last());
    assert(join(l, sep) == join(l.drop_last(), sep) + sep + l.last());
    if r.len() == 1 {
        assert(l.drop_last() =~= seq![x]);
        assert(join(seq![x], sep) == x);
        assert(join(r, sep) == r[0]);
    } else {
        lemma_join_prepend(x, r.drop_last(), sep);
        assert(l.drop_last() =~= seq![x] + r.drop_last());
        assert(join(r, sep) == join(r.drop_last(), sep) + sep + r.last());
        assert(x + sep + join(r.drop_last(), sep) + sep + r.last() =~= x + sep + (join(
            r.drop_last(),
            sep,
        ) + sep + r.last()));
    }
}

proof fn lemma_split_joined(ls: Seq<Seq<char>>)
    requires
        ls.len() >= 1,
        forall|i: int| 0 <= i < ls.len() ==> single_line(#[trigger] ls[i]),
    ensures
        split_on(join(ls, seq!['\n']) + seq!['\n'], '\n') == ls.push(Seq::empty()),
    decreases ls.len(),
{
    let x = ls[0];
    assert(single_line(x));
    if ls.len() == 1 {
        lemma_split_on_concat(x, '\n', Seq::empty());
        assert(x + seq!['\n'] + Seq::<char>::empty() =~= join(ls, seq!['\n']) + seq!['\n']);
        assert(split_on(Seq::<char>::empty(), '\n') == seq![Seq::<char>::empty()]);
        assert(seq![x] + seq![Seq::<char>::empty()] =~= ls.push(Seq::empty()));
    } else {
        let r = ls.drop_first();
        assert(ls =~= seq![x] + r);
        lemma_join_prepend(x, r, seq!['\n']);
        assert forall|i: int| 0 <= i < r.len() implies single_line(#[trigger] r[i]) by {
            assert(r[i] == ls[i + 1]);
        }
        lemma_split_joined(r);
        lemma_split_on_concat(x, '\n', join(r, seq!['\n']) + seq!['\n']);
        assert(join(ls, seq!['\n']) + seq!['\n'] =~= x + seq!['\n'] + (join(r, seq!['\n']) + seq!['\n']));
        assert(seq![x] + r.push(Seq::empty()) =~= ls.push(Seq::empty()));
    }
}

/// Joining single lines with line breaks, each ending in one, reads back
/// as the same lines.
proof fn lemma_lines_of_joined(ls: Seq<Seq<char>>)
    requires
        ls.len() >= 1,
        forall|i: int| 0 <= i < ls.len() ==> single_line(#[trigger] ls[i]),
    ensures
        lines(join(ls, seq!['\n']) + seq!['\n']) == ls,
{
    lemma_split_joined(ls);
    let parts = ls.push(Seq::<char>::empty());
    assert(parts.drop_last() =~= ls);
    assert forall|i: int| 0 <= i < ls.len() implies strip_cr(ls[i]) == ls[i] by {
        assert(single_line(ls[i]));
        if ls[i].len() > 0 {
            assert(ls[i][ls[i].len() - 1] != '\r');
        }
    }
    assert(ls.map_values(|l: Seq<char>| strip_cr(l)) =~= ls);
}

proof fn lemma_filter_all(s: Seq<Seq<char>>, p: spec_fn(Seq<char>) -> bool)
    requires
        forall|i: int| 0 <= i < s.len() ==> p(#[trigger] s[i]),
    ensures
        s.filter(p) == s,
    decreases s.len(),
{
    reveal(Seq::filter);
    if s.len() > 0 {
        lemma_filter_all(s.drop_last(), p);
        assert(s.drop_last().push(s.last()) =~= s);
    }
}

proof fn lemma_filter_none(s: Seq<Seq<char>>, p: spec_fn(Seq<char>) -> bool)
    requires
        forall|i: int| 0 <= i < s.len() ==> !p(#[trigger] s[i]),
    ensures
        s.filter(p) == Seq::<Seq<char>>::empty(),
    decreases s.len(),
{
    reveal(Seq::filter);
    if s.len() > 0 {
        lemma_filter_none(s.drop_last(), p);
    }
}

/// A line whose first character is not whitespace is not blank, and is a
/// comment exactly when that character is `#`.
proof fn lemma_starts_plain(l: Seq<char>)
    requires
        l.len() > 0,
        !is_ws(l[0]),
    ensures
        !is_blank_line(l),
        is_not_comment()(l) <==> l[0] != '#',
    decreases l.len(),
{
    assert(trim_start(l) == l);
    lemma_trim_end_keeps_first(l);
    assert(has_prefix(l, seq!['#']) <==> l[0] == '#') by {
        if l[0] == '#' {
            assert(l.take(1) =~= seq!['#']);
        } else {
            assert(l.take(1)[0] != '#');
        }
    }
}

proof fn lemma_trim_end_keeps_first(l: Seq<char>)
    requires
        l.len() > 0,
        !is_ws(l[0]),
    ensures
        trim_end(l).len() > 0,
    decreases l.len(),
{
    if is_ws(l.last()) {
        assert(l.len() > 1);
        assert(l.drop_last()[0] == l[0]);
        lemma_trim_end_keeps_first(l.drop_last());
    }
}

/// The empty line is blank and no comment.
proof fn lemma_empty_line()
    ensures
        is_blank_line(Seq::<char>::empty()),
        is_not_comment()(Seq::<char>::empty()),
        single_line(Seq::<char>::empty()),
{
    assert(trim_start(Seq::<char>::empty()) == Seq::<char>::empty());
    assert(trim_end(Seq::<char>::empty()) == Seq::<char>::empty());
}

/// A comment line of the draft: it starts with `#` and holds no break.
pub open spec fn draft_comment(l: Seq<char>) -> bool {
    l.len() > 0 && l[0] == '#' && single_line(l)
}

/// A kept line of the draft: it starts with neither whitespace nor `#`
/// and holds no break.
pub open spec fn draft_text(l: Seq<char>) -> bool {
    l.len() > 0 && !is_ws(l[0]) && l[0] != '#' && single_line(l)
}

proof fn lemma_comment_then(lit: Seq<char>, rest: Seq<char>)
    requires
        draft_comment(lit),
        single_line(rest),
    ensures
        draft_comment(lit + rest),
{
    lemma_single_line_concat(lit, rest);
    assert((lit + rest)[0] == lit[0]);
}

proof fn lemma_draft_literals()
    ensures
        draft_comment("#"@),
        draft_comment("# Write a message for tag: "@),
        draft_comment("# Previous tag: "@),
        draft_comment("# Commits above pre-populated from git log since "@),
        single_line("."@),
        draft_comment("# First tag in this repository."@),
        draft_comment("# Lines starting with '#' will be ignored."@),
        draft_comment("# Save the file to confirm. Close without saving to cancel."@),
        draft_text("This is the initial release."@),
        draft_text("This is a no-change release."@),
        draft_text("- "@),
{
    reveal_strlit("#");
    reveal_strlit("# Write a message for tag: ");
    reveal_strlit("# Previous tag: ");
    reveal_strlit("# Commits above pre-populated from git log since ");
    reveal_strlit(".");
    reveal_strlit("# First tag in this repository.");
    reveal_strlit("# Lines starting with '#' will be ignored.");
    reveal_strlit("# Save the file to confirm. Close without saving to cancel.");
    reveal_strlit("This is the initial release.");
    reveal_strlit("This is a no-change release.");
    reveal_strlit("- ");
}

/// The comment lines that end the draft of a tag.
pub open spec fn draft_tail(tag: Seq<char>, prev_tag: Option<Seq<char>>) -> Seq<Seq<char>> {
    let history: Seq<Seq<char>> = match prev_tag {
        Some(p) => seq![
            "# Previous tag: "@ + p,
            "# Commits above pre-populated from git log since "@ + p + "."@,
        ],
        None => seq!["# First tag in this repository."@],
    };
    seq!["#"@, "# Write a message for tag: "@ + tag] + history + seq![
        "# Lines starting with '#' will be ignored."@,
        "# Save the file to confirm. Close without saving to cancel."@,
    ]
}

proof fn lemma_body_lines(commits: Seq<Seq<char>>, initial: bool)
    requires
        forall|i: int| 0 <= i < commits.len() ==> single_line(#[trigger] commits[i]),
    ensures
        notes_body_lines(commits, initial).len() >= 1,
        forall|i: int| 0 <= i < notes_body_lines(commits, initial).len() ==> draft_text(
            #[trigger] notes_body_lines(commits, initial)[i],
        ),
{
    lemma_draft_literals();
    let body = notes_body_lines(commits, initial);
    assert forall|i: int| 0 <= i < body.len() implies draft_text(#[trigger] body[i]) by {
        if commits.len() > 0 {
            assert(body[i] == "- "@ + commits[i]);
            lemma_single_line_concat("- "@, commits[i]);
            assert(body[i][0] == "- "@[0]);
        }
    }
}

proof fn lemma_tail_lines(tag: Seq<char>, prev_tag: Option<Seq<char>>)
    requires
        single_line(tag),
        prev_tag matches Some(p) ==> single_line(p),
    ensures
        forall|i: int| 0 <= i < draft_tail(tag, prev_tag).len() ==> draft_comment(
            #[trigger] draft_tail(tag, prev_tag)[i],
        ),
{
    lemma_draft_literals();
    let history: Seq<Seq<char>> = match prev_tag {
        Some(p) => seq![
            "# Previous tag: "@ + p,
            "# Commits above pre-populated from git log since "@ + p + "."@,
        ],
        None => seq!["# First tag in this repository."@],
    };
    match prev_tag {
        Some(p) => {
            lemma_comment_then("# Previous tag: "@, p);
            lemma_single_line_concat(p, "."@);
            lemma_comment_then("# Commits above pre-populated from git log since "@, p + "."@);
            assert("# Commits above pre-populated from git log since "@ + (p + "."@)
                =~= "# Commits above pre-populated from git log since "@ + p + "."@);
        },
        None => {},
    }
    lemma_comment_then("# Write a message for tag: "@, tag);
    let c = draft_tail(tag, prev_tag);
    assert forall|i: int| 0 <= i < c.len() implies draft_comment(#[trigger] c[i]) by {
        if i >= 2 && i < 2 + history.len() {
            assert(c[i] == history[i - 2]);
        }
    }
}

/// The kept part of the draft: the annotation, a blank line, the notes and
/// a blank line.
pub open spec fn draft_head(annotation: Seq<char>, body: Seq<Seq<char>>) -> Seq<Seq<char>> {
    seq![annotation, Seq::empty()] + body + seq![Seq::<char>::empty()]
}

proof fn lemma_draft_filters_to_head(annotation: Seq<char>, body: Seq<Seq<char>>, tail: Seq<Seq<char>>)
    requires
        is_not_comment()(annotation),
        single_line(annotation),
        body.len() >= 1,
        forall|i: int| 0 <= i < body.len() ==> draft_text(#[trigger] body[i]),
        forall|i: int| 0 <= i < tail.len() ==> draft_comment(#[trigger] tail[i]),
    ensures
        uncommented_lines(join(draft_head(annotation, body) + tail, seq!['\n']) + seq!['\n'])
            == draft_head(annotation, body),
{
    lemma_empty_line();
    let a = draft_head(annotation, body);
    let d = a + tail;
    assert forall|i: int| 0 <= i < d.len() implies single_line(#[trigger] d[i]) by {
        if i >= a.len() {
            assert(d[i] == tail[i - a.len()]);
        } else if i >= 2 && i < 2 + body.len() {
            assert(d[i] == body[i - 2]);
        } else {
            assert(d[i] == a[i]);
        }
    }
    lemma_lines_of_joined(d);
    let p = is_not_comment();
    assert forall|i: int| 0 <= i < a.len() implies p(#[trigger] a[i]) by {
        if i >= 2 && i < 2 + body.len() {
            assert(a[i] == body[i - 2]);
            lemma_starts_plain(body[i - 2]);
        }
    }
    assert forall|i: int| 0 <= i < tail.len() implies !p(#[trigger] tail[i]) by {
        lemma_starts_plain(tail[i]);
    }
    lemma_filter_all(a, p);
    lemma_filter_none(tail, p);
    Seq::filter_distributes_over_add(a, tail, p);
    assert(a + Seq::<Seq<char>>::empty() =~= a);
}

proof fn lemma_head_reads_back(annotation: Seq<char>, body: Seq<Seq<char>>)
    requires
        !is_blank_line(annotation),
        body.len() >= 1,
        forall|i: int| 0 <= i < body.len() ==> draft_text(#[trigger] body[i]),
    ensures
        join(drop_trailing_blank(drop_leading_blank(draft_head(annotation, body))), seq!['\n'])
            == annotation + "\n\n"@ + join(body, seq!['\n']),
{
    lemma_empty_line();
    let e = Seq::<char>::empty();
    let a = draft_head(annotation, body);
    let front = seq![annotation, e] + body;
    assert(a[0] == annotation);
    assert(drop_leading_blank(a) == a);
    assert(a.drop_last() =~= front);
    assert(a.last() == e);
    assert(drop_trailing_blank(a) == drop_trailing_blank(front));
    assert(draft_text(body.last()));
    lemma_starts_plain(body.last());
    assert(front.last() == body.last());
    assert(drop_trailing_blank(front) == front);
    assert(front =~= seq![annotation] + (seq![e] + body));
    lemma_join_prepend(e, body, seq!['\n']);
    lemma_join_prepend(annotation, seq![e] + body, seq!['\n']);
    assert(annotation + seq!['\n'] + (e + seq!['\n'] + join(body, seq!['\n'])) =~= annotation
        + "\n\n"@ + join(body, seq!['\n'])) by {
        reveal_strlit("\n\n");
    }
}

/// The draft of a tag annotation reads back, once its `#` comment lines and
/// blank edges are removed, as the default annotation, a blank line and the
/// notes: for an annotation that is one non-blank line not starting with
/// `#`, and a tag, previous tag and commit subjects without line breaks.
pub proof fn law_tag_draft_reads_back(
    tag: Seq<char>,
    annotation: Seq<char>,
    commits: Seq<Seq<char>>,
    prev_tag: Option<Seq<char>>,
)
    requires
        !is_blank_line(annotation),
        is_not_comment()(annotation),
        single_line(annotation),
        single_line(tag),
        prev_tag matches Some(p) ==> single_line(p),
        forall|i: int| 0 <= i < commits.len() ==> single_line(#[trigger] commits[i]),
    ensures
        comment_free_text(join(tag_draft_lines(tag, annotation, commits, prev_tag), seq!['\n']) + seq![
            '\n',
        ]) == annotation + "\n\n"@ + join(notes_body_lines(commits, prev_tag is None), seq!['\n']),
{
    let body = notes_body_lines(commits, prev_tag is None);
    lemma_body_lines(commits, prev_tag is None);
    lemma_tail_lines(tag, prev_tag);
    let tail = draft_tail(tag, prev_tag);
    assert(tag_draft_lines(tag, annotation, commits, prev_tag) =~= draft_head(annotation, body) + tail);
    lemma_draft_filters_to_head(annotation, body, tail);
    lemma_head_reads_back(annotation, body);
}

/// A bump applies to the latest tag: for the tags of a listing sorted
/// newest first (what [`crate::git::get_sorted_semver_tags`] gives), the
/// numbers a bump starts from ([`latest_fields`], see
/// [`resolve_next_version`]) are those of the latest version (what
/// [`crate::git::get_latest_semver_tag`] gives), so a major, minor or patch
/// bump gives that version's `bump_major`, `bump_minor` or `bump_patch`.
pub proof fn law_bump_applies_to_latest_tag(listing: Seq<char>, tags: Seq<Seq<char>>, latest: SemVer)
    requires
        is_newest_first(version_tags(listing), tags),
        tags.len() > 0,
        version_fields(trim(newest_tag(version_tags(listing)))) matches Some(f) && version_of_fields(
            f,
            latest,
        ),
    ensures
        parsed_u64(latest_fields(tags).0) == Some(latest.major),
        parsed_u64(latest_fields(tags).1) == Some(latest.minor),
        parsed_u64(latest_fields(tags).2) == Some(latest.patch),
{
    law_latest_is_first_sorted(version_tags(listing), tags);
}

/// The next prerelease number is greater than every number already used
/// after the prefix in the tags, is at least 1, and, when some number is
/// used, is one more than a used number.
pub proof fn law_next_prerelease_number_is_fresh(tags: Seq<Seq<char>>, prefix: Seq<char>)
    ensures
        next_number(tags, prefix) >= 1,
        forall|k: int|
            0 <= k < tags.len() && #[trigger] suffix_number(tags[k], prefix) is Some ==> next_number(tags, prefix)
                > suffix_number(tags[k], prefix)->0,
        max_suffix(tags, prefix) is Some ==> exists|k: int|
            0 <= k < tags.len() && suffix_number(tags[k], prefix) == Some((next_number(tags, prefix) - 1) as u64),
    decreases tags.len(),
{
    if tags.len() > 0 {
        let d = tags.drop_last();
        law_next_prerelease_number_is_fresh(d, prefix);
        assert forall|k: int|
            0 <= k < tags.len() && #[trigger] suffix_number(tags[k], prefix) is Some implies next_number(tags, prefix)
                > suffix_number(tags[k], prefix)->0 by {
            if k < d.len() {
                assert(tags[k] == d[k]);
                assert(suffix_number(d[k], prefix) is Some);
            }
        }
        if max_suffix(tags, prefix) is Some {
            let m = max_suffix(tags, prefix)->0;
            if suffix_number(tags.last(), prefix) == Some(m) {
                assert(suffix_number(tags[tags.len() - 1], prefix) == Some(m));
            } else {
                let k = choose|k: int|
                    0 <= k < d.len() && suffix_number(d[k], prefix) == Some((next_number(d, prefix) - 1) as u64);
                assert(tags[k] == d[k]);
            }
        }
    }
}

} // verus!
