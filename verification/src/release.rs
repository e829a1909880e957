//! Release notes and titles for GitHub releases made from tags.

use vstd::prelude::*;

use crate::error::EngitError;
use crate::github::{create_release, create_release_text};
use crate::publish::texts_of;
use crate::semver::{parse_is_undefined, pre_text, version_fields, SemVer};
use crate::tag::{bullet_lines, notes_body_lines, push_bullets};
use crate::text::{
    chars_eq, chars_of, drop_leading_blank, extend_str, join, join_chars, slice_lines, string_of,
    trim, trim_blank_lines, trim_chars, uncommented_lines, uncommented_lines_of,
    lemma_drop_leading_blank_skip, blank_line, is_blank_line,
};

verus! {

fn newline() -> (r: Vec<char>)
    ensures
        r@ == seq!['\n'],
{
    let mut v: Vec<char> = Vec::new();
    v.push('\n');
    assert(v@ =~= seq!['\n']);
    v
}

/// Draft release notes: one `- <subject>` line per commit, or a sentence
/// for an initial or unchanged release.
pub fn build_draft_notes(_tag: &str, commits: &Vec<String>, initial: bool) -> (r: String)
    ensures
        r@ == join(notes_body_lines(commits@.map_values(|c: String| c@), initial), seq!['\n']),
{
    let mut lines: Vec<Vec<char>> = Vec::new();
    if commits.len() > 0 {
        push_bullets(&mut lines, commits);
        assert(lines@.map_values(|p: Vec<char>| p@) =~= bullet_lines(commits@.map_values(|c: String| c@)));
    } else if initial {
        lines.push(chars_of("This is the initial release."));
        assert(lines@.map_values(|p: Vec<char>| p@) =~= seq!["This is the initial release."@]);
    } else {
        lines.push(chars_of("This is a no-change release."));
        assert(lines@.map_values(|p: Vec<char>| p@) =~= seq!["This is a no-change release."@]);
    }
    let sep = newline();
    let joined = join_chars(&lines, &sep);
    string_of(&joined)
}

/// The title and body of an annotation: comment lines dropped, the title is
/// the first non-blank line (trimmed), the body is the rest without leading
/// blank lines, joined and trimmed.
pub open spec fn annotation_parts(annotation: Seq<char>) -> (Seq<char>, Seq<char>) {
    let ls = drop_leading_blank(uncommented_lines(annotation));
    if ls.len() == 0 {
        (Seq::empty(), Seq::empty())
    } else {
        (trim(ls[0]), trim(join(drop_leading_blank(ls.drop_first()), seq!['\n'])))
    }
}

fn drop_leading_blank_lines(ls: &Vec<Vec<char>>) -> (out: Vec<Vec<char>>)
    ensures
        out@.map_values(|p: Vec<char>| p@) == drop_leading_blank(ls@.map_values(|p: Vec<char>| p@)),
{
    let ghost lv = ls@.map_values(|p: Vec<char>| p@);
    let mut i: usize = 0;
    while i < ls.len() && blank_line(&ls[i])
        invariant
            i <= ls.len(),
            lv == ls@.map_values(|p: Vec<char>| p@),
            forall|k: int| 0 <= k < i ==> is_blank_line(#[trigger] lv[k]),
        decreases ls.len() - i,
    {
        i = i + 1;
    }
    proof {
        lemma_drop_leading_blank_skip(lv, i as int);
        assert(lv.subrange(i as int, lv.len() as int) =~= lv.skip(i as int));
    }
    slice_lines(ls, i, ls.len())
}

/// Split an annotation into its title and body (see [`annotation_parts`]).
pub fn parse_annotation(annotation: &str) -> (r: (String, String))
    ensures
        (r.0@, r.1@) == annotation_parts(annotation@),
{
    let cs = chars_of(annotation);
    let kept = uncommented_lines_of(&cs);
    let ls = drop_leading_blank_lines(&kept);
    let ghost lv = ls@.map_values(|p: Vec<char>| p@);
    if ls.len() == 0 {
        return (String::new(), String::new());
    }
    let title = trim_chars(&ls[0]);
    assert(lv[0] == ls@[0]@);
    let rest = slice_lines(&ls, 1, ls.len());
    assert(lv.subrange(1, lv.len() as int) =~= lv.drop_first());
    let body_lines = drop_leading_blank_lines(&rest);
    let sep = newline();
    let joined = join_chars(&body_lines, &sep);
    let body = trim_chars(&joined);
    (string_of(&title), string_of(&body))
}

/// The tag released before `tag`: the one listed after it in the tags
/// sorted newest first.
pub open spec fn previous_tag(tags: Seq<Seq<char>>, tag: Seq<char>) -> Option<Seq<char>> {
    if exists|i: int| 0 <= i < tags.len() && tags[i] == tag {
        let i = choose|i: int|
            0 <= i < tags.len() && tags[i] == tag && forall|j: int| 0 <= j < i ==> tags[j] != tag;
        if i + 1 < tags.len() {
            Some(tags[i + 1])
        } else {
            None
        }
    } else {
        None
    }
}

/// Executable [`previous_tag`].
pub fn find_previous_tag(tags: &Vec<String>, tag: &str) -> (r: Option<String>)
    ensures
        match previous_tag(tags@.map_values(|t: String| t@), tag@) {
            Some(p) => r matches Some(s) && s@ == p,
            None => r is None,
        },
{
    let ghost tv = tags@.map_values(|t: String| t@);
    let target = chars_of(tag);
    let mut i: usize = 0;
    while i < tags.len()
        invariant
            i <= tags.len(),
            tv == tags@.map_values(|t: String| t@),
            target@ == tag@,
            forall|j: int| 0 <= j < i ==> tv[j] != tag@,
        decreases tags.len() - i,
    {
        let t = chars_of(tags[i].as_str());
        assert(tv[i as int] == t@);
        if chars_eq(&t, &target) {
            proof {
                let w = choose|k: int|
                    0 <= k < tv.len() && tv[k] == tag@ && forall|j: int| 0 <= j < k ==> tv[j] != tag@;
                assert(0 <= i < tv.len() && tv[i as int] == tag@ && forall|j: int| 0 <= j < i ==> tv[j] != tag@);
                if w < i {
                } else if w > i {
                    assert(tv[i as int] != tag@);
                }
                assert(w == i);
            }
            if i + 1 < tags.len() {
                assert(tv[i + 1] == tags@[i + 1]@);
                return Some(tags[i + 1].clone());
            } else {
                return None;
            }
        }
        i = i + 1;
    }
    None
}

/// The release title: the given title, else the annotation's title, else
/// the tag.
pub fn release_title(title: Option<&str>, parsed_title: &str, tag: &str) -> (r: String)
    ensures
        r@ == match title {
            Some(t) => t@,
            None => if parsed_title@.len() == 0 { tag@ } else { parsed_title@ },
        },
{
    match title {
        Some(t) => t.to_owned(),
        None => {
            let p = chars_of(parsed_title);
            if p.len() == 0 {
                tag.to_owned()
            } else {
                parsed_title.to_owned()
            }
        },
    }
}

/// Whether a tag names a prerelease: it parses as a semantic version with a
/// prerelease identifier.
pub fn is_prerelease_tag(tag: &str) -> (r: bool)
    requires
        !parse_is_undefined(tag@),
    ensures
        r == (version_fields(trim(tag@)) matches Some(f) && f.3 is Some),
{
    match SemVer::parse(tag) {
        Ok(v) => v.prerelease.is_some(),
        Err(_) => false,
    }
}

/// The annotation used when a tag has none: `Release <tag>`, a blank line
/// and the draft notes.
pub fn fallback_annotation(tag: &str, notes: &str) -> (r: String)
    ensures
        r@ == "Release "@ + tag@ + "\n\n"@ + notes@,
{
    let mut v = chars_of("Release ");
    extend_str(&mut v, tag);
    extend_str(&mut v, "\n\n");
    extend_str(&mut v, notes);
    string_of(&v)
}

/// The error when no release tag is given and none exists.
pub fn no_local_tags_error() -> (r: EngitError)
    ensures
        r matches EngitError::NoTagsFound(m) && m@
            == "No semantic version tags found locally. Run 'engit tag' first, or supply --tag explicitly."@,
{
    EngitError::NoTagsFound(
        "No semantic version tags found locally. Run 'engit tag' first, or supply --tag explicitly.".to_owned(),
    )
}

// ---------------------------------------------------------------------------
// The steps of a release
// ---------------------------------------------------------------------------

/// What the caller of a release does next.
pub enum ReleaseAction {
    /// Find the newest semantic version tag and report its tag text with
    /// `Latest`.
    FindLatestTag,
    /// Read the tag's annotation and report it with `Annotation`.
    ReadAnnotation { tag: String },
    /// List the semantic version tags, newest first, with `Tags`.
    ListTags,
    /// List the commit subjects since `since` with `Commits`.
    ReadCommits { since: String },
    /// Ask GitHub whether a release of `tag` exists, with `Exists`.
    CheckRelease { tag: String },
    /// Ask GitHub for the URL of the release of `tag`, with `Url`.
    LookupUrl { tag: String },
    /// Find the current branch, with `Branch`.
    FindBranch,
    /// Push `branch` and `tag` to `remote`.
    PushBranchAndTag { branch: String, tag: String, remote: String },
    /// Push only `tag` to `remote`.
    PushTag { tag: String, remote: String },
    /// Run `gh` with these arguments and report its output with `Created`.
    Create { args: Vec<String> },
    /// The release is over; it ends with `error` when one is set.
    Finished,
}

/// What came of the caller's action.
pub enum ReleaseEvent {
    /// The command succeeded.
    Done,
    /// The command failed.
    Failed(EngitError),
    /// The newest tag, if there is one.
    Latest(Option<String>),
    /// The tag's annotation, if it has one.
    Annotation(Option<String>),
    /// The semantic version tags, newest first.
    Tags(Vec<String>),
    /// Commit subjects.
    Commits(Vec<String>),
    /// Whether a release exists.
    Exists(bool),
    /// A release URL, if one was printed.
    Url(Option<String>),
    /// The current branch, if not detached.
    Branch(Option<String>),
    /// What creating the release printed: its URL.
    Created(String),
}

/// The state of a release.
pub struct ReleaseState {
    /// The title asked for, if any.
    pub title: Option<String>,
    /// Whether the release is a draft.
    pub draft: bool,
    /// The remote pushed to.
    pub remote: String,
    /// Whether only the tag, title and notes are printed.
    pub print_only: bool,
    /// Whether the release is only described.
    pub dry_run: bool,
    /// Whether GitHub adds generated notes.
    pub generate_notes: bool,
    /// The tag released.
    pub tag: String,
    /// The release's title, once decided.
    pub release_title: String,
    /// The release notes, once decided.
    pub notes: String,
    /// Whether the tag is a prerelease, once decided.
    pub prerelease: bool,
    /// What the caller does next.
    pub action: ReleaseAction,
    /// Lines to print before doing it.
    pub lines: Vec<String>,
    /// The error the release ends with.
    pub error: Option<EngitError>,
}

impl ReleaseState {
    /// While the notes are being gathered, the tag is a version text whose
    /// numbers fit.
    pub open spec fn wf(&self) -> bool {
        (self.action is ReadAnnotation || self.action is ListTags || self.action is ReadCommits)
            ==> !parse_is_undefined(self.tag@)
    }
}

/// `true` or `false`.
pub open spec fn bool_text(b: bool) -> Seq<char> {
    if b { "true"@ } else { "false"@ }
}

/// What `--print-only` shows.
pub open spec fn print_only_text(tag: Seq<char>, title: Seq<char>, notes: Seq<char>) -> Seq<Seq<char>> {
    seq!["Tag:   "@ + tag, "Title: "@ + title, Seq::empty(), notes]
}

/// What a dry run shows.
pub open spec fn release_dry_run_text(s: ReleaseState, title: Seq<char>, notes: Seq<char>, prerelease: bool) -> Seq<Seq<char>> {
    seq![
        "\n[dry-run] Would create GitHub release:"@,
        "  Tag:             "@ + s.tag@,
        "  Title:           "@ + title,
        "  Remote:          "@ + s.remote@,
        "  Draft:           "@ + bool_text(s.draft),
        "  Prerelease:      "@ + bool_text(prerelease),
        "  Generate notes:  "@ + bool_text(s.generate_notes),
        Seq::empty(),
        "--- Notes ---"@,
        notes,
        "--- End ---"@,
    ]
}

/// `t` has `s`'s settings.
pub open spec fn release_same(s: ReleaseState, t: ReleaseState) -> bool {
    &&& (match (t.title, s.title) {
        (Some(a), Some(b)) => a@ == b@,
        (None, None) => true,
        _ => false,
    })
    &&& t.draft == s.draft
    &&& t.remote@ == s.remote@
    &&& t.print_only == s.print_only
    &&& t.dry_run == s.dry_run
    &&& t.generate_notes == s.generate_notes
}

/// `t` keeps all of `s` but its action, and prints `lines`.
pub open spec fn release_keeps(s: ReleaseState, t: ReleaseState, lines: Seq<Seq<char>>) -> bool {
    &&& release_same(s, t)
    &&& t.tag@ == s.tag@
    &&& t.release_title@ == s.release_title@
    &&& t.notes@ == s.notes@
    &&& t.prerelease == s.prerelease
    &&& texts_of(t.lines@) == lines
    &&& t.error is None
}

/// `t` ends the release with `error`.
pub open spec fn release_fails(s: ReleaseState, t: ReleaseState, error: EngitError) -> bool {
    &&& t.action is Finished
    &&& release_same(s, t)
    &&& t.tag@ == s.tag@
    &&& texts_of(t.lines@) == Seq::<Seq<char>>::empty()
    &&& t.error == Some(error)
}

/// With the tag's annotation known: the title is the one asked for, else
/// the annotation's title, else the tag; the notes are the annotation's
/// body. `--print-only` prints them, a dry run describes the release,
/// otherwise GitHub is asked whether the release exists.
pub open spec fn release_decided(s: ReleaseState, t: ReleaseState, annotation: Seq<char>) -> bool {
    let parts = annotation_parts(annotation);
    let title = match s.title {
        Some(x) => x@,
        None => if parts.0.len() == 0 { s.tag@ } else { parts.0 },
    };
    let pre = version_fields(trim(s.tag@)) matches Some(f) && f.3 is Some;
    &&& release_same(s, t)
    &&& t.tag@ == s.tag@
    &&& t.release_title@ == title
    &&& t.notes@ == parts.1
    &&& t.prerelease == pre
    &&& t.error is None
    &&& if s.print_only {
        t.action is Finished && texts_of(t.lines@) == print_only_text(s.tag@, title, parts.1)
    } else if s.dry_run {
        t.action is Finished && texts_of(t.lines@) == release_dry_run_text(s, title, parts.1, pre)
    } else {
        (t.action matches ReleaseAction::CheckRelease { tag } && tag@ == s.tag@) && texts_of(t.lines@)
            == Seq::<Seq<char>>::empty()
    }
}

/// `t` creates the release, after printing `lines`.
pub open spec fn release_creates(s: ReleaseState, t: ReleaseState, lines: Seq<Seq<char>>) -> bool {
    &&& release_keeps(s, t, lines)
    &&& t.action matches ReleaseAction::Create { args } && texts_of(args@) == create_release_text(
        s.tag@,
        s.release_title@,
        s.notes@,
        s.draft,
        s.prerelease,
        true,
        s.generate_notes,
    )
}

/// One step of a release: the state `t` that follows `s` when its action
/// had outcome `e`.
pub open spec fn release_transition(s: ReleaseState, e: ReleaseEvent, t: ReleaseState) -> bool {
    match s.action {
        ReleaseAction::FindLatestTag => match e {
            ReleaseEvent::Latest(Some(tag)) => {
                &&& t.action matches ReleaseAction::ReadAnnotation { tag: x } && x@ == tag@
                &&& t.tag@ == tag@
                &&& release_same(s, t)
                &&& texts_of(t.lines@) == Seq::<Seq<char>>::empty()
                &&& t.error is None
            },
            _ => {
                &&& t.action is Finished
                &&& release_same(s, t)
                &&& texts_of(t.lines@) == Seq::<Seq<char>>::empty()
                &&& t.error matches Some(EngitError::NoTagsFound(m)) && m@
                    == "No semantic version tags found locally. Run 'engit tag' first, or supply --tag explicitly."@
            },
        },
        ReleaseAction::ReadAnnotation { tag: _ } => match e {
            ReleaseEvent::Annotation(Some(a)) => if a@.len() > 0 {
                release_decided(s, t, a@)
            } else {
                t.action is ListTags && release_keeps(s, t, Seq::empty())
            },
            _ => t.action is ListTags && release_keeps(s, t, Seq::empty()),
        },
        ReleaseAction::ListTags => {
            let tags = match e {
                ReleaseEvent::Tags(v) => texts_of(v@),
                _ => Seq::empty(),
            };
            match previous_tag(tags, s.tag@) {
                Some(p) => (t.action matches ReleaseAction::ReadCommits { since } && since@ == p)
                    && release_keeps(s, t, Seq::empty()),
                None => release_decided(
                    s,
                    t,
                    "Release "@ + s.tag@ + "\n\n"@ + join(notes_body_lines(Seq::empty(), true), seq!['\n']),
                ),
            }
        },
        ReleaseAction::ReadCommits { since: _ } => {
            let commits = match e {
                ReleaseEvent::Commits(v) => texts_of(v@),
                _ => Seq::empty(),
            };
            release_decided(
                s,
                t,
                "Release "@ + s.tag@ + "\n\n"@ + join(notes_body_lines(commits, false), seq!['\n']),
            )
        },
        ReleaseAction::CheckRelease { tag: _ } => match e {
            ReleaseEvent::Failed(err) => release_fails(s, t, err),
            ReleaseEvent::Exists(true) => (t.action matches ReleaseAction::LookupUrl { tag } && tag@
                == s.tag@) && release_keeps(s, t, Seq::empty()),
            _ => t.action is FindBranch && release_keeps(s, t, Seq::empty()),
        },
        ReleaseAction::LookupUrl { tag: _ } => match e {
            ReleaseEvent::Failed(err) => release_fails(s, t, err),
            _ => t.action is Finished && release_keeps(
                s,
                t,
                seq![
                    "A release for "@ + s.tag@ + " already exists: "@ + match e {
                        ReleaseEvent::Url(Some(u)) => u@,
                        _ => "None"@,
                    },
                ],
            ),
        },
        ReleaseAction::FindBranch => match e {
            ReleaseEvent::Branch(Some(b)) => (t.action matches ReleaseAction::PushBranchAndTag {
                branch,
                tag,
                remote,
            } && branch@ == b@ && tag@ == s.tag@ && remote@ == s.remote@) && release_keeps(
                s,
                t,
                Seq::empty(),
            ),
            _ => (t.action matches ReleaseAction::PushTag { tag, remote } && tag@ == s.tag@
                && remote@ == s.remote@) && release_keeps(s, t, Seq::empty()),
        },
        ReleaseAction::PushBranchAndTag { branch, tag: _, remote: _ } => match e {
            ReleaseEvent::Failed(err) => release_fails(s, t, err),
            _ => release_creates(
                s,
                t,
                seq!["Pushed "@ + branch@ + " and "@ + s.tag@ + " to "@ + s.remote@],
            ),
        },
        ReleaseAction::PushTag { tag: _, remote: _ } => match e {
            ReleaseEvent::Failed(err) => release_fails(s, t, err),
            _ => release_creates(
                s,
                t,
                seq![
                    "Pushed "@ + s.tag@ + " to "@ + s.remote@
                        + " (detached HEAD \u{2014} branch not pushed)"@,
                ],
            ),
        },
        ReleaseAction::Create { args: _ } => match e {
            ReleaseEvent::Failed(err) => release_fails(s, t, err),
            _ => t.action is Finished && release_keeps(
                s,
                t,
                seq![
                    "Release created: "@ + match e {
                        ReleaseEvent::Created(u) => u@,
                        _ => Seq::empty(),
                    },
                ],
            ),
        },
        ReleaseAction::Finished => t.action is Finished && release_same(s, t) && t.tag@ == s.tag@
            && texts_of(t.lines@) == Seq::<Seq<char>>::empty() && t.error == s.error,
    }
}

fn line_list(line: Vec<char>) -> (r: Vec<String>)
    ensures
        texts_of(r@) == seq![line@],
{
    let mut v: Vec<String> = Vec::new();
    v.push(string_of(&line));
    assert(texts_of(v@) =~= seq![line@]);
    v
}

fn no_lines() -> (r: Vec<String>)
    ensures
        texts_of(r@) == Seq::<Seq<char>>::empty(),
{
    let v: Vec<String> = Vec::new();
    assert(texts_of(v@) =~= Seq::<Seq<char>>::empty());
    v
}

fn copy_text(s: &String) -> (r: String)
    ensures
        r@ == s@,
{
    string_of(&chars_of(s.as_str()))
}

fn push_line(v: &mut Vec<String>, line: Vec<char>)
    ensures
        texts_of(final(v)@) == texts_of(old(v)@).push(line@),
{
    v.push(string_of(&line));
    assert(texts_of(v@) =~= texts_of(old(v)@).push(line@));
}

fn push_bool(v: &mut Vec<char>, b: bool)
    ensures
        final(v)@ == old(v)@ + bool_text(b),
{
    if b {
        extend_str(v, "true");
    } else {
        extend_str(v, "false");
    }
}

impl ReleaseState {
    /// How a release starts: from the tag given, or by finding the newest.
    pub fn start(
        tag: Option<&str>,
        title: Option<&str>,
        draft: bool,
        remote: &str,
        print_only: bool,
        dry_run: bool,
        generate_notes: bool,
    ) -> (s: ReleaseState)
        requires
            tag matches Some(t) ==> !parse_is_undefined(t@),
        ensures
            s.wf(),
            match tag {
                Some(t) => s.action matches ReleaseAction::ReadAnnotation { tag: x } && x@ == t@
                    && s.tag@ == t@,
                None => s.action is FindLatestTag,
            },
            match (s.title, title) {
                (Some(a), Some(b)) => a@ == b@,
                (None, None) => true,
                _ => false,
            },
            s.draft == draft,
            s.remote@ == remote@,
            s.print_only == print_only,
            s.dry_run == dry_run,
            s.generate_notes == generate_notes,
            texts_of(s.lines@) == Seq::<Seq<char>>::empty(),
            s.error is None,
    {
        let (t, action) = match tag {
            Some(t) => (string_of(&chars_of(t)), ReleaseAction::ReadAnnotation { tag: string_of(&chars_of(t)) }),
            None => (String::new(), ReleaseAction::FindLatestTag),
        };
        ReleaseState {
            title: match title {
                Some(x) => Some(string_of(&chars_of(x))),
                None => None,
            },
            draft,
            remote: string_of(&chars_of(remote)),
            print_only,
            dry_run,
            generate_notes,
            tag: t,
            release_title: String::new(),
            notes: String::new(),
            prerelease: false,
            action,
            lines: no_lines(),
            error: None,
        }
    }
}

/// Decide the title and notes from the annotation (see [`release_decided`]).
fn decide(s: ReleaseState, annotation: &str) -> (t: ReleaseState)
    requires
        !parse_is_undefined(s.tag@),
    ensures
        release_decided(s, t, annotation@),
        t.wf(),
{
    let ghost s0 = s;
    let (parsed_title, notes) = parse_annotation(annotation);
    let title = release_title(
        match &s.title {
            Some(x) => Some(x.as_str()),
            None => None,
        },
        parsed_title.as_str(),
        s.tag.as_str(),
    );
    let pre = is_prerelease_tag(s.tag.as_str());
    let (action, lines) = if s.print_only {
        let mut v = no_lines();
        let mut a = chars_of("Tag:   ");
        extend_str(&mut a, s.tag.as_str());
        push_line(&mut v, a);
        let mut b = chars_of("Title: ");
        extend_str(&mut b, title.as_str());
        push_line(&mut v, b);
        push_line(&mut v, Vec::new());
        push_line(&mut v, chars_of(notes.as_str()));
        (ReleaseAction::Finished, v)
    } else if s.dry_run {
        let mut v = no_lines();
        push_line(&mut v, chars_of("\n[dry-run] Would create GitHub release:"));
        let mut a = chars_of("  Tag:             ");
        extend_str(&mut a, s.tag.as_str());
        push_line(&mut v, a);
        let mut a = chars_of("  Title:           ");
        extend_str(&mut a, title.as_str());
        push_line(&mut v, a);
        let mut a = chars_of("  Remote:          ");
        extend_str(&mut a, s.remote.as_str());
        push_line(&mut v, a);
        let mut a = chars_of("  Draft:           ");
        push_bool(&mut a, s.draft);
        push_line(&mut v, a);
        let mut a = chars_of("  Prerelease:      ");
        push_bool(&mut a, pre);
        push_line(&mut v, a);
        let mut a = chars_of("  Generate notes:  ");
        push_bool(&mut a, s.generate_notes);
        push_line(&mut v, a);
        push_line(&mut v, Vec::new());
        push_line(&mut v, chars_of("--- Notes ---"));
        push_line(&mut v, chars_of(notes.as_str()));
        push_line(&mut v, chars_of("--- End ---"));
        (ReleaseAction::Finished, v)
    } else {
        (ReleaseAction::CheckRelease { tag: copy_text(&s.tag) }, no_lines())
    };
    let t = ReleaseState {
        title: s.title,
        draft: s.draft,
        remote: s.remote,
        print_only: s.print_only,
        dry_run: s.dry_run,
        generate_notes: s.generate_notes,
        tag: s.tag,
        release_title: title,
        notes,
        prerelease: pre,
        action,
        lines,
        error: None,
    };
    proof {
        let parts = annotation_parts(annotation@);
        let ttl = match s0.title {
            Some(x) => x@,
            None => if parts.0.len() == 0 { s0.tag@ } else { parts.0 },
        };
        if s0.print_only {
            assert(texts_of(t.lines@) =~= print_only_text(s0.tag@, ttl, parts.1));
        } else if s0.dry_run {
            assert(texts_of(t.lines@) =~= release_dry_run_text(s0, ttl, parts.1, pre));
        }
    }
    t
}

/// `s` with a new action and lines, and no error.
fn moved(s: ReleaseState, action: ReleaseAction, lines: Vec<String>) -> (t: ReleaseState)
    ensures
        release_same(s, t),
        t.tag@ == s.tag@,
        t.release_title@ == s.release_title@,
        t.notes@ == s.notes@,
        t.prerelease == s.prerelease,
        t.action == action,
        t.lines == lines,
        t.error is None,
{
    ReleaseState { action, lines, error: None, ..s }
}

/// `s` ended with `error`.
fn failed(s: ReleaseState, error: EngitError) -> (t: ReleaseState)
    ensures
        release_fails(s, t, error),
        t.tag@ == s.tag@,
{
    ReleaseState { action: ReleaseAction::Finished, lines: no_lines(), error: Some(error), ..s }
}

/// The next state of a release, once the caller has done `s.action` and
/// seen `e` (see [`release_transition`]).
pub fn release_next(s: ReleaseState, e: ReleaseEvent) -> (t: ReleaseState)
    requires
        s.wf(),
        s.action is FindLatestTag ==> (e matches ReleaseEvent::Latest(Some(x)) ==> !parse_is_undefined(x@)),
    ensures
        release_transition(s, e, t),
        t.wf(),
{
    let ghost s0 = s;
    match &s.action {
        ReleaseAction::FindLatestTag => match e {
            ReleaseEvent::Latest(Some(tag)) => {
                let action = ReleaseAction::ReadAnnotation { tag: copy_text(&tag) };
                ReleaseState { tag, action, lines: no_lines(), error: None, ..s }
            },
            _ => failed(s, no_local_tags_error()),
        },
        ReleaseAction::ReadAnnotation { .. } => match e {
            ReleaseEvent::Annotation(Some(a)) => if a.unicode_len() > 0 {
                decide(s, a.as_str())
            } else {
                moved(s, ReleaseAction::ListTags, no_lines())
            },
            _ => moved(s, ReleaseAction::ListTags, no_lines()),
        },
        ReleaseAction::ListTags => {
            let tags = match e {
                ReleaseEvent::Tags(v) => v,
                _ => Vec::new(),
            };
            proof {
                if !(e is Tags) {
                    assert(texts_of(tags@) =~= Seq::<Seq<char>>::empty());
                }
            }
            match find_previous_tag(&tags, s.tag.as_str()) {
                Some(p) => moved(s, ReleaseAction::ReadCommits { since: p }, no_lines()),
                None => {
                    let none: Vec<String> = Vec::new();
                    let body = build_draft_notes(s.tag.as_str(), &none, true);
                    let annotation = fallback_annotation(s.tag.as_str(), body.as_str());
                    proof {
                        assert(none@.map_values(|c: String| c@) =~= Seq::<Seq<char>>::empty());
                    }
                    decide(s, annotation.as_str())
                },
            }
        },
        ReleaseAction::ReadCommits { .. } => {
            let commits = match e {
                ReleaseEvent::Commits(v) => v,
                _ => Vec::new(),
            };
            proof {
                if !(e is Commits) {
                    assert(texts_of(commits@) =~= Seq::<Seq<char>>::empty());
                }
                assert(texts_of(commits@) == commits@.map_values(|c: String| c@));
            }
            let body = build_draft_notes(s.tag.as_str(), &commits, false);
            let annotation = fallback_annotation(s.tag.as_str(), body.as_str());
            decide(s, annotation.as_str())
        },
        ReleaseAction::CheckRelease { .. } => match e {
            ReleaseEvent::Failed(err) => failed(s, err),
            ReleaseEvent::Exists(true) => {
                let tag = copy_text(&s.tag);
                moved(s, ReleaseAction::LookupUrl { tag }, no_lines())
            },
            _ => moved(s, ReleaseAction::FindBranch, no_lines()),
        },
        ReleaseAction::LookupUrl { .. } => match e {
            ReleaseEvent::Failed(err) => failed(s, err),
            _ => {
                let mut l = chars_of("A release for ");
                extend_str(&mut l, s.tag.as_str());
                extend_str(&mut l, " already exists: ");
                match &e {
                    ReleaseEvent::Url(Some(u)) => extend_str(&mut l, u.as_str()),
                    _ => extend_str(&mut l, "None"),
                }
                let lines = line_list(l);
                moved(s, ReleaseAction::Finished, lines)
            },
        },
        ReleaseAction::FindBranch => match e {
            ReleaseEvent::Branch(Some(b)) => {
                let tag = copy_text(&s.tag);
                let remote = copy_text(&s.remote);
                moved(s, ReleaseAction::PushBranchAndTag { branch: b, tag, remote }, no_lines())
            },
            _ => {
                let tag = copy_text(&s.tag);
                let remote = copy_text(&s.remote);
                moved(s, ReleaseAction::PushTag { tag, remote }, no_lines())
            },
        },
        ReleaseAction::PushBranchAndTag { branch, .. } => match e {
            ReleaseEvent::Failed(err) => failed(s, err),
            _ => {
                let mut l = chars_of("Pushed ");
                extend_str(&mut l, branch.as_str());
                extend_str(&mut l, " and ");
                extend_str(&mut l, s.tag.as_str());
                extend_str(&mut l, " to ");
                extend_str(&mut l, s.remote.as_str());
                let lines = line_list(l);
                let args = release_args(&s);
                moved(s, ReleaseAction::Create { args }, lines)
            },
        },
        ReleaseAction::PushTag { .. } => match e {
            ReleaseEvent::Failed(err) => failed(s, err),
            _ => {
                let mut l = chars_of("Pushed ");
                extend_str(&mut l, s.tag.as_str());
                extend_str(&mut l, " to ");
                extend_str(&mut l, s.remote.as_str());
                extend_str(&mut l, " (detached HEAD \u{2014} branch not pushed)");
                let lines = line_list(l);
                let args = release_args(&s);
                moved(s, ReleaseAction::Create { args }, lines)
            },
        },
        ReleaseAction::Create { .. } => match e {
            ReleaseEvent::Failed(err) => failed(s, err),
            _ => {
                let mut l = chars_of("Release created: ");
                match &e {
                    ReleaseEvent::Created(u) => extend_str(&mut l, u.as_str()),
                    _ => {},
                }
                let lines = line_list(l);
                moved(s, ReleaseAction::Finished, lines)
            },
        },
        ReleaseAction::Finished => {
            let error = s.error;
            ReleaseState { action: ReleaseAction::Finished, lines: no_lines(), error, ..s }
        },
    }
}

fn release_args(s: &ReleaseState) -> (r: Vec<String>)
    ensures
        texts_of(r@) == create_release_text(
            s.tag@,
            s.release_title@,
            s.notes@,
            s.draft,
            s.prerelease,
            true,
            s.generate_notes,
        ),
{
    create_release(
        s.tag.as_str(),
        s.release_title.as_str(),
        s.notes.as_str(),
        s.draft,
        s.prerelease,
        true,
        s.generate_notes,
    )
}

/// A release only printed or described never asks GitHub, pushes or
/// creates anything.
pub open spec fn release_only_reports(s: ReleaseState) -> bool {
    (s.print_only || s.dry_run) ==> !(s.action is CheckRelease || s.action is LookupUrl
        || s.action is FindBranch || s.action is PushBranchAndTag || s.action is PushTag
        || s.action is Create)
}

/// Every step of a `--print-only` or dry-run release keeps it to
/// reporting; a release that already exists is reported, never pushed or
/// created again.
pub proof fn law_release_reports_only_and_never_recreates(
    s: ReleaseState,
    e: ReleaseEvent,
    t: ReleaseState,
)
    requires
        release_only_reports(s),
        release_transition(s, e, t),
    ensures
        release_only_reports(t),
        s.action is LookupUrl ==> t.action is Finished,
{
}

/// The previous tag of a tag is the one listed directly after its first
/// occurrence in the tags sorted newest first; a tag listed last, or not
/// listed, has none.
pub proof fn law_previous_tag_is_the_next_listed(tags: Seq<Seq<char>>, tag: Seq<char>, i: int)
    requires
        0 <= i < tags.len(),
        tags[i] == tag,
        forall|j: int| 0 <= j < i ==> tags[j] != tag,
    ensures
        i + 1 < tags.len() ==> previous_tag(tags, tag) == Some(tags[i + 1]),
        i + 1 == tags.len() ==> previous_tag(tags, tag) is None,
{
    let k = choose|k: int|
        0 <= k < tags.len() && tags[k] == tag && forall|j: int| 0 <= j < k ==> tags[j] != tag;
    assert(k == i) by {
        if k < i {
            assert(tags[k] != tag);
        } else if k > i {
            assert(tags[i] != tag);
        }
    }
}

/// A tag that is not listed has no previous tag.
pub proof fn law_unlisted_tag_has_no_previous(tags: Seq<Seq<char>>, tag: Seq<char>)
    requires
        !tags.contains(tag),
    ensures
        previous_tag(tags, tag) is None,
{
}

} // verus!
