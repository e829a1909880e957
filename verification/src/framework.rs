//! Stack publishing: where a stack is published, the checks on its source,
//! and the steps that publish it and move its `latest` link, as a state
//! machine whose effects a caller performs.

use vstd::prelude::*;

use crate::error::EngitError;
use crate::path::{component_rank, path_components, path_components_of, path_join, path_join_str, component_rank_of};
use crate::publish::{bndl_roots, bndl_roots_of, rfind_char, rfind_char_index, texts_of};
use crate::text::{chars_of, debug_quoted, debug_text, decimal, extend_str, push_decimal, slice_chars, string_of};

verus! {

/// Preferred canonical stack publish root environment variable.
pub const STACK_PUBLISH_ROOT_VAR: &'static str = "ENVOY_STACK_PUBLISH_ROOT";

/// The runtime stack search path variable, whose first entry served as the
/// publish root before [`STACK_PUBLISH_ROOT_VAR`].
pub const STACK_ROOTS_VAR: &'static str = "ENVOY_STACK_ROOTS";

/// The link to the newest published version of a stack.
pub const LATEST_LINK: &'static str = "latest.estack";

/// The retired pointer file to the newest version.
pub const LEGACY_LATEST_POINTER: &'static str = "latest";

/// The `strftime` format of a version directory's timestamp.
pub const TIMESTAMP_FORMAT: &'static str = "%Y-%m-%dT%H-%M-%S";

/// The stack publish root and whether it came from the deprecated source.
#[derive(Debug)]
pub struct StackRoot {
    /// The root directory.
    pub path: String,
    /// Whether it is the first entry of [`STACK_ROOTS_VAR`] (a warning is due).
    pub deprecated: bool,
}

/// The message when no stack publish root is known.
pub open spec fn no_stack_root_text() -> Seq<char> {
    "No --output specified and neither "@ + STACK_PUBLISH_ROOT_VAR@ + " nor "@ + STACK_ROOTS_VAR@
        + " is set."@
}

/// Resolve the stack publish root from the value of
/// [`STACK_PUBLISH_ROOT_VAR`] when it is set and not empty, else from the
/// first non-empty entry of [`STACK_ROOTS_VAR`] split at `separator`.
pub fn default_stack_root_from_env(
    preferred: Option<&str>,
    stack_roots: Option<&str>,
    separator: char,
) -> (r: Result<StackRoot, EngitError>)
    ensures
        (preferred matches Some(p) && p@.len() > 0) ==> (r matches Ok(root) && root.path@
            == preferred->Some_0@ && !root.deprecated),
        !(preferred matches Some(p) && p@.len() > 0) ==> match stack_roots {
            Some(v) => if bndl_roots(v@, separator).len() > 0 {
                r matches Ok(root) && root.path@ == bndl_roots(v@, separator)[0] && root.deprecated
            } else {
                r matches Err(EngitError::Framework(m)) && m@ == no_stack_root_text()
            },
            None => r matches Err(EngitError::Framework(m)) && m@ == no_stack_root_text(),
        },
{
    if let Some(p) = preferred {
        if p.unicode_len() > 0 {
            return Ok(StackRoot { path: p.to_owned(), deprecated: false });
        }
    }
    if let Some(v) = stack_roots {
        let roots = bndl_roots_of(v, separator);
        if roots.len() > 0 {
            assert(texts_of(roots@)[0] == roots@[0]@);
            return Ok(StackRoot { path: roots[0].clone(), deprecated: true });
        }
    }
    let mut m = chars_of("No --output specified and neither ");
    extend_str(&mut m, STACK_PUBLISH_ROOT_VAR);
    extend_str(&mut m, " nor ");
    extend_str(&mut m, STACK_ROOTS_VAR);
    extend_str(&mut m, " is set.");
    Err(EngitError::Framework(string_of(&m)))
}

/// The deprecation warning for using the first stack root.
pub fn stack_root_warning() -> (r: String)
    ensures
        r@ == "warning: using the first "@ + STACK_ROOTS_VAR@
            + " entry for publishing is deprecated; use "@ + STACK_PUBLISH_ROOT_VAR@ + " instead."@,
{
    let mut m = chars_of("warning: using the first ");
    extend_str(&mut m, STACK_ROOTS_VAR);
    extend_str(&mut m, " entry for publishing is deprecated; use ");
    extend_str(&mut m, STACK_PUBLISH_ROOT_VAR);
    extend_str(&mut m, " instead.");
    string_of(&m)
}

// ---------------------------------------------------------------------------
// File names
// ---------------------------------------------------------------------------

/// The final component of a path when it is a name (`Path::file_name`).
pub open spec fn file_name(s: Seq<char>) -> Option<Seq<char>> {
    let c = path_components(s);
    if c.len() > 0 && component_rank(c.last()) == 4 {
        Some(c.last())
    } else {
        None
    }
}

/// The file name without its extension (`Path::file_stem`): the text
/// before the last `.`, unless that `.` is the first character.
pub open spec fn file_stem(s: Seq<char>) -> Option<Seq<char>> {
    match file_name(s) {
        Some(n) => match rfind_char(n, '.') {
            Some(k) => if k == 0 {
                Some(n)
            } else {
                Some(n.take(k))
            },
            None => Some(n),
        },
        None => None,
    }
}

/// The name of the directory that holds a path (`Path::parent`, then
/// `Path::file_name`).
pub open spec fn parent_name(s: Seq<char>) -> Option<Seq<char>> {
    let c = path_components(s);
    if c.len() > 0 && component_rank(c.last()) >= 2 {
        let p = c.drop_last();
        if p.len() > 0 && component_rank(p.last()) == 4 {
            Some(p.last())
        } else {
            None
        }
    } else {
        None
    }
}

fn file_name_of(comps: &Vec<Vec<char>>) -> (r: Option<Vec<char>>)
    ensures
        match r {
            Some(n) => comps@.len() > 0 && component_rank(comps@.last()@) == 4 && n@ == comps@.last()@,
            None => !(comps@.len() > 0 && component_rank(comps@.last()@) == 4),
        },
{
    if comps.len() > 0 && component_rank_of(&comps[comps.len() - 1]) == 4 {
        Some(comps[comps.len() - 1].clone())
    } else {
        None
    }
}

/// The stem of a stack file's name (see [`file_stem`]).
pub fn stack_file_stem(source_path: &str) -> (r: Option<String>)
    ensures
        match file_stem(source_path@) {
            Some(n) => r matches Some(x) && x@ == n,
            None => r is None,
        },
{
    let cs = chars_of(source_path);
    let comps = path_components_of(&cs);
    let ghost cv = comps@.map_values(|p: Vec<char>| p@);
    proof {
        if comps@.len() > 0 {
            assert(cv.last() == comps@.last()@);
        }
    }
    match file_name_of(&comps) {
        Some(n) => match rfind_char_index(&n, '.') {
            Some(k) => if k == 0 {
                Some(string_of(&n))
            } else {
                let t = slice_chars(&n, 0, k);
                assert(t@ =~= n@.take(k as int));
                Some(string_of(&t))
            },
            None => Some(string_of(&n)),
        },
        None => None,
    }
}

pub fn parent_name_of(source_path: &str) -> (r: Option<String>)
    ensures
        match parent_name(source_path@) {
            Some(n) => r matches Some(x) && x@ == n,
            None => r is None,
        },
{
    let cs = chars_of(source_path);
    let comps = path_components_of(&cs);
    let ghost cv = comps@.map_values(|p: Vec<char>| p@);
    let n = comps.len();
    if n > 0 && component_rank_of(&comps[n - 1]) >= 2 {
        assert(cv.last() == comps@[n - 1]@);
        if n > 1 && component_rank_of(&comps[n - 2]) == 4 {
            assert(cv.drop_last().last() == comps@[n - 2]@);
            return Some(string_of(&comps[n - 2]));
        }
        assert(n > 1 ==> cv.drop_last().last() == comps@[n - 2]@);
        return None;
    }
    if n > 0 {
        assert(cv.last() == comps@[n - 1]@);
    }
    None
}

// ---------------------------------------------------------------------------
// The plan of a stack publish
// ---------------------------------------------------------------------------

/// The paths a stack publish touches.
#[derive(Debug)]
pub struct StackPlan {
    /// The stack's name.
    pub name: String,
    /// `<root>/<name>`.
    pub name_dir: String,
    /// `<root>/<name>/<timestamp>`.
    pub version_dir: String,
    /// `<root>/<name>/<timestamp>/<name>.estack`.
    pub destination: String,
    /// `<root>/<name>/latest.estack`.
    pub latest_link: String,
    /// What the latest link points to: `<timestamp>/<name>.estack`.
    pub relative_target: String,
    /// The temporary link made before it replaces the latest link.
    pub temporary_link: String,
    /// Where the previous latest link waits while it is replaced.
    pub backup_link: String,
    /// The retired pointer file, removed after a publish.
    pub legacy_pointer: String,
}

/// The message for a stack whose file name is not a stack name.
pub open spec fn bad_stack_name_text(source_path: Seq<char>) -> Seq<char> {
    "Stack filename must contain a valid stack name: "@ + source_path
}

/// The message for a stack whose directory is not named after it.
pub open spec fn bad_stack_parent_text(name: Seq<char>, source_path: Seq<char>) -> Seq<char> {
    "Stack source parent directory must match filename stem "@ + debug_text(name) + ": "@
        + source_path
}

/// `.<latest link>.<pid>.<suffix>`, the name of a link that waits beside
/// the latest link.
pub open spec fn side_link_name(pid: u32, suffix: Seq<char>) -> Seq<char> {
    "."@ + LATEST_LINK@ + "."@ + decimal(pid as nat) + suffix
}

/// The plan of a publish of the stack at `source_path` named `name`.
pub open spec fn stack_plan_matches(
    plan: StackPlan,
    stack_root: Seq<char>,
    name: Seq<char>,
    timestamp: Seq<char>,
    pid: u32,
) -> bool {
    let name_dir = path_join(stack_root, name);
    let version_dir = path_join(name_dir, timestamp);
    &&& plan.name@ == name
    &&& plan.name_dir@ == name_dir
    &&& plan.version_dir@ == version_dir
    &&& plan.destination@ == path_join(version_dir, name + ".estack"@)
    &&& plan.latest_link@ == path_join(name_dir, LATEST_LINK@)
    &&& plan.relative_target@ == path_join(timestamp, name + ".estack"@)
    &&& plan.temporary_link@ == path_join(name_dir, side_link_name(pid, ".tmp"@))
    &&& plan.backup_link@ == path_join(name_dir, side_link_name(pid, ".backup"@))
    &&& plan.legacy_pointer@ == path_join(name_dir, LEGACY_LATEST_POINTER@)
}

/// The error for a source stack file that does not exist.
pub fn missing_stack_error(source: &str) -> (r: EngitError)
    ensures
        r matches EngitError::Validation(m) && m@ == "Source stack file does not exist: "@ + source@,
{
    let mut m = chars_of("Source stack file does not exist: ");
    extend_str(&mut m, source);
    EngitError::Validation(string_of(&m))
}

fn side_link(name_dir: &str, pid: u32, suffix: &str) -> (r: String)
    ensures
        r@ == path_join(name_dir@, side_link_name(pid, suffix@)),
{
    let mut n = chars_of(".");
    extend_str(&mut n, LATEST_LINK);
    extend_str(&mut n, ".");
    push_decimal(&mut n, pid as u64);
    extend_str(&mut n, suffix);
    let s = string_of(&n);
    path_join_str(name_dir, s.as_str())
}

/// Check a stack source and plan its publish under `stack_root`: the stem
/// of its file name must be a stack name (`stem_is_stack_name` says
/// whether the stem, [`stack_file_stem`], is one) and its directory must
/// be named after it.
pub fn plan_stack_publish(
    stack_root: &str,
    source_path: &str,
    stem_is_stack_name: bool,
    timestamp: &str,
    pid: u32,
) -> (r: Result<StackPlan, EngitError>)
    ensures
        !(file_stem(source_path@) is Some && stem_is_stack_name) ==> (r matches Err(
            EngitError::Validation(m),
        ) && m@ == bad_stack_name_text(source_path@)),
        file_stem(source_path@) is Some && stem_is_stack_name && parent_name(source_path@) != file_stem(
            source_path@,
        ) ==> (r matches Err(EngitError::Validation(m)) && m@ == bad_stack_parent_text(
            file_stem(source_path@)->Some_0,
            source_path@,
        )),
        file_stem(source_path@) is Some && stem_is_stack_name && parent_name(source_path@) == file_stem(
            source_path@,
        ) ==> (r matches Ok(plan) && stack_plan_matches(
            plan,
            stack_root@,
            file_stem(source_path@)->Some_0,
            timestamp@,
            pid,
        )),
{
    let stem = stack_file_stem(source_path);
    let name = match stem {
        Some(n) if stem_is_stack_name => n,
        _ => {
            let mut m = chars_of("Stack filename must contain a valid stack name: ");
            extend_str(&mut m, source_path);
            return Err(EngitError::Validation(string_of(&m)));
        },
    };
    let parent = parent_name_of(source_path);
    let same = match &parent {
        Some(p) => {
            let a = chars_of(p.as_str());
            let b = chars_of(name.as_str());
            crate::text::chars_eq(&a, &b)
        },
        None => false,
    };
    if !same {
        let mut m = chars_of("Stack source parent directory must match filename stem ");
        let q = debug_quoted(name.as_str());
        extend_str(&mut m, q.as_str());
        extend_str(&mut m, ": ");
        extend_str(&mut m, source_path);
        return Err(EngitError::Validation(string_of(&m)));
    }
    let name_dir = path_join_str(stack_root, name.as_str());
    let version_dir = path_join_str(name_dir.as_str(), timestamp);
    let mut f = chars_of(name.as_str());
    extend_str(&mut f, ".estack");
    let file = string_of(&f);
    let destination = path_join_str(version_dir.as_str(), file.as_str());
    let latest_link = path_join_str(name_dir.as_str(), LATEST_LINK);
    let relative_target = path_join_str(timestamp, file.as_str());
    let temporary_link = side_link(name_dir.as_str(), pid, ".tmp");
    let backup_link = side_link(name_dir.as_str(), pid, ".backup");
    let legacy_pointer = path_join_str(name_dir.as_str(), LEGACY_LATEST_POINTER);
    Ok(StackPlan {
        name,
        name_dir,
        version_dir,
        destination,
        latest_link,
        relative_target,
        temporary_link,
        backup_link,
        legacy_pointer,
    })
}

/// The lines a dry run prints.
pub fn stack_dry_run_lines(source_path: &str, plan: &StackPlan) -> (r: Vec<String>)
    ensures
        texts_of(r@) == seq![
            "Would publish: "@ + source_path@,
            "          to: "@ + plan.destination@,
            "      latest: "@ + plan.latest_link@ + " -> "@ + plan.relative_target@,
        ],
{
    let mut a = chars_of("Would publish: ");
    extend_str(&mut a, source_path);
    let mut b = chars_of("          to: ");
    extend_str(&mut b, plan.destination.as_str());
    let mut c = chars_of("      latest: ");
    extend_str(&mut c, plan.latest_link.as_str());
    extend_str(&mut c, " -> ");
    extend_str(&mut c, plan.relative_target.as_str());
    let mut out: Vec<String> = Vec::new();
    out.push(string_of(&a));
    out.push(string_of(&b));
    out.push(string_of(&c));
    assert(texts_of(out@) =~= seq![
        "Would publish: "@ + source_path@,
        "          to: "@ + plan.destination@,
        "      latest: "@ + plan.latest_link@ + " -> "@ + plan.relative_target@,
    ]);
    out
}

// ---------------------------------------------------------------------------
// The steps of a stack publish
// ---------------------------------------------------------------------------

/// A step of a stack publish, which the caller performs.
#[derive(Debug)]
pub enum StackStep {
    /// Create the stack's name directory and its parents.
    CreateNameDir,
    /// Create the version directory; it must not exist yet.
    CreateVersionDir,
    /// Copy the source stack file to the destination.
    CopySource,
    /// Check whether the temporary link exists.
    ProbeTemporaryLink,
    /// Create the temporary link to the relative target.
    LinkTemporary,
    /// Check whether a latest link exists.
    ProbeLatest,
    /// Check whether the backup link exists.
    ProbeBackup,
    /// Rename the latest link to the backup link.
    MoveLatestToBackup,
    /// Rename the temporary link to the latest link.
    MoveTemporaryToLatest,
    /// Rename the backup link back to the latest link (its outcome is not
    /// checked).
    RestoreBackup,
    /// Remove the backup link (its outcome is not checked).
    RemoveBackup,
    /// Check whether the retired pointer file exists.
    ProbeLegacyPointer,
    /// Remove the retired pointer file (its outcome is not checked).
    RemoveLegacyPointer,
    /// Remove the version directory, and the temporary link when
    /// `remove_temporary` is set (outcomes are not checked).
    Cleanup { remove_temporary: bool },
    /// Nothing is left to do.
    Finished,
}

/// What happened when a step was performed.
#[derive(Debug)]
pub enum StepOutcome {
    /// The step succeeded.
    Done,
    /// A checked path exists.
    Exists,
    /// A checked path does not exist.
    Missing,
    /// A directory to create already exists.
    AlreadyExists,
    /// The step failed with this error message.
    Failed(String),
}

/// The state of a stack publish.
pub struct StackPublish {
    /// The step to perform next.
    pub step: StackStep,
    /// Whether a previous latest link was found.
    pub had_previous: bool,
    /// The error the publish ends with, once one occurred.
    pub pending: Option<EngitError>,
}

/// `e` is the I/O error at `path` with the message of a failed outcome.
pub open spec fn io_failure(e: Option<EngitError>, path: Seq<char>, o: StepOutcome) -> bool {
    &&& e matches Some(EngitError::Io { path: p, message: m })
    &&& p@ == path
    &&& o matches StepOutcome::Failed(x)
    &&& m@ == o->Failed_0@
}

/// `e` is the publish error with the text `text`.
pub open spec fn publish_failure(e: Option<EngitError>, text: Seq<char>) -> bool {
    e matches Some(EngitError::Publish(m)) && m@ == text
}

/// `t` is at `step`, with what `s` knew kept.
pub open spec fn moves_to(s: StackPublish, t: StackPublish, step: StackStep) -> bool {
    t.step == step && t.had_previous == s.had_previous && t.pending == s.pending
}

/// `t` is at `step` after an error `check` accepts, with `s`'s
/// knowledge of a previous latest link kept.
pub open spec fn fails_to(s: StackPublish, t: StackPublish, step: StackStep) -> bool {
    t.step == step && t.had_previous == s.had_previous && t.pending is Some
}

/// One step of a stack publish: the state `t` that follows `s` when its
/// step had outcome `o`.
pub open spec fn stack_transition(plan: StackPlan, s: StackPublish, o: StepOutcome, t: StackPublish) -> bool {
    let failed = o is Failed;
    let exists = o is Exists;
    match s.step {
        StackStep::CreateNameDir => if failed {
            fails_to(s, t, StackStep::Finished) && io_failure(t.pending, plan.name_dir@, o)
        } else {
            moves_to(s, t, StackStep::CreateVersionDir)
        },
        StackStep::CreateVersionDir => if failed {
            fails_to(s, t, StackStep::Finished) && io_failure(t.pending, plan.version_dir@, o)
        } else if o is AlreadyExists {
            fails_to(s, t, StackStep::Finished) && publish_failure(
                t.pending,
                "Stack version already exists and is immutable: "@ + plan.version_dir@,
            )
        } else {
            moves_to(s, t, StackStep::CopySource)
        },
        StackStep::CopySource => if failed {
            fails_to(s, t, StackStep::Cleanup { remove_temporary: false }) && io_failure(
                t.pending,
                plan.destination@,
                o,
            )
        } else {
            moves_to(s, t, StackStep::ProbeTemporaryLink)
        },
        StackStep::ProbeTemporaryLink => if exists {
            fails_to(s, t, StackStep::Cleanup { remove_temporary: true }) && publish_failure(
                t.pending,
                "Temporary latest link already exists: "@ + plan.temporary_link@,
            )
        } else {
            moves_to(s, t, StackStep::LinkTemporary)
        },
        StackStep::LinkTemporary => if failed {
            fails_to(s, t, StackStep::Cleanup { remove_temporary: true }) && io_failure(
                t.pending,
                plan.temporary_link@,
                o,
            )
        } else {
            moves_to(s, t, StackStep::ProbeLatest)
        },
        StackStep::ProbeLatest => if exists {
            t.step == StackStep::ProbeBackup && t.had_previous && t.pending == s.pending
        } else {
            t.step == StackStep::MoveTemporaryToLatest && !t.had_previous && t.pending == s.pending
        },
        StackStep::ProbeBackup => if exists {
            fails_to(s, t, StackStep::Cleanup { remove_temporary: true }) && publish_failure(
                t.pending,
                "Temporary latest backup already exists: "@ + plan.backup_link@,
            )
        } else {
            moves_to(s, t, StackStep::MoveLatestToBackup)
        },
        StackStep::MoveLatestToBackup => if failed {
            fails_to(s, t, StackStep::Cleanup { remove_temporary: true }) && io_failure(
                t.pending,
                plan.latest_link@,
                o,
            )
        } else {
            moves_to(s, t, StackStep::MoveTemporaryToLatest)
        },
        StackStep::MoveTemporaryToLatest => if failed {
            fails_to(
                s,
                t,
                if s.had_previous {
                    StackStep::RestoreBackup
                } else {
                    StackStep::Cleanup { remove_temporary: true }
                },
            ) && io_failure(t.pending, plan.latest_link@, o)
        } else if s.had_previous {
            moves_to(s, t, StackStep::RemoveBackup)
        } else {
            moves_to(s, t, StackStep::ProbeLegacyPointer)
        },
        StackStep::RestoreBackup => moves_to(s, t, StackStep::Cleanup { remove_temporary: true }),
        StackStep::RemoveBackup => moves_to(s, t, StackStep::ProbeLegacyPointer),
        StackStep::ProbeLegacyPointer => if exists {
            moves_to(s, t, StackStep::RemoveLegacyPointer)
        } else {
            moves_to(s, t, StackStep::Finished)
        },
        StackStep::RemoveLegacyPointer => moves_to(s, t, StackStep::Finished),
        StackStep::Cleanup { .. } => moves_to(s, t, StackStep::Finished),
        StackStep::Finished => moves_to(s, t, StackStep::Finished),
    }
}

fn io_error(path: &String, outcome: StepOutcome) -> (r: Option<EngitError>)
    requires
        outcome is Failed,
    ensures
        io_failure(r, path@, outcome),
{
    match outcome {
        StepOutcome::Failed(m) => Some(EngitError::Io { path: path.clone(), message: m }),
        _ => None,
    }
}

fn publish_error(prefix: &str, path: &String) -> (r: Option<EngitError>)
    ensures
        publish_failure(r, prefix@ + path@),
{
    let mut m = chars_of(prefix);
    extend_str(&mut m, path.as_str());
    Some(EngitError::Publish(string_of(&m)))
}

impl StackPublish {
    /// A publish about to create the name directory.
    pub fn start() -> (r: StackPublish)
        ensures
            r.step == StackStep::CreateNameDir,
            !r.had_previous,
            r.pending is None,
    {
        StackPublish { step: StackStep::CreateNameDir, had_previous: false, pending: None }
    }

    /// The state after the current step had `outcome` (see
    /// [`stack_transition`]).
    pub fn next(self, plan: &StackPlan, outcome: StepOutcome) -> (t: StackPublish)
        ensures
            stack_transition(*plan, self, outcome, t),
    {
        let had = self.had_previous;
        let failed = matches!(outcome, StepOutcome::Failed(_));
        let exists = matches!(outcome, StepOutcome::Exists);
        let already = matches!(outcome, StepOutcome::AlreadyExists);
        match self.step {
            StackStep::CreateNameDir => if failed {
                StackPublish { step: StackStep::Finished, had_previous: had, pending: io_error(&plan.name_dir, outcome) }
            } else {
                StackPublish { step: StackStep::CreateVersionDir, ..self }
            },
            StackStep::CreateVersionDir => if failed {
                StackPublish { step: StackStep::Finished, had_previous: had, pending: io_error(&plan.version_dir, outcome) }
            } else if already {
                StackPublish {
                    step: StackStep::Finished,
                    had_previous: had,
                    pending: publish_error("Stack version already exists and is immutable: ", &plan.version_dir),
                }
            } else {
                StackPublish { step: StackStep::CopySource, ..self }
            },
            StackStep::CopySource => if failed {
                StackPublish {
                    step: StackStep::Cleanup { remove_temporary: false },
                    had_previous: had,
                    pending: io_error(&plan.destination, outcome),
                }
            } else {
                StackPublish { step: StackStep::ProbeTemporaryLink, ..self }
            },
            StackStep::ProbeTemporaryLink => if exists {
                StackPublish {
                    step: StackStep::Cleanup { remove_temporary: true },
                    had_previous: had,
                    pending: publish_error("Temporary latest link already exists: ", &plan.temporary_link),
                }
            } else {
                StackPublish { step: StackStep::LinkTemporary, ..self }
            },
            StackStep::LinkTemporary => if failed {
                StackPublish {
                    step: StackStep::Cleanup { remove_temporary: true },
                    had_previous: had,
                    pending: io_error(&plan.temporary_link, outcome),
                }
            } else {
                StackPublish { step: StackStep::ProbeLatest, ..self }
            },
            StackStep::ProbeLatest => if exists {
                StackPublish { step: StackStep::ProbeBackup, had_previous: true, pending: self.pending }
            } else {
                StackPublish { step: StackStep::MoveTemporaryToLatest, had_previous: false, pending: self.pending }
            },
            StackStep::ProbeBackup => if exists {
                StackPublish {
                    step: StackStep::Cleanup { remove_temporary: true },
                    had_previous: had,
                    pending: publish_error("Temporary latest backup already exists: ", &plan.backup_link),
                }
            } else {
                StackPublish { step: StackStep::MoveLatestToBackup, ..self }
            },
            StackStep::MoveLatestToBackup => if failed {
                StackPublish {
                    step: StackStep::Cleanup { remove_temporary: true },
                    had_previous: had,
                    pending: io_error(&plan.latest_link, outcome),
                }
            } else {
                StackPublish { step: StackStep::MoveTemporaryToLatest, ..self }
            },
            StackStep::MoveTemporaryToLatest => if failed {
                let step = if had {
                    StackStep::RestoreBackup
                } else {
                    StackStep::Cleanup { remove_temporary: true }
                };
                StackPublish { step, had_previous: had, pending: io_error(&plan.latest_link, outcome) }
            } else if had {
                StackPublish { step: StackStep::RemoveBackup, ..self }
            } else {
                StackPublish { step: StackStep::ProbeLegacyPointer, ..self }
            },
            StackStep::RestoreBackup => StackPublish { step: StackStep::Cleanup { remove_temporary: true }, ..self },
            StackStep::RemoveBackup => StackPublish { step: StackStep::ProbeLegacyPointer, ..self },
            StackStep::ProbeLegacyPointer => if exists {
                StackPublish { step: StackStep::RemoveLegacyPointer, ..self }
            } else {
                StackPublish { step: StackStep::Finished, ..self }
            },
            StackStep::RemoveLegacyPointer => StackPublish { step: StackStep::Finished, ..self },
            StackStep::Cleanup { .. } => StackPublish { step: StackStep::Finished, ..self },
            StackStep::Finished => StackPublish { step: StackStep::Finished, ..self },
        }
    }
}

// ---------------------------------------------------------------------------
// Laws of a stack publish
// ---------------------------------------------------------------------------

/// Once the version directory exists, a failure never ends the publish at
/// once: the next step restores the previous latest link or cleans up.
pub proof fn law_failure_after_version_dir_cleans_up(
    plan: StackPlan,
    s: StackPublish,
    o: StepOutcome,
    t: StackPublish,
)
    requires
        s.pending is None,
        s.step == StackStep::CopySource || s.step == StackStep::ProbeTemporaryLink || s.step
            == StackStep::LinkTemporary || s.step == StackStep::ProbeLatest || s.step
            == StackStep::ProbeBackup || s.step == StackStep::MoveLatestToBackup || s.step
            == StackStep::MoveTemporaryToLatest,
        stack_transition(plan, s, o, t),
        t.pending is Some,
    ensures
        t.step == StackStep::RestoreBackup || t.step is Cleanup,
{
}

/// When the new link cannot replace a previous latest link that was moved
/// aside, the previous one is put back before anything else.
pub proof fn law_previous_latest_restored(plan: StackPlan, s: StackPublish, o: StepOutcome, t: StackPublish)
    requires
        s.step == StackStep::MoveTemporaryToLatest,
        s.had_previous,
        o is Failed,
        stack_transition(plan, s, o, t),
    ensures
        t.step == StackStep::RestoreBackup,
        stack_transition(plan, t, StepOutcome::Done, StackPublish {
            step: StackStep::Cleanup { remove_temporary: true },
            had_previous: t.had_previous,
            pending: t.pending,
        }),
{
}

/// A publish holds an error only while it winds up: restoring the
/// previous latest link, cleaning up, or finished.
pub open spec fn winding_up_on_error(s: StackPublish) -> bool {
    s.pending is Some ==> (s.step == StackStep::RestoreBackup || s.step is Cleanup || s.step
        == StackStep::Finished)
}

/// Every step keeps [`winding_up_on_error`], which holds at the start.
pub proof fn law_errors_only_while_winding_up(
    plan: StackPlan,
    s: StackPublish,
    o: StepOutcome,
    t: StackPublish,
)
    requires
        winding_up_on_error(s),
        stack_transition(plan, s, o, t),
    ensures
        winding_up_on_error(t),
        winding_up_on_error(StackPublish { step: StackStep::CreateNameDir, had_previous: false, pending: None }),
{
}

/// An error, once it occurred, is what the publish ends with.
pub proof fn law_error_is_kept(plan: StackPlan, s: StackPublish, o: StepOutcome, t: StackPublish)
    requires
        winding_up_on_error(s),
        s.pending is Some,
        stack_transition(plan, s, o, t),
    ensures
        t.pending == s.pending,
        t.step is Cleanup || t.step == StackStep::Finished,
{
}

/// A publish finishes without an error only after the new latest link is
/// in place: from the check or removal of the retired pointer file.
pub proof fn law_success_only_after_latest_moved(
    plan: StackPlan,
    s: StackPublish,
    o: StepOutcome,
    t: StackPublish,
)
    requires
        s.step != StackStep::Finished,
        stack_transition(plan, s, o, t),
        t.step == StackStep::Finished,
        t.pending is None,
    ensures
        s.step == StackStep::ProbeLegacyPointer || s.step == StackStep::RemoveLegacyPointer || (
        s.step is Cleanup && s.pending is None),
{
}

} // verus!
