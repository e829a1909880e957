//! Which local branches a cleanup deletes.

use vstd::prelude::*;

use crate::text::{
    chars_eq, chars_of, decimal, extend_str, join, join_strings, lemma_filter_empty,
    lemma_filter_step, push_decimal, string_of,
};

verus! {

/// Branch names never deleted by cleanup.
pub const PROTECTED_BRANCHES: [&'static str; 3] = ["main", "master", "develop"];

/// A branch that cleanup never deletes.
pub open spec fn is_protected(branch: Seq<char>) -> bool {
    branch == "main"@ || branch == "master"@ || branch == "develop"@
}

/// Whether `branch` is one of [`PROTECTED_BRANCHES`].
pub fn is_protected_branch(branch: &str) -> (r: bool)
    ensures
        r == is_protected(branch@),
{
    let b = chars_of(branch);
    chars_eq(&b, &chars_of("main")) || chars_eq(&b, &chars_of("master")) || chars_eq(
        &b,
        &chars_of("develop"),
    )
}

/// A merged branch that cleanup deletes: neither the current branch nor a
/// protected one.
pub open spec fn is_deletable(current: Seq<char>) -> spec_fn(Seq<char>) -> bool {
    |b: Seq<char>| b != current && !is_protected(b)
}

/// The merged branches that cleanup deletes, in order.
pub fn merged_branches_to_delete(merged: &Vec<String>, current: &str) -> (r: Vec<String>)
    ensures
        r@.map_values(|b: String| b@) == merged@.map_values(|b: String| b@).filter(
            is_deletable(current@),
        ),
{
    let ghost mv = merged@.map_values(|b: String| b@);
    let cur = chars_of(current);
    let mut out: Vec<String> = Vec::new();
    let mut i: usize = 0;
    proof {
        lemma_filter_empty(mv, is_deletable(current@));
    }
    while i < merged.len()
        invariant
            i <= merged.len(),
            cur@ == current@,
            mv == merged@.map_values(|b: String| b@),
            out@.map_values(|b: String| b@) == mv.take(i as int).filter(is_deletable(current@)),
        decreases merged.len() - i,
    {
        proof {
            lemma_filter_step(mv, is_deletable(current@), i as int);
        }
        let b = chars_of(merged[i].as_str());
        assert(mv[i as int] == b@);
        if !chars_eq(&b, &cur) && !is_protected_branch(merged[i].as_str()) {
            let ghost before = out@.map_values(|x: String| x@);
            out.push(merged[i].clone());
            assert(out@.map_values(|x: String| x@) =~= before.push(mv[i as int]));
        }
        i = i + 1;
    }
    assert(mv.take(merged.len() as int) =~= mv);
    out
}

/// Whether a listed branch is checked for a deleted remote: not empty, not
/// the current branch, not protected, and not already deleted.
pub fn is_stale_candidate(branch: &str, current: &str, deleted: &Vec<String>) -> (r: bool)
    ensures
        r == (branch@.len() > 0 && branch@ != current@ && !is_protected(branch@) && !deleted@.map_values(
            |d: String| d@,
        ).contains(branch@)),
{
    let b = chars_of(branch);
    if b.len() == 0 || chars_eq(&b, &chars_of(current)) || is_protected_branch(branch) {
        return false;
    }
    let ghost dv = deleted@.map_values(|d: String| d@);
    let mut i: usize = 0;
    while i < deleted.len()
        invariant
            i <= deleted.len(),
            b@ == branch@,
            dv == deleted@.map_values(|d: String| d@),
            forall|k: int| 0 <= k < i ==> dv[k] != branch@,
        decreases deleted.len() - i,
    {
        let d = chars_of(deleted[i].as_str());
        assert(dv[i as int] == d@);
        if chars_eq(&d, &b) {
            return false;
        }
        i = i + 1;
    }
    true
}

/// The ref that exists while a branch's remote-tracking branch does:
/// `refs/remotes/<tracking>`.
pub fn tracking_ref(tracking: &str) -> (r: String)
    ensures
        r@ == "refs/remotes/"@ + tracking@,
{
    let mut v = chars_of("refs/remotes/");
    extend_str(&mut v, tracking);
    string_of(&v)
}

// ---------------------------------------------------------------------------
// The steps of a cleanup
// ---------------------------------------------------------------------------

/// The texts of a list of strings.
pub open spec fn names(v: Seq<String>) -> Seq<Seq<char>> {
    v.map_values(|x: String| x@)
}

/// What the caller of a cleanup does next.
pub enum CleanupAction {
    /// Run `git remote prune <remote>`.
    PruneRemote,
    /// Run `git remote prune <remote> --dry-run` (its outcome is not used).
    PreviewPrune,
    /// List the merged branches and report them with `Branches`.
    ListMerged,
    /// Delete a local branch (`git branch -d`, or `-D` when `force`).
    Delete { branch: String, force: bool },
    /// List the local branches and report them with `Branches`.
    ListBranches,
    /// Look up the remote-tracking branch of `branch` and report it with
    /// `Tracking`.
    LookupTracking { branch: String },
    /// Check whether `ref_name` exists (`Done`) or not (`Failed`).
    VerifyRef { branch: String, ref_name: String },
    /// Nothing to run: call the next step at once.
    Continue,
    /// The cleanup is over.
    Finished,
}

/// What came of the caller's action.
pub enum CleanupEvent {
    /// The command succeeded (for `VerifyRef`: the ref exists).
    Done,
    /// The command failed with this message.
    Failed(String),
    /// The branches listed.
    Branches(Vec<String>),
    /// The remote-tracking branch found, if any.
    Tracking(Option<String>),
}

/// The state of a cleanup.
pub struct CleanupState {
    /// The remote to prune.
    pub remote: String,
    /// Whether nothing is changed, only reported.
    pub noop: bool,
    /// The current branch (empty when detached).
    pub current: String,
    /// What the caller does next.
    pub action: CleanupAction,
    /// The lines to print before doing it.
    pub lines: Vec<String>,
    /// The merged branches to delete, in order.
    pub merged: Vec<String>,
    /// The local branches listed for the remote-deleted check.
    pub branches: Vec<String>,
    /// Whether the remote-deleted check is under way (else the merged
    /// branches are).
    pub stale: bool,
    /// The next entry of the list under way to consider.
    pub index: usize,
    /// The branches deleted so far.
    pub deleted: Vec<String>,
    /// The branches that could not be deleted so far.
    pub skipped: Vec<String>,
}

/// The suffix that tells why a branch goes.
pub open spec fn reason(force: bool) -> Seq<char> {
    if force { " [remote deleted]"@ } else { " [merged]"@ }
}

/// The lines that end a cleanup: nothing for a preview; otherwise how many
/// branches were deleted, and which could not be.
pub open spec fn cleanup_summary(noop: bool, deleted: Seq<Seq<char>>, skipped: Seq<Seq<char>>) -> Seq<
    Seq<char>,
> {
    if noop {
        Seq::empty()
    } else {
        (if deleted.len() == 0 {
            seq!["No local branches to clean up."@]
        } else {
            seq![
                "\nDeleted "@ + decimal(deleted.len()) + " branch(es)."@,
                "Use `git branch <name> <revision>` or `git reflog` to restore if needed."@,
            ]
        }) + (if skipped.len() == 0 {
            Seq::empty()
        } else {
            seq![
                "Warning: "@ + decimal(skipped.len()) + " branch(es) could not be deleted: "@ + join(
                    skipped,
                    ", "@,
                ),
            ]
        })
    }
}

/// `t` holds the lists and position given, with `s`'s settings.
pub open spec fn cleanup_at(
    s: CleanupState,
    t: CleanupState,
    stale: bool,
    index: int,
    merged: Seq<Seq<char>>,
    branches: Seq<Seq<char>>,
    deleted: Seq<Seq<char>>,
    skipped: Seq<Seq<char>>,
    lines: Seq<Seq<char>>,
) -> bool {
    &&& t.remote@ == s.remote@
    &&& t.noop == s.noop
    &&& t.current@ == s.current@
    &&& t.stale == stale
    &&& t.index == index
    &&& names(t.merged@) == merged
    &&& names(t.branches@) == branches
    &&& names(t.deleted@) == deleted
    &&& names(t.skipped@) == skipped
    &&& names(t.lines@) == lines
}

/// `t` keeps all of `s` but its action, and prints `lines`.
pub open spec fn cleanup_keeps(s: CleanupState, t: CleanupState, lines: Seq<Seq<char>>) -> bool {
    cleanup_at(
        s,
        t,
        s.stale,
        s.index as int,
        names(s.merged@),
        names(s.branches@),
        names(s.deleted@),
        names(s.skipped@),
        lines,
    )
}

/// `t` moves past the entry under way, printing `lines`.
pub open spec fn cleanup_moves_on(s: CleanupState, t: CleanupState, lines: Seq<Seq<char>>) -> bool {
    &&& t.action is Continue
    &&& cleanup_at(
        s,
        t,
        s.stale,
        s.index + 1,
        names(s.merged@),
        names(s.branches@),
        names(s.deleted@),
        names(s.skipped@),
        lines,
    )
}

/// The branches an event lists (none for any other event).
pub open spec fn listed(e: CleanupEvent) -> Seq<Seq<char>> {
    match e {
        CleanupEvent::Branches(v) => names(v@),
        _ => Seq::empty(),
    }
}

/// Considering the entry under way: a merged branch is deleted (or only
/// reported under `noop`); a listed branch that may have lost its remote
/// is looked up; past the end of the merged branches the local branches
/// are listed, past the end of those the summary is printed.
pub open spec fn cleanup_consider(s: CleanupState, t: CleanupState) -> bool {
    let i = s.index as int;
    if !s.stale {
        if i < s.merged@.len() {
            let b = names(s.merged@)[i];
            if s.noop {
                cleanup_moves_on(s, t, seq!["  Would delete "@ + b + reason(false)])
            } else {
                &&& t.action matches CleanupAction::Delete { branch, force } && branch@ == b && !force
                &&& cleanup_at(s, t, false, i + 1, names(s.merged@), names(s.branches@), names(s.deleted@), names(s.skipped@), seq![])
            }
        } else {
            t.action is ListBranches && cleanup_keeps(s, t, seq![])
        }
    } else {
        if i < s.branches@.len() {
            let b = names(s.branches@)[i];
            if b.len() > 0 && b != s.current@ && !is_protected(b) && !names(s.deleted@).contains(b) {
                &&& t.action matches CleanupAction::LookupTracking { branch } && branch@ == b
                &&& cleanup_at(s, t, true, i + 1, names(s.merged@), names(s.branches@), names(s.deleted@), names(s.skipped@), seq![])
            } else {
                cleanup_moves_on(s, t, seq![])
            }
        } else {
            t.action is Finished && cleanup_keeps(
                s,
                t,
                cleanup_summary(s.noop, names(s.deleted@), names(s.skipped@)),
            )
        }
    }
}

/// One step of a cleanup: the state `t` that follows `s` when its action
/// had outcome `e`.
pub open spec fn cleanup_transition(s: CleanupState, e: CleanupEvent, t: CleanupState) -> bool {
    match s.action {
        CleanupAction::PreviewPrune => t.action is ListMerged && cleanup_keeps(s, t, seq![]),
        CleanupAction::PruneRemote => t.action is ListMerged && cleanup_keeps(
            s,
            t,
            match e {
                CleanupEvent::Failed(m) => seq![
                    "Warning: could not prune remote \""@ + s.remote@ + "\": "@ + m@,
                ],
                _ => seq!["Pruned stale remote-tracking refs for "@ + s.remote@ + "."@],
            },
        ),
        CleanupAction::ListMerged => t.action is Continue && cleanup_at(
            s,
            t,
            false,
            0,
            listed(e).filter(is_deletable(s.current@)),
            names(s.branches@),
            names(s.deleted@),
            names(s.skipped@),
            seq![],
        ),
        CleanupAction::Delete { branch, force } => t.action is Continue && match e {
            CleanupEvent::Failed(m) => cleanup_at(
                s,
                t,
                s.stale,
                s.index as int,
                names(s.merged@),
                names(s.branches@),
                names(s.deleted@),
                names(s.skipped@).push(branch@),
                seq!["  Skipped "@ + branch@ + ": "@ + m@],
            ),
            _ => cleanup_at(
                s,
                t,
                s.stale,
                s.index as int,
                names(s.merged@),
                names(s.branches@),
                names(s.deleted@).push(branch@),
                names(s.skipped@),
                seq!["  Deleted "@ + branch@ + reason(force)],
            ),
        },
        CleanupAction::ListBranches => t.action is Continue && cleanup_at(
            s,
            t,
            true,
            0,
            names(s.merged@),
            listed(e),
            names(s.deleted@),
            names(s.skipped@),
            seq![],
        ),
        CleanupAction::LookupTracking { branch } => match e {
            CleanupEvent::Tracking(Some(tracking)) => (t.action matches CleanupAction::VerifyRef {
                branch: b,
                ref_name,
            } && b@ == branch@ && ref_name@ == "refs/remotes/"@ + tracking@) && cleanup_keeps(
                s,
                t,
                seq![],
            ),
            _ => t.action is Continue && cleanup_keeps(s, t, seq![]),
        },
        CleanupAction::VerifyRef { branch, ref_name: _ } => match e {
            CleanupEvent::Done => t.action is Continue && cleanup_keeps(s, t, seq![]),
            _ => if s.noop {
                t.action is Continue && cleanup_keeps(
                    s,
                    t,
                    seq!["  Would delete "@ + branch@ + reason(true)],
                )
            } else {
                (t.action matches CleanupAction::Delete { branch: b, force } && b@ == branch@
                    && force) && cleanup_keeps(s, t, seq![])
            },
        },
        CleanupAction::Continue => cleanup_consider(s, t),
        CleanupAction::Finished => t.action is Finished && cleanup_keeps(s, t, seq![]),
    }
}

fn one_line(line: Vec<char>) -> (r: Vec<String>)
    ensures
        names(r@) == seq![line@],
{
    let mut v: Vec<String> = Vec::new();
    v.push(string_of(&line));
    assert(names(v@) =~= seq![line@]);
    v
}

fn push_name(v: &mut Vec<String>, b: &String)
    ensures
        names(final(v)@) == names(old(v)@).push(b@),
{
    v.push(b.clone());
    assert(names(v@) =~= names(old(v)@).push(b@));
}

fn summary_lines(noop: bool, deleted: &Vec<String>, skipped: &Vec<String>) -> (r: Vec<String>)
    ensures
        names(r@) == cleanup_summary(noop, names(deleted@), names(skipped@)),
{
    let mut out: Vec<String> = Vec::new();
    if noop {
        assert(names(out@) =~= cleanup_summary(noop, names(deleted@), names(skipped@)));
        return out;
    }
    let ghost first: Seq<Seq<char>>;
    if deleted.len() == 0 {
        out.push(string_of(&chars_of("No local branches to clean up.")));
        proof {
            first = seq!["No local branches to clean up."@];
            assert(names(out@) =~= first);
        }
    } else {
        let mut a = chars_of("\nDeleted ");
        push_decimal(&mut a, deleted.len() as u64);
        extend_str(&mut a, " branch(es).");
        out.push(string_of(&a));
        out.push(string_of(&chars_of("Use `git branch <name> <revision>` or `git reflog` to restore if needed.")));
        proof {
            first = seq![
                "\nDeleted "@ + decimal(deleted.len() as nat) + " branch(es)."@,
                "Use `git branch <name> <revision>` or `git reflog` to restore if needed."@,
            ];
            assert(names(out@) =~= first);
        }
    }
    if skipped.len() > 0 {
        let mut w = chars_of("Warning: ");
        push_decimal(&mut w, skipped.len() as u64);
        extend_str(&mut w, " branch(es) could not be deleted: ");
        let j = join_strings(skipped, ", ");
        extend_str(&mut w, j.as_str());
        out.push(string_of(&w));
        assert(names(out@) =~= first + seq![
            "Warning: "@ + decimal(skipped.len() as nat) + " branch(es) could not be deleted: "@ + join(names(skipped@), ", "@),
        ]);
    } else {
        assert(names(out@) =~= first + Seq::<Seq<char>>::empty());
    }
    out
}

impl CleanupState {
    /// The state a cleanup starts in: the remote is pruned (or the prune
    /// previewed under `noop`) first.
    pub fn start(remote: &str, noop: bool, current: &str) -> (s: CleanupState)
        ensures
            s.remote@ == remote@,
            s.noop == noop,
            s.current@ == current@,
            if noop { s.action is PreviewPrune } else { s.action is PruneRemote },
            names(s.lines@) == Seq::<Seq<char>>::empty(),
            names(s.merged@) == Seq::<Seq<char>>::empty(),
            names(s.branches@) == Seq::<Seq<char>>::empty(),
            !s.stale,
            s.index == 0,
            names(s.deleted@) == Seq::<Seq<char>>::empty(),
            names(s.skipped@) == Seq::<Seq<char>>::empty(),
    {
        let s = CleanupState {
            remote: string_of(&chars_of(remote)),
            noop,
            current: string_of(&chars_of(current)),
            action: if noop { CleanupAction::PreviewPrune } else { CleanupAction::PruneRemote },
            lines: Vec::new(),
            merged: Vec::new(),
            branches: Vec::new(),
            stale: false,
            index: 0,
            deleted: Vec::new(),
            skipped: Vec::new(),
        };
        assert(names(s.lines@) =~= Seq::<Seq<char>>::empty());
        assert(names(s.merged@) =~= Seq::<Seq<char>>::empty());
        assert(names(s.branches@) =~= Seq::<Seq<char>>::empty());
        assert(names(s.deleted@) =~= Seq::<Seq<char>>::empty());
        assert(names(s.skipped@) =~= Seq::<Seq<char>>::empty());
        s
    }
}

/// The next state of a cleanup, once the caller has done `s.action` and
/// seen `e` (see [`cleanup_transition`]).
pub fn cleanup_next(s: CleanupState, e: CleanupEvent) -> (t: CleanupState)
    ensures
        cleanup_transition(s, e, t),
{
    let ghost s0 = s;
    let CleanupState {
        remote,
        noop,
        current,
        action,
        lines: _,
        merged,
        branches,
        stale,
        index,
        mut deleted,
        mut skipped,
    } = s;
    let mut next_index = index;
    let mut next_stale = stale;
    let mut next_merged = merged;
    let mut next_branches = branches;
    let mut lines: Vec<String> = Vec::new();
    assert(names(lines@) =~= Seq::<Seq<char>>::empty());
    let next_action = match action {
        CleanupAction::PreviewPrune => CleanupAction::ListMerged,
        CleanupAction::PruneRemote => {
            let mut l = match &e {
                CleanupEvent::Failed(m) => {
                    let mut l = chars_of("Warning: could not prune remote \"");
                    extend_str(&mut l, remote.as_str());
                    extend_str(&mut l, "\": ");
                    extend_str(&mut l, m.as_str());
                    l
                },
                _ => {
                    let mut l = chars_of("Pruned stale remote-tracking refs for ");
                    extend_str(&mut l, remote.as_str());
                    extend_str(&mut l, ".");
                    l
                },
            };
            lines = one_line(l);
            CleanupAction::ListMerged
        },
        CleanupAction::ListMerged => {
            let found = match e {
                CleanupEvent::Branches(v) => v,
                _ => Vec::new(),
            };
            proof {
                assert(names(found@) == listed(e)) by {
                    if !(e is Branches) {
                        assert(names(found@) =~= Seq::<Seq<char>>::empty());
                    }
                }
            }
            next_merged = merged_branches_to_delete(&found, current.as_str());
            next_stale = false;
            next_index = 0;
            CleanupAction::Continue
        },
        CleanupAction::Delete { branch, force } => {
            match &e {
                CleanupEvent::Failed(m) => {
                    let mut l = chars_of("  Skipped ");
                    extend_str(&mut l, branch.as_str());
                    extend_str(&mut l, ": ");
                    extend_str(&mut l, m.as_str());
                    lines = one_line(l);
                    push_name(&mut skipped, &branch);
                },
                _ => {
                    let mut l = chars_of("  Deleted ");
                    extend_str(&mut l, branch.as_str());
                    extend_str(&mut l, if force { " [remote deleted]" } else { " [merged]" });
                    lines = one_line(l);
                    push_name(&mut deleted, &branch);
                },
            }
            CleanupAction::Continue
        },
        CleanupAction::ListBranches => {
            let found = match e {
                CleanupEvent::Branches(v) => v,
                _ => Vec::new(),
            };
            proof {
                assert(names(found@) == listed(e)) by {
                    if !(e is Branches) {
                        assert(names(found@) =~= Seq::<Seq<char>>::empty());
                    }
                }
            }
            next_branches = found;
            next_stale = true;
            next_index = 0;
            CleanupAction::Continue
        },
        CleanupAction::LookupTracking { branch } => match e {
            CleanupEvent::Tracking(Some(tracking)) => CleanupAction::VerifyRef {
                branch,
                ref_name: tracking_ref(tracking.as_str()),
            },
            _ => CleanupAction::Continue,
        },
        CleanupAction::VerifyRef { branch, ref_name: _ } => match e {
            CleanupEvent::Done => CleanupAction::Continue,
            _ => if noop {
                let mut l = chars_of("  Would delete ");
                extend_str(&mut l, branch.as_str());
                extend_str(&mut l, " [remote deleted]");
                lines = one_line(l);
                CleanupAction::Continue
            } else {
                CleanupAction::Delete { branch, force: true }
            },
        },
        CleanupAction::Continue => {
            if !stale {
                if index < next_merged.len() {
                    let b = next_merged[index].clone();
                    next_index = index + 1;
                    if noop {
                        let mut l = chars_of("  Would delete ");
                        extend_str(&mut l, b.as_str());
                        extend_str(&mut l, " [merged]");
                        lines = one_line(l);
                        CleanupAction::Continue
                    } else {
                        CleanupAction::Delete { branch: b, force: false }
                    }
                } else {
                    CleanupAction::ListBranches
                }
            } else {
                if index < next_branches.len() {
                    let b = next_branches[index].clone();
                    next_index = index + 1;
                    assert(names(next_branches@)[index as int] == b@);
                    if is_stale_candidate(b.as_str(), current.as_str(), &deleted) {
                        CleanupAction::LookupTracking { branch: b }
                    } else {
                        CleanupAction::Continue
                    }
                } else {
                    lines = summary_lines(noop, &deleted, &skipped);
                    CleanupAction::Finished
                }
            }
        },
        CleanupAction::Finished => CleanupAction::Finished,
    };
    let t = CleanupState {
        remote,
        noop,
        current,
        action: next_action,
        lines,
        merged: next_merged,
        branches: next_branches,
        stale: next_stale,
        index: next_index,
        deleted,
        skipped,
    };
    t
}

/// What every state of a cleanup keeps: a preview never prunes or
/// deletes; every branch queued, looked up, checked or deleted is neither
/// the current branch nor a protected one.
pub open spec fn cleanup_safe(s: CleanupState) -> bool {
    &&& forall|i: int| 0 <= i < s.merged@.len() ==> is_deletable(s.current@)(#[trigger] names(s.merged@)[i])
    &&& s.noop ==> !(s.action is PruneRemote) && !(s.action is Delete)
    &&& s.action matches CleanupAction::Delete { branch, force } ==> is_deletable(s.current@)(branch@)
    &&& s.action matches CleanupAction::LookupTracking { branch } ==> is_deletable(s.current@)(branch@)
    &&& s.action matches CleanupAction::VerifyRef { branch, ref_name } ==> is_deletable(s.current@)(branch@)
}

/// A cleanup starts safe, and every step keeps it safe: under `noop`
/// nothing is pruned or deleted, and no step ever deletes the current or a
/// protected branch.
pub proof fn law_cleanup_steps_stay_safe(s: CleanupState, e: CleanupEvent, t: CleanupState)
    requires
        cleanup_safe(s),
        cleanup_transition(s, e, t),
    ensures
        cleanup_safe(t),
{
    match s.action {
        CleanupAction::ListMerged => {
            let p = is_deletable(s.current@);
            assert(names(t.merged@) == listed(e).filter(p));
            assert(names(t.merged@).len() == t.merged@.len());
            assert forall|i: int| 0 <= i < t.merged@.len() implies is_deletable(t.current@)(#[trigger] names(t.merged@)[i]) by {
                listed(e).lemma_filter_pred(p, i);
            }
        },
        _ => {
            assert(names(t.merged@) == names(s.merged@));
            assert(names(t.merged@).len() == t.merged@.len());
            assert(names(s.merged@).len() == s.merged@.len());
            assert forall|i: int| 0 <= i < t.merged@.len() implies is_deletable(t.current@)(#[trigger] names(t.merged@)[i]) by {
                assert(is_deletable(s.current@)(names(s.merged@)[i]));
            }
        },
    }
}

/// A cleanup's first state is safe.
pub proof fn law_cleanup_starts_safe(s: CleanupState)
    requires
        names(s.merged@) == Seq::<Seq<char>>::empty(),
        s.noop ==> s.action is PreviewPrune,
        !s.noop ==> s.action is PruneRemote,
    ensures
        cleanup_safe(s),
{
    assert forall|i: int| 0 <= i < s.merged@.len() implies is_deletable(s.current@)(#[trigger] names(s.merged@)[i]) by {
        assert(names(s.merged@).len() == s.merged@.len());
    }
}

/// Cleanup never deletes a protected branch or the current one, and
/// deletes every other merged branch.
pub proof fn law_cleanup_spares_protected_and_current(merged: Seq<Seq<char>>, current: Seq<char>)
    ensures
        forall|i: int|
            0 <= i < merged.filter(is_deletable(current)).len() ==> {
                let b = #[trigger] merged.filter(is_deletable(current))[i];
                !is_protected(b) && b != current
            },
        forall|i: int|
            0 <= i < merged.len() && !is_protected(merged[i]) && merged[i] != current
                ==> #[trigger] merged.filter(is_deletable(current)).contains(merged[i]),
{
    let p = is_deletable(current);
    assert forall|i: int| 0 <= i < merged.filter(p).len() implies {
        let b = #[trigger] merged.filter(p)[i];
        !is_protected(b) && b != current
    } by {
        merged.lemma_filter_pred(p, i);
    }
    assert forall|i: int| 0 <= i < merged.len() && !is_protected(merged[i]) && merged[i] != current
        implies #[trigger] merged.filter(p).contains(merged[i]) by {
        merged.lemma_filter_contains(p, i);
    }
}

/// A branch is protected exactly when it is one of
/// [`PROTECTED_BRANCHES`]; a cleanup never deletes one: whatever branches
/// are merged and whichever is current, no protected branch is among those
/// it deletes.
pub proof fn law_protected_branches_are_never_deleted(b: Seq<char>, merged: Seq<Seq<char>>, current: Seq<char>)
    ensures
        is_protected(b) <==> exists|i: int| 0 <= i < 3 && b == (#[trigger] PROTECTED_BRANCHES@[i])@,
        forall|i: int| 0 <= i < 3 ==> !merged.filter(is_deletable(current)).contains(
            (#[trigger] PROTECTED_BRANCHES@[i])@,
        ),
{
    assert(PROTECTED_BRANCHES@[0]@ == "main"@);
    assert(PROTECTED_BRANCHES@[1]@ == "master"@);
    assert(PROTECTED_BRANCHES@[2]@ == "develop"@);
    if is_protected(b) {
        if b == "main"@ {
            assert(b == PROTECTED_BRANCHES@[0]@);
        } else if b == "master"@ {
            assert(b == PROTECTED_BRANCHES@[1]@);
        } else {
            assert(b == PROTECTED_BRANCHES@[2]@);
        }
    }
    let p = is_deletable(current);
    assert forall|i: int| 0 <= i < 3 implies !merged.filter(p).contains(
        (#[trigger] PROTECTED_BRANCHES@[i])@,
    ) by {
        let x = PROTECTED_BRANCHES@[i]@;
        assert(is_protected(x));
        if merged.filter(p).contains(x) {
            let k = choose|k: int| 0 <= k < merged.filter(p).len() && merged.filter(p)[k] == x;
            merged.lemma_filter_pred(p, k);
        }
    }
}

} // verus!
