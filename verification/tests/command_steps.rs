use engit::cleanup::{cleanup_next, CleanupAction, CleanupEvent, CleanupState};
use engit::pull::{pull_next, pull_start, PullAction, PullEvent};
use engit::release::{release_next, ReleaseAction, ReleaseEvent, ReleaseState};
use engit::EngitError;

fn strings(items: &[&str]) -> Vec<String> {
    items.iter().map(|s| s.to_string()).collect()
}

/// Runs a cleanup, answering each action with `answer`; returns the lines
/// printed and a trace of the commands run.
fn run_cleanup(noop: bool, answer: impl Fn(&CleanupAction) -> CleanupEvent) -> (Vec<String>, Vec<String>) {
    let mut state = CleanupState::start("origin", noop, "main");
    let mut printed = Vec::new();
    let mut trace = Vec::new();
    loop {
        printed.extend(state.lines.iter().cloned());
        let step = match &state.action {
            CleanupAction::Finished => return (printed, trace),
            CleanupAction::Continue => None,
            CleanupAction::PruneRemote => Some(String::from("prune")),
            CleanupAction::PreviewPrune => Some(String::from("prune --dry-run")),
            CleanupAction::ListMerged => Some(String::from("merged")),
            CleanupAction::ListBranches => Some(String::from("branches")),
            CleanupAction::Delete { branch, force } => Some(format!("delete {branch} {force}")),
            CleanupAction::LookupTracking { branch } => Some(format!("tracking {branch}")),
            CleanupAction::VerifyRef { ref_name, .. } => Some(format!("verify {ref_name}")),
        };
        if let Some(step) = step {
            trace.push(step);
        }
        let event = answer(&state.action);
        state = cleanup_next(state, event);
    }
}

fn cleanup_answers(action: &CleanupAction) -> CleanupEvent {
    match action {
        CleanupAction::ListMerged => CleanupEvent::Branches(strings(&["main", "feature", "develop", "old"])),
        CleanupAction::ListBranches => CleanupEvent::Branches(strings(&["main", "feature", "gone", "keep"])),
        CleanupAction::Delete { branch, .. } if branch == "old" => {
            CleanupEvent::Failed(String::from("not fully merged"))
        }
        CleanupAction::LookupTracking { branch } if branch == "gone" => {
            CleanupEvent::Tracking(Some(String::from("origin/gone")))
        }
        CleanupAction::LookupTracking { .. } => CleanupEvent::Tracking(None),
        CleanupAction::VerifyRef { .. } => CleanupEvent::Failed(String::from("missing")),
        _ => CleanupEvent::Done,
    }
}

#[test]
fn cleanup_deletes_merged_and_remote_deleted_branches() {
    let (printed, trace) = run_cleanup(false, cleanup_answers);
    assert_eq!(
        trace,
        strings(&[
            "prune",
            "merged",
            "delete feature false",
            "delete old false",
            "branches",
            "tracking gone",
            "verify refs/remotes/origin/gone",
            "delete gone true",
            "tracking keep",
        ])
    );
    assert_eq!(
        printed,
        strings(&[
            "Pruned stale remote-tracking refs for origin.",
            "  Deleted feature [merged]",
            "  Skipped old: not fully merged",
            "  Deleted gone [remote deleted]",
            "\nDeleted 2 branch(es).",
            "Use `git branch <name> <revision>` or `git reflog` to restore if needed.",
            "Warning: 1 branch(es) could not be deleted: old",
        ])
    );
}

#[test]
fn cleanup_preview_never_deletes_or_prunes() {
    let (printed, trace) = run_cleanup(true, cleanup_answers);
    assert!(trace.iter().all(|step| !step.starts_with("delete") && step != "prune"));
    assert_eq!(
        printed,
        strings(&[
            "  Would delete feature [merged]",
            "  Would delete old [merged]",
            "  Would delete gone [remote deleted]",
        ])
    );
}

#[test]
fn cleanup_reports_a_failed_prune_and_nothing_to_delete() {
    let (printed, _) = run_cleanup(false, |action| match action {
        CleanupAction::PruneRemote => CleanupEvent::Failed(String::from("no such remote")),
        CleanupAction::ListMerged | CleanupAction::ListBranches => {
            CleanupEvent::Branches(strings(&["main"]))
        }
        _ => CleanupEvent::Done,
    });
    assert_eq!(
        printed,
        strings(&[
            "Warning: could not prune remote \"origin\": no such remote",
            "No local branches to clean up.",
        ])
    );
}

fn run_pull_steps(
    bundles: &[(&str, &str)],
    dry_run: bool,
    answer: impl Fn(&PullAction) -> PullEvent,
) -> (Vec<String>, Option<String>) {
    let pairs: Vec<(String, String)> = bundles.iter().map(|(a, b)| (a.to_string(), b.to_string())).collect();
    let mut state = pull_start(pairs, "origin", false, dry_run);
    let mut shown = Vec::new();
    loop {
        shown.extend(state.lines.iter().cloned());
        if let Some(p) = &state.partial {
            shown.push(format!("partial:{p}"));
        }
        if let Some(w) = &state.warning {
            shown.push(format!("stderr:{w}"));
        }
        if let PullAction::Finished = state.action {
            return (shown, state.error.map(|e| e.describe()));
        }
        let event = answer(&state.action);
        state = pull_next(state, event);
    }
}

#[test]
fn pull_of_several_bundles_goes_on_and_summarises() {
    let (shown, error) = run_pull_steps(&[("gt:a", "/b/a"), ("gt:bb", "/b/bb"), ("gt:c", "/b/c")], false, |action| {
        match action {
            PullAction::CheckRepo { bndlid, .. } => PullEvent::IsRepo(bndlid != "gt:c"),
            PullAction::Pull { bndlid, .. } if bndlid == "gt:bb" => {
                PullEvent::Failed(EngitError::Git(String::from("merge conflict\ndetails")))
            }
            _ => PullEvent::Pulled(String::from("Fast-forward\n 1 file changed")),
        }
    });
    assert_eq!(error, None);
    assert_eq!(
        shown,
        strings(&[
            "Pulling 3 bundle(s)...",
            "partial:  gt:a   ",
            " \u{2713}  Fast-forward",
            "partial:  gt:bb  ",
            " \u{2717}  merge conflict",
            "  gt:c    \u{26a0}  skipped (not a git repo)",
            "\nDone. 2 succeeded, 1 failed.",
            "  FAILED:",
            "    gt:bb: merge conflict",
        ])
    );
}

#[test]
fn pull_of_one_bundle_fails_with_its_error() {
    let (shown, error) = run_pull_steps(&[("gt:a", "/b/a")], false, |action| match action {
        PullAction::CheckRepo { .. } => PullEvent::IsRepo(true),
        _ => PullEvent::Failed(EngitError::Git(String::from("no upstream"))),
    });
    assert_eq!(shown, strings(&["Pulling gt:a  (/b/a)"]));
    assert_eq!(error, Some(String::from("no upstream")));
}

#[test]
fn pull_dry_run_and_skipped_single_bundle() {
    let (shown, _) = run_pull_steps(&[("gt:a", "/b/a")], true, |_| PullEvent::IsRepo(true));
    assert_eq!(shown, strings(&["Would pull gt:a  (/b/a)", "  Command: git pull origin"]));
    let (shown, error) = run_pull_steps(&[("gt:a", "/b/a")], false, |_| PullEvent::IsRepo(false));
    assert_eq!(shown, strings(&["stderr:gt:a: skipped (not a git repo)"]));
    assert_eq!(error, None);
}

fn run_release_steps(
    tag: Option<&str>,
    print_only: bool,
    dry_run: bool,
    answer: impl Fn(&ReleaseAction) -> ReleaseEvent,
) -> (Vec<String>, Vec<String>, Option<String>) {
    let mut state = ReleaseState::start(tag, None, false, "origin", print_only, dry_run, false);
    let mut printed = Vec::new();
    let mut trace = Vec::new();
    loop {
        printed.extend(state.lines.iter().cloned());
        let step = match &state.action {
            ReleaseAction::Finished => return (printed, trace, state.error.map(|e| e.describe())),
            ReleaseAction::FindLatestTag => String::from("latest"),
            ReleaseAction::ReadAnnotation { tag } => format!("annotation {tag}"),
            ReleaseAction::ListTags => String::from("tags"),
            ReleaseAction::ReadCommits { since } => format!("commits {since}"),
            ReleaseAction::CheckRelease { tag } => format!("exists {tag}"),
            ReleaseAction::LookupUrl { tag } => format!("url {tag}"),
            ReleaseAction::FindBranch => String::from("branch"),
            ReleaseAction::PushBranchAndTag { branch, tag, remote } => format!("push {branch} {tag} {remote}"),
            ReleaseAction::PushTag { tag, remote } => format!("push-tag {tag} {remote}"),
            ReleaseAction::Create { args } => format!("gh {}", args.join(" ")),
        };
        trace.push(step);
        let event = answer(&state.action);
        state = release_next(state, event);
    }
}

fn release_answers(action: &ReleaseAction) -> ReleaseEvent {
    match action {
        ReleaseAction::FindLatestTag => ReleaseEvent::Latest(Some(String::from("v1.1.0"))),
        ReleaseAction::ReadAnnotation { .. } => ReleaseEvent::Annotation(None),
        ReleaseAction::ListTags => ReleaseEvent::Tags(strings(&["v1.1.0", "v1.0.0"])),
        ReleaseAction::ReadCommits { .. } => ReleaseEvent::Commits(strings(&["Add search"])),
        ReleaseAction::CheckRelease { .. } => ReleaseEvent::Exists(false),
        ReleaseAction::FindBranch => ReleaseEvent::Branch(Some(String::from("main"))),
        ReleaseAction::Create { .. } => ReleaseEvent::Created(String::from("https://example.test/r/1")),
        _ => ReleaseEvent::Done,
    }
}

#[test]
fn release_pushes_and_creates_from_the_latest_tag() {
    let (printed, trace, error) = run_release_steps(None, false, false, release_answers);
    assert_eq!(error, None);
    assert_eq!(&trace[..6], &strings(&[
        "latest",
        "annotation v1.1.0",
        "tags",
        "commits v1.0.0",
        "exists v1.1.0",
        "branch",
    ])[..]);
    assert_eq!(trace[6], "push main v1.1.0 origin");
    assert!(trace[7].starts_with("gh release create v1.1.0"));
    assert_eq!(
        printed,
        strings(&["Pushed main and v1.1.0 to origin", "Release created: https://example.test/r/1"])
    );
}

#[test]
fn release_print_only_and_dry_run_only_report() {
    let (printed, trace, _) = run_release_steps(Some("v2.0.0-rc.1"), true, false, |action| match action {
        ReleaseAction::ReadAnnotation { .. } => {
            ReleaseEvent::Annotation(Some(String::from("Big release\n\nNotes here")))
        }
        _ => ReleaseEvent::Done,
    });
    assert_eq!(trace, strings(&["annotation v2.0.0-rc.1"]));
    assert_eq!(printed, strings(&["Tag:   v2.0.0-rc.1", "Title: Big release", "", "Notes here"]));

    let (printed, trace, _) = run_release_steps(Some("v2.0.0-rc.1"), false, true, |action| match action {
        ReleaseAction::ReadAnnotation { .. } => ReleaseEvent::Annotation(Some(String::from("Big release"))),
        _ => ReleaseEvent::Done,
    });
    assert_eq!(trace.len(), 1);
    assert_eq!(printed[0], "\n[dry-run] Would create GitHub release:");
    assert_eq!(printed[5], "  Prerelease:      true");
}

#[test]
fn release_that_exists_is_reported_and_missing_tags_fail() {
    let (printed, trace, error) = run_release_steps(Some("v1.0.0"), false, false, |action| match action {
        ReleaseAction::ReadAnnotation { .. } => ReleaseEvent::Annotation(Some(String::from("Title"))),
        ReleaseAction::CheckRelease { .. } => ReleaseEvent::Exists(true),
        ReleaseAction::LookupUrl { .. } => ReleaseEvent::Url(None),
        _ => ReleaseEvent::Done,
    });
    assert_eq!(error, None);
    assert_eq!(trace, strings(&["annotation v1.0.0", "exists v1.0.0", "url v1.0.0"]));
    assert_eq!(printed, strings(&["A release for v1.0.0 already exists: None"]));

    let (_, _, error) = run_release_steps(None, false, false, |_| ReleaseEvent::Latest(None));
    assert_eq!(
        error,
        Some(String::from(
            "No semantic version tags found locally. Run 'engit tag' first, or supply --tag explicitly."
        ))
    );

    let (printed, trace, _) = run_release_steps(Some("v1.0.0"), false, false, |action| match action {
        ReleaseAction::FindBranch => ReleaseEvent::Branch(None),
        ReleaseAction::CheckRelease { .. } => ReleaseEvent::Exists(false),
        ReleaseAction::ListTags => ReleaseEvent::Tags(strings(&["v1.0.0"])),
        _ => ReleaseEvent::Done,
    });
    assert!(trace.contains(&String::from("push-tag v1.0.0 origin")));
    assert_eq!(printed[0], "Pushed v1.0.0 to origin (detached HEAD \u{2014} branch not pushed)");
}
