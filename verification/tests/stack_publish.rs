use engit::framework::{
    default_stack_root_from_env, plan_stack_publish, stack_dry_run_lines, stack_file_stem,
    StackPlan, StackPublish, StackStep, StepOutcome,
};
use engit::EngitError;

fn plan() -> StackPlan {
    plan_stack_publish("/stacks", "/src/studio/studio.estack", true, "2026-08-01T15-23-45", 42)
        .expect("plan should succeed")
}

/// Runs a publish through the outcomes given, returning the steps taken.
fn run(plan: &StackPlan, outcomes: Vec<StepOutcome>) -> (Vec<String>, StackPublish) {
    let mut state = StackPublish::start();
    let mut steps = Vec::new();
    for outcome in outcomes {
        steps.push(format!("{:?}", state.step));
        state = state.next(plan, outcome);
    }
    steps.push(format!("{:?}", state.step));
    (steps, state)
}

#[test]
fn framework_dry_run_validates_without_writing() {
    let plan = plan();
    assert_eq!(plan.destination, "/stacks/studio/2026-08-01T15-23-45/studio.estack");
    assert_eq!(plan.latest_link, "/stacks/studio/latest.estack");
    assert_eq!(plan.relative_target, "2026-08-01T15-23-45/studio.estack");
    assert_eq!(plan.temporary_link, "/stacks/studio/.latest.estack.42.tmp");
    assert_eq!(plan.backup_link, "/stacks/studio/.latest.estack.42.backup");
    assert_eq!(
        stack_dry_run_lines("/src/studio/studio.estack", &plan),
        vec![
            "Would publish: /src/studio/studio.estack",
            "          to: /stacks/studio/2026-08-01T15-23-45/studio.estack",
            "      latest: /stacks/studio/latest.estack -> 2026-08-01T15-23-45/studio.estack",
        ]
    );
}

#[test]
fn publish_requires_source_parent_to_match_filename() {
    let error = plan_stack_publish("/stacks", "/tmp/custom/studio.estack", true, "t", 1)
        .expect_err("mismatched source layout should fail");
    assert!(error.describe().contains("parent directory must match"));

    let error = plan_stack_publish("/stacks", "/tmp/studio/studio.estack", false, "t", 1)
        .expect_err("invalid stack name should fail");
    assert!(error.describe().contains("must contain a valid stack name"));
}

#[test]
fn stack_file_stems_follow_path_rules() {
    assert_eq!(stack_file_stem("/a/studio.estack"), Some(String::from("studio")));
    assert_eq!(stack_file_stem("/a/.hidden"), Some(String::from(".hidden")));
    assert_eq!(stack_file_stem("/a/archive.tar.gz"), Some(String::from("archive.tar")));
    assert_eq!(stack_file_stem("/a/.."), None);
}

#[test]
fn publishes_stack_to_nested_version_and_updates_latest_symlink() {
    let plan = plan();
    let (steps, state) = run(
        &plan,
        vec![
            StepOutcome::Done,
            StepOutcome::Done,
            StepOutcome::Done,
            StepOutcome::Missing,
            StepOutcome::Done,
            StepOutcome::Missing,
            StepOutcome::Done,
            StepOutcome::Exists,
            StepOutcome::Done,
        ],
    );
    assert_eq!(
        steps,
        vec![
            "CreateNameDir",
            "CreateVersionDir",
            "CopySource",
            "ProbeTemporaryLink",
            "LinkTemporary",
            "ProbeLatest",
            "MoveTemporaryToLatest",
            "ProbeLegacyPointer",
            "RemoveLegacyPointer",
            "Finished",
        ]
    );
    assert!(state.pending.is_none());
}

#[test]
fn symlink_failure_cleans_version_and_preserves_previous_latest() {
    let plan = plan();
    let (steps, state) = run(
        &plan,
        vec![
            StepOutcome::Done,
            StepOutcome::Done,
            StepOutcome::Done,
            StepOutcome::Missing,
            StepOutcome::Failed(String::from("denied")),
            StepOutcome::Done,
        ],
    );
    assert_eq!(steps[5], "Cleanup { remove_temporary: true }");
    assert_eq!(steps[6], "Finished");
    // The version directory is removed and the previous latest link is
    // never moved, renamed or removed.
    assert!(steps.iter().all(|step| !step.contains("Latest") && !step.contains("Backup")));
    let error = state.pending.expect("publish should fail");
    assert!(error.describe().contains("denied"));
}

#[test]
fn failed_latest_replacement_restores_previous_link() {
    let plan = plan();
    let (steps, state) = run(
        &plan,
        vec![
            StepOutcome::Done,
            StepOutcome::Done,
            StepOutcome::Done,
            StepOutcome::Missing,
            StepOutcome::Done,
            StepOutcome::Exists,
            StepOutcome::Missing,
            StepOutcome::Done,
            StepOutcome::Failed(String::from("busy")),
            StepOutcome::Done,
            StepOutcome::Done,
        ],
    );
    assert_eq!(steps[8], "MoveTemporaryToLatest");
    assert_eq!(steps[9], "RestoreBackup");
    assert_eq!(steps[10], "Cleanup { remove_temporary: true }");
    assert_eq!(steps[11], "Finished");
    assert!(matches!(state.pending, Some(EngitError::Io { .. })));
}

#[test]
fn existing_version_is_immutable() {
    let plan = plan();
    let (_, state) = run(&plan, vec![StepOutcome::Done, StepOutcome::AlreadyExists]);
    assert!(matches!(state.step, StackStep::Finished));
    assert_eq!(
        state.pending.expect("publish should fail").describe(),
        "Stack version already exists and is immutable: /stacks/studio/2026-08-01T15-23-45"
    );
}

#[test]
fn stack_publish_root_prefers_canonical_environment_variable() {
    let root = default_stack_root_from_env(Some("/tmp/preferred"), Some("/tmp/legacy"), ':')
        .expect("publish root should resolve");
    assert_eq!(root.path, "/tmp/preferred");
}

#[test]
fn stack_publish_root_falls_back_to_first_runtime_root() {
    let root = default_stack_root_from_env(None, Some("/tmp/first:/tmp/second"), ':')
        .expect("legacy publish root should resolve");
    assert_eq!(root.path, "/tmp/first");
    assert!(root.deprecated);

    let error = default_stack_root_from_env(None, None, ':').expect_err("no root is known");
    assert_eq!(
        error.describe(),
        "No --output specified and neither ENVOY_STACK_PUBLISH_ROOT nor ENVOY_STACK_ROOTS is set."
    );
}

fn run_publish_steps(create_zip: bool, force: bool, fail_at: Option<&str>) -> (Vec<String>, bool) {
    let mut steps = engit::staging::PublishSteps::start(create_zip, force);
    let mut trace = Vec::new();
    while steps.step != engit::staging::PublishStep::Finished {
        let name = format!("{:?}", steps.step);
        let outcome = if Some(name.as_str()) == fail_at {
            Err(engit::EngitError::Publish(String::from("failed")))
        } else {
            Ok(())
        };
        trace.push(name);
        steps = steps.next(outcome);
    }
    (trace, steps.error.is_none())
}

#[test]
fn bundle_publish_moves_staging_in_place_and_removes_it_on_failure() {
    let (trace, ok) = run_publish_steps(true, true, None);
    assert!(ok);
    assert_eq!(
        trace,
        vec!["BuildDir", "BuildZip", "RemoveDir", "RemoveArchive", "CreateParent", "MoveDir", "MoveZip"]
    );
    let (trace, ok) = run_publish_steps(false, false, None);
    assert!(ok);
    assert_eq!(trace, vec!["BuildDir", "CreateParent", "MoveDir"]);
    let (trace, ok) = run_publish_steps(true, false, Some("MoveZip"));
    assert!(!ok);
    assert_eq!(
        trace,
        vec!["BuildDir", "BuildZip", "CreateParent", "MoveDir", "MoveZip", "RemovePublishedDir", "RemoveStaging"]
    );
    let (trace, ok) = run_publish_steps(false, true, Some("RemoveDir"));
    assert!(!ok);
    assert_eq!(trace, vec!["BuildDir", "RemoveDir", "RemoveStaging"]);
}
