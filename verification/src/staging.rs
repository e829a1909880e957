//! The steps that put a bundle publish in place: the publish is built in
//! staging paths, the old development publish is removed when forced, and
//! the staged directory and archive are moved into place; a failure removes
//! what was staged.
//!
//! The caller performs each [`PublishStep`] and reports its outcome to
//! [`PublishSteps::next`].

use vstd::prelude::*;

use crate::error::EngitError;

verus! {

/// A step of putting a publish in place.
#[derive(Debug, PartialEq, Eq, Structural)]
pub enum PublishStep {
    /// Build the publish directory in its staging path.
    BuildDir,
    /// Build the zip archive in its staging path.
    BuildZip,
    /// Remove the existing publish directory (forced development publish).
    RemoveDir,
    /// Remove the existing archive (forced development publish).
    RemoveArchive,
    /// Create the parent of the publish directory.
    CreateParent,
    /// Move the staged directory to the publish directory.
    MoveDir,
    /// Move the staged archive to the archive path.
    MoveZip,
    /// Remove the publish directory just moved in place (its outcome is not
    /// checked).
    RemovePublishedDir,
    /// Remove the staged directory and archive (outcomes are not checked).
    RemoveStaging,
    /// Nothing is left to do.
    Finished,
}

/// The state of putting a publish in place.
pub struct PublishSteps {
    /// Whether an archive is made.
    pub create_zip: bool,
    /// Whether an existing development publish is replaced.
    pub force: bool,
    /// The step to perform next.
    pub step: PublishStep,
    /// The error the publish ends with, once one occurred.
    pub error: Option<EngitError>,
}

/// The step that follows the successful build of the staged publish.
pub open spec fn after_build(force: bool) -> PublishStep {
    if force { PublishStep::RemoveDir } else { PublishStep::CreateParent }
}

/// One step: the state `t` that follows `s` when its step ended with
/// `outcome` (`Err` for a failure). Every failure before the directory is
/// in place removes the staging; a failure to move the archive first
/// removes the directory just moved in place; success comes only once
/// everything is moved in place.
pub open spec fn publish_step_transition(
    s: PublishSteps,
    outcome: Result<(), EngitError>,
    t: PublishSteps,
) -> bool {
    let failed = outcome is Err;
    &&& t.create_zip == s.create_zip
    &&& t.force == s.force
    &&& match s.step {
        PublishStep::BuildDir | PublishStep::BuildZip | PublishStep::RemoveDir
        | PublishStep::RemoveArchive | PublishStep::CreateParent | PublishStep::MoveDir => if failed {
            t.step == PublishStep::RemoveStaging && t.error == Some(outcome->Err_0)
        } else {
            &&& t.error == s.error
            &&& t.step == match s.step {
                PublishStep::BuildDir => if s.create_zip {
                    PublishStep::BuildZip
                } else {
                    after_build(s.force)
                },
                PublishStep::BuildZip => after_build(s.force),
                PublishStep::RemoveDir => PublishStep::RemoveArchive,
                PublishStep::RemoveArchive => PublishStep::CreateParent,
                PublishStep::CreateParent => PublishStep::MoveDir,
                _ => if s.create_zip {
                    PublishStep::MoveZip
                } else {
                    PublishStep::Finished
                },
            }
        },
        PublishStep::MoveZip => if failed {
            t.step == PublishStep::RemovePublishedDir && t.error == Some(outcome->Err_0)
        } else {
            t.step == PublishStep::Finished && t.error == s.error
        },
        PublishStep::RemovePublishedDir => t.step == PublishStep::RemoveStaging && t.error == s.error,
        PublishStep::RemoveStaging => t.step == PublishStep::Finished && t.error == s.error,
        PublishStep::Finished => t.step == PublishStep::Finished && t.error == s.error,
    }
}

impl PublishSteps {
    /// The first step: build the staged directory.
    pub fn start(create_zip: bool, force: bool) -> (s: PublishSteps)
        ensures
            s.create_zip == create_zip,
            s.force == force,
            s.step == PublishStep::BuildDir,
            s.error is None,
    {
        PublishSteps { create_zip, force, step: PublishStep::BuildDir, error: None }
    }

    /// The state after the current step ended with `outcome` (see
    /// [`publish_step_transition`]).
    pub fn next(self, outcome: Result<(), EngitError>) -> (t: PublishSteps)
        ensures
            publish_step_transition(self, outcome, t),
    {
        let PublishSteps { create_zip, force, step, error } = self;
        let (step, error) = match step {
            PublishStep::MoveZip => match outcome {
                Err(e) => (PublishStep::RemovePublishedDir, Some(e)),
                Ok(()) => (PublishStep::Finished, error),
            },
            PublishStep::RemovePublishedDir => (PublishStep::RemoveStaging, error),
            PublishStep::RemoveStaging => (PublishStep::Finished, error),
            PublishStep::Finished => (PublishStep::Finished, error),
            other => match outcome {
                Err(e) => (PublishStep::RemoveStaging, Some(e)),
                Ok(()) => {
                    let built = if force { PublishStep::RemoveDir } else { PublishStep::CreateParent };
                    let next = match other {
                        PublishStep::BuildDir => if create_zip { PublishStep::BuildZip } else { built },
                        PublishStep::BuildZip => built,
                        PublishStep::RemoveDir => PublishStep::RemoveArchive,
                        PublishStep::RemoveArchive => PublishStep::CreateParent,
                        PublishStep::CreateParent => PublishStep::MoveDir,
                        _ => if create_zip { PublishStep::MoveZip } else { PublishStep::Finished },
                    };
                    (next, error)
                },
            },
        };
        PublishSteps { create_zip, force, step, error }
    }
}

/// Once an error occurred, every later step winds the publish up; the
/// winding-up steps come only after an error. The first state has it.
pub open spec fn winds_up_on_error(s: PublishSteps) -> bool {
    &&& s.error is Some ==> (s.step == PublishStep::RemovePublishedDir || s.step
        == PublishStep::RemoveStaging || s.step == PublishStep::Finished)
    &&& (s.step == PublishStep::RemovePublishedDir || s.step == PublishStep::RemoveStaging)
        ==> s.error is Some
}

/// Once an error occurred, every step only winds the publish up (removing
/// what was staged or moved) and keeps the error; a failure always leads
/// to the staging's removal.
pub proof fn law_publish_failure_removes_staging(
    s: PublishSteps,
    outcome: Result<(), EngitError>,
    t: PublishSteps,
)
    requires
        winds_up_on_error(s),
        publish_step_transition(s, outcome, t),
    ensures
        winds_up_on_error(t),
        s.error is Some ==> t.error == s.error,
        s.error is None && t.error is Some ==> (t.step == PublishStep::RemoveStaging || t.step
            == PublishStep::RemovePublishedDir),
        t.step == PublishStep::RemovePublishedDir ==> t.error is Some,
{
}

/// A publish finishes without an error only from the move of the last
/// staged part into place.
pub proof fn law_publish_success_only_after_moves(
    s: PublishSteps,
    outcome: Result<(), EngitError>,
    t: PublishSteps,
)
    requires
        winds_up_on_error(s),
        s.error is None,
        s.step != PublishStep::Finished,
        publish_step_transition(s, outcome, t),
        t.step == PublishStep::Finished,
        t.error is None,
    ensures
        s.step == PublishStep::MoveZip || (s.step == PublishStep::MoveDir && !s.create_zip),
{
}

} // verus!
