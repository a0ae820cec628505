//! The order of the steps that put an archive back in place.
//!
//! Restoring is destructive: what the destination held is deleted before the
//! archive is unpacked. The archive is unpacked into the directory that holds
//! the destination, where it recreates the tree under its root name, and that
//! tree is then renamed to the destination. [`advance`] says which step
//! follows which; the caller performs each step and reports how it went.
//!
//! The archive is opened before anything is deleted, so that an archive that
//! cannot be read costs nothing. From the deletion to the rename the
//! destination is incomplete: a failure in between leaves it absent or
//! empty, with whatever was unpacked lying beside it under the root name.

use vstd::prelude::*;

verus! {

/// Why a restoration stopped.
#[derive(Debug, Clone, Copy, PartialEq, Eq, Structural)]
pub enum RestoreError {
    /// The archive could not be opened or is no compressed stream.
    ArchiveUnreadable,
    /// What the destination held could not be deleted.
    RemoveFailed,
    /// The destination could not be created.
    CreateFailed,
    /// The archive is corrupt or truncated, or an entry could not be written.
    UnpackFailed,
    /// The unpacked tree could not be renamed to the destination.
    RenameFailed,
}

/// What is to be done next in a restoration.
#[derive(Debug, Clone, Copy, PartialEq, Eq, Structural)]
pub enum Step {
    /// Open the archive and its decompressor.
    OpenArchive,
    /// Find out whether the destination exists.
    ProbeDestination,
    /// Delete the destination and all it holds.
    RemoveDestination,
    /// Create the destination and the directories above it.
    CreateDestination,
    /// Unpack the archive into the directory that holds the destination.
    Unpack,
    /// Find out whether the unpacked tree exists, and whether the place where
    /// it lies is the destination itself.
    ProbeStaged,
    /// Find out whether the destination is in the way of the rename.
    ProbePlace,
    /// Delete the destination to make room for the rename.
    ClearPlace,
    /// Rename the unpacked tree to the destination.
    Rename,
    /// Nothing: the restoration succeeded.
    Done,
    /// Nothing: the restoration failed.
    Failed(RestoreError),
}

/// How a step went.
#[derive(Debug, Clone, Copy, PartialEq, Eq, Structural)]
pub enum Report {
    /// The step was carried out.
    Succeeded,
    /// The step could not be carried out.
    Failed,
    /// The answer to [`Step::ProbeDestination`] and [`Step::ProbePlace`].
    Exists(bool),
    /// The answer to [`Step::ProbeStaged`].
    Staged { exists: bool, in_place: bool },
}

/// The step that follows `step` once `report` came in. A report that does not
/// answer `step` changes nothing, and nothing follows the two final steps.
pub open spec fn next_step(step: Step, report: Report) -> Step {
    match (step, report) {
        (Step::OpenArchive, Report::Succeeded) => Step::ProbeDestination,
        (Step::OpenArchive, Report::Failed) => Step::Failed(RestoreError::ArchiveUnreadable),
        (Step::ProbeDestination, Report::Exists(true)) => Step::RemoveDestination,
        (Step::ProbeDestination, Report::Exists(false)) => Step::CreateDestination,
        (Step::RemoveDestination, Report::Succeeded) => Step::CreateDestination,
        (Step::RemoveDestination, Report::Failed) => Step::Failed(RestoreError::RemoveFailed),
        (Step::CreateDestination, Report::Succeeded) => Step::Unpack,
        (Step::CreateDestination, Report::Failed) => Step::Failed(RestoreError::CreateFailed),
        (Step::Unpack, Report::Succeeded) => Step::ProbeStaged,
        (Step::Unpack, Report::Failed) => Step::Failed(RestoreError::UnpackFailed),
        (Step::ProbeStaged, Report::Staged { exists, in_place }) => if exists && !in_place {
            Step::ProbePlace
        } else {
            Step::Done
        },
        (Step::ProbePlace, Report::Exists(true)) => Step::ClearPlace,
        (Step::ProbePlace, Report::Exists(false)) => Step::Rename,
        (Step::ClearPlace, Report::Succeeded) => Step::Rename,
        (Step::ClearPlace, Report::Failed) => Step::Failed(RestoreError::RemoveFailed),
        (Step::Rename, Report::Succeeded) => Step::Done,
        (Step::Rename, Report::Failed) => Step::Failed(RestoreError::RenameFailed),
        _ => step,
    }
}

/// The step with which every restoration begins.
pub fn first_step() -> (step: Step)
    ensures
        step == Step::OpenArchive,
{
    Step::OpenArchive
}

/// Whether `step` ends a restoration.
pub open spec fn is_final(step: Step) -> bool {
    step == Step::Done || step is Failed
}

/// Tells whether `step` ends a restoration.
pub fn ends(step: Step) -> (last: bool)
    ensures
        last == is_final(step),
{
    match step {
        Step::Done => true,
        Step::Failed(_) => true,
        _ => false,
    }
}

/// Whether `step` destroys what the destination holds.
pub open spec fn is_destructive(step: Step) -> bool {
    step == Step::RemoveDestination || step == Step::ClearPlace
}

/// The step that follows `step` once `report` came in.
pub fn advance(step: Step, report: Report) -> (next: Step)
    ensures
        next == next_step(step, report),
{
    match step {
        Step::OpenArchive => match report {
            Report::Succeeded => Step::ProbeDestination,
            Report::Failed => Step::Failed(RestoreError::ArchiveUnreadable),
            _ => step,
        },
        Step::ProbeDestination => match report {
            Report::Exists(exists) => if exists {
                Step::RemoveDestination
            } else {
                Step::CreateDestination
            },
            _ => step,
        },
        Step::RemoveDestination => match report {
            Report::Succeeded => Step::CreateDestination,
            Report::Failed => Step::Failed(RestoreError::RemoveFailed),
            _ => step,
        },
        Step::CreateDestination => match report {
            Report::Succeeded => Step::Unpack,
            Report::Failed => Step::Failed(RestoreError::CreateFailed),
            _ => step,
        },
        Step::Unpack => match report {
            Report::Succeeded => Step::ProbeStaged,
            Report::Failed => Step::Failed(RestoreError::UnpackFailed),
            _ => step,
        },
        Step::ProbeStaged => match report {
            Report::Staged { exists, in_place } => if exists && !in_place {
                Step::ProbePlace
            } else {
                Step::Done
            },
            _ => step,
        },
        Step::ProbePlace => match report {
            Report::Exists(exists) => if exists {
                Step::ClearPlace
            } else {
                Step::Rename
            },
            _ => step,
        },
        Step::ClearPlace => match report {
            Report::Succeeded => Step::Rename,
            Report::Failed => Step::Failed(RestoreError::RemoveFailed),
            _ => step,
        },
        Step::Rename => match report {
            Report::Succeeded => Step::Done,
            Report::Failed => Step::Failed(RestoreError::RenameFailed),
            _ => step,
        },
        Step::Done => step,
        Step::Failed(_) => step,
    }
}

} // verus!
