use elm_core::rollback::restore::{advance, ends, first_step, Report, RestoreError, Step};

/// Runs a restoration to its end, answering each step from `answer`, and
/// returns the steps taken, the final one included.
fn run(answer: fn(Step) -> Report) -> Vec<Step> {
    let mut taken = vec![first_step()];
    while !ends(*taken.last().unwrap()) {
        assert!(taken.len() < 20, "the restoration does not end");
        let step = *taken.last().unwrap();
        taken.push(advance(step, answer(step)));
    }
    taken
}

#[test]
fn an_existing_destination_is_deleted_then_replaced() {
    let steps = run(|step| match step {
        Step::ProbeDestination => Report::Exists(true),
        Step::ProbeStaged => Report::Staged { exists: true, in_place: false },
        Step::ProbePlace => Report::Exists(true),
        _ => Report::Succeeded,
    });
    assert_eq!(
        steps,
        vec![
            Step::OpenArchive,
            Step::ProbeDestination,
            Step::RemoveDestination,
            Step::CreateDestination,
            Step::Unpack,
            Step::ProbeStaged,
            Step::ProbePlace,
            Step::ClearPlace,
            Step::Rename,
            Step::Done,
        ]
    );
}

#[test]
fn a_fresh_destination_needs_no_deletion() {
    let steps = run(|step| match step {
        Step::ProbeDestination => Report::Exists(false),
        Step::ProbeStaged => Report::Staged { exists: true, in_place: false },
        Step::ProbePlace => Report::Exists(false),
        _ => Report::Succeeded,
    });
    assert_eq!(
        steps,
        vec![
            Step::OpenArchive,
            Step::ProbeDestination,
            Step::CreateDestination,
            Step::Unpack,
            Step::ProbeStaged,
            Step::ProbePlace,
            Step::Rename,
            Step::Done,
        ]
    );
}

#[test]
fn a_destination_that_bears_the_root_name_is_unpacked_in_place() {
    let steps = run(|step| match step {
        Step::ProbeDestination => Report::Exists(true),
        Step::ProbeStaged => Report::Staged { exists: true, in_place: true },
        _ => Report::Succeeded,
    });
    assert_eq!(
        steps,
        vec![
            Step::OpenArchive,
            Step::ProbeDestination,
            Step::RemoveDestination,
            Step::CreateDestination,
            Step::Unpack,
            Step::ProbeStaged,
            Step::Done,
        ]
    );
}

#[test]
fn an_archive_without_the_root_name_leaves_nothing_to_rename() {
    assert_eq!(
        advance(Step::ProbeStaged, Report::Staged { exists: false, in_place: false }),
        Step::Done
    );
    assert_eq!(
        advance(Step::ProbeStaged, Report::Staged { exists: false, in_place: true }),
        Step::Done
    );
}

#[test]
fn an_unreadable_archive_fails_before_anything_is_deleted() {
    let steps = run(|step| match step {
        Step::OpenArchive => Report::Failed,
        _ => Report::Succeeded,
    });
    assert_eq!(steps, vec![Step::OpenArchive, Step::Failed(RestoreError::ArchiveUnreadable)]);
}

#[test]
fn each_failing_step_gives_its_own_error() {
    assert_eq!(
        advance(Step::OpenArchive, Report::Failed),
        Step::Failed(RestoreError::ArchiveUnreadable)
    );
    assert_eq!(
        advance(Step::RemoveDestination, Report::Failed),
        Step::Failed(RestoreError::RemoveFailed)
    );
    assert_eq!(
        advance(Step::CreateDestination, Report::Failed),
        Step::Failed(RestoreError::CreateFailed)
    );
    assert_eq!(advance(Step::Unpack, Report::Failed), Step::Failed(RestoreError::UnpackFailed));
    assert_eq!(advance(Step::ClearPlace, Report::Failed), Step::Failed(RestoreError::RemoveFailed));
    assert_eq!(advance(Step::Rename, Report::Failed), Step::Failed(RestoreError::RenameFailed));
}

#[test]
fn a_failed_unpack_never_reaches_the_rename() {
    let steps = run(|step| match step {
        Step::ProbeDestination => Report::Exists(true),
        Step::Unpack => Report::Failed,
        _ => Report::Succeeded,
    });
    assert_eq!(steps.last(), Some(&Step::Failed(RestoreError::UnpackFailed)));
    assert!(!steps.contains(&Step::Rename));
}

#[test]
fn a_report_that_answers_another_step_changes_nothing() {
    assert_eq!(advance(Step::OpenArchive, Report::Exists(true)), Step::OpenArchive);
    assert_eq!(advance(Step::ProbeDestination, Report::Succeeded), Step::ProbeDestination);
    assert_eq!(advance(Step::Unpack, Report::Exists(false)), Step::Unpack);
    assert_eq!(
        advance(Step::Rename, Report::Staged { exists: true, in_place: false }),
        Step::Rename
    );
    assert_eq!(advance(Step::ProbeStaged, Report::Succeeded), Step::ProbeStaged);
}

#[test]
fn nothing_follows_the_final_steps() {
    assert!(ends(Step::Done));
    assert!(ends(Step::Failed(RestoreError::RenameFailed)));
    assert!(!ends(Step::OpenArchive));
    assert!(!ends(Step::Rename));
    assert_eq!(advance(Step::Done, Report::Succeeded), Step::Done);
    assert_eq!(advance(Step::Done, Report::Failed), Step::Done);
    let failed = Step::Failed(RestoreError::UnpackFailed);
    assert_eq!(advance(failed, Report::Succeeded), failed);
}

#[test]
fn restoring_twice_takes_the_same_steps_after_the_first_run() {
    let second = |step: Step| match step {
        Step::ProbeDestination => Report::Exists(true),
        Step::ProbeStaged => Report::Staged { exists: true, in_place: false },
        Step::ProbePlace => Report::Exists(true),
        _ => Report::Succeeded,
    };
    let once = run(second);
    let twice = run(second);
    assert_eq!(once, twice);
    assert_eq!(twice.last(), Some(&Step::Done));
}
