use dir_mirror::copy::{copy_begin, copy_step, copy_to_dst, CopyEnd, CopyStage, CopyVerdict};
use dir_mirror::error::{IoOutcome, SyncError};
use dir_mirror::path::TreePath;

fn p(text: &str) -> TreePath {
    TreePath::new(
        text.split('/')
            .filter(|part| !part.is_empty())
            .map(|part| part.as_bytes().to_vec())
            .collect(),
    )
}

#[test]
fn copy_plan_names_source_destination_and_parent() {
    let plan = copy_to_dst(&p("/w/d/a.txt"), &p("/w"), &p("/b")).unwrap();
    assert_eq!(plan.source, p("/w/d/a.txt"));
    assert_eq!(plan.destination, p("/b/d/a.txt"));
    assert_eq!(plan.parent, p("/b/d"));
}

#[test]
fn copy_plan_of_a_top_level_file_has_the_root_as_parent() {
    let plan = copy_to_dst(&p("/w/a.txt"), &p("/w"), &p("/b")).unwrap();
    assert_eq!(plan.parent, p("/b"));
}

#[test]
fn copy_plan_rejects_a_path_outside_the_root() {
    assert_eq!(
        copy_to_dst(&p("/elsewhere/a.txt"), &p("/w"), &p("/b")),
        Err(SyncError::PathOutsideRoot)
    );
}

#[test]
fn a_copy_runs_through_its_three_operations() {
    let first = copy_begin();
    assert_eq!(first, CopyStage::CreateParent);
    assert_eq!(
        copy_step(first, IoOutcome::Done),
        CopyVerdict::Continue(CopyStage::RemoveExisting)
    );
    assert_eq!(
        copy_step(CopyStage::RemoveExisting, IoOutcome::Done),
        CopyVerdict::Continue(CopyStage::CopyBytes)
    );
    assert_eq!(
        copy_step(CopyStage::CopyBytes, IoOutcome::Done),
        CopyVerdict::End(CopyEnd::Copied)
    );
}

#[test]
fn a_destination_that_was_not_there_is_no_obstacle() {
    assert_eq!(
        copy_step(CopyStage::RemoveExisting, IoOutcome::NotFound),
        CopyVerdict::Continue(CopyStage::CopyBytes)
    );
}

#[test]
fn a_failed_operation_fails_the_copy() {
    for stage in [CopyStage::CreateParent, CopyStage::RemoveExisting, CopyStage::CopyBytes] {
        assert_eq!(copy_step(stage, IoOutcome::Failed), CopyVerdict::End(CopyEnd::Failed));
    }
}

#[test]
fn a_vanished_source_ends_the_copy_quietly() {
    assert_eq!(
        copy_step(CopyStage::CopyBytes, IoOutcome::NotFound),
        CopyVerdict::End(CopyEnd::Vanished)
    );
    assert_eq!(
        copy_step(CopyStage::CreateParent, IoOutcome::NotFound),
        CopyVerdict::End(CopyEnd::Vanished)
    );
}
