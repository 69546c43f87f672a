use dir_mirror::action::FsAction;
use dir_mirror::error::{EntryKind, IoOutcome, SyncError};
use dir_mirror::path::TreePath;
use dir_mirror::reconciler::{
    delete_files, reconcile_entry, removal_reported, scan_finished, MirrorSighting, Presence,
};
use dir_mirror::shutdown::{LoopControl, ShutdownFlag};

fn p(text: &str) -> TreePath {
    TreePath::new(
        text.split('/')
            .filter(|part| !part.is_empty())
            .map(|part| part.as_bytes().to_vec())
            .collect(),
    )
}

fn sighting(path: &str, kind: EntryKind, in_backup: Presence, in_work: Presence) -> MirrorSighting {
    MirrorSighting { path: p(path), kind: Some(kind), in_backup, in_work }
}

#[test]
fn a_file_whose_counterpart_is_gone_is_removed() {
    let out = reconcile_entry(
        &p("/b/a.txt"),
        &p("/b"),
        Some(EntryKind::File),
        Presence::Present,
        Presence::Absent,
    );
    assert_eq!(out, Ok(Some(FsAction::RemoveFile(p("/b/a.txt")))));
}

#[test]
fn a_link_whose_counterpart_is_gone_is_removed_as_a_file() {
    let out = reconcile_entry(
        &p("/b/link"),
        &p("/b"),
        Some(EntryKind::Symlink),
        Presence::Present,
        Presence::Absent,
    );
    assert_eq!(out, Ok(Some(FsAction::RemoveFile(p("/b/link")))));
}

#[test]
fn a_directory_whose_counterpart_is_gone_is_removed_with_its_content() {
    let out = reconcile_entry(
        &p("/b/d"),
        &p("/b"),
        Some(EntryKind::Directory),
        Presence::Present,
        Presence::Absent,
    );
    assert_eq!(out, Ok(Some(FsAction::RemoveDirAll(p("/b/d")))));
}

#[test]
fn an_entry_whose_counterpart_exists_is_kept() {
    for kind in [EntryKind::File, EntryKind::Symlink, EntryKind::Directory, EntryKind::Other] {
        assert_eq!(
            reconcile_entry(&p("/b/a"), &p("/b"), Some(kind), Presence::Present, Presence::Present),
            Ok(None)
        );
    }
}

#[test]
fn an_entry_that_is_gone_already_is_left_alone() {
    assert_eq!(
        reconcile_entry(
            &p("/b/a"),
            &p("/b"),
            Some(EntryKind::File),
            Presence::Absent,
            Presence::Absent
        ),
        Ok(None)
    );
    assert_eq!(
        reconcile_entry(&p("/elsewhere"), &p("/b"), None, Presence::Absent, Presence::Unknown),
        Ok(None)
    );
}

#[test]
fn an_entry_that_vanished_before_its_kind_was_read_is_left_alone() {
    assert_eq!(
        reconcile_entry(&p("/b/a"), &p("/b"), None, Presence::Present, Presence::Absent),
        Ok(None)
    );
}

#[test]
fn an_entry_of_unknown_kind_is_an_error() {
    assert_eq!(
        reconcile_entry(
            &p("/b/dev"),
            &p("/b"),
            Some(EntryKind::Other),
            Presence::Present,
            Presence::Absent
        ),
        Err(SyncError::UnhandledEntryKind)
    );
}

#[test]
fn an_entry_outside_the_mirror_is_an_error() {
    assert_eq!(
        reconcile_entry(
            &p("/w/a"),
            &p("/b"),
            Some(EntryKind::File),
            Presence::Present,
            Presence::Absent
        ),
        Err(SyncError::PathOutsideRoot)
    );
}

#[test]
fn an_unanswered_question_is_an_error_for_the_entry() {
    assert_eq!(
        reconcile_entry(
            &p("/b/a"),
            &p("/b"),
            Some(EntryKind::File),
            Presence::Unknown,
            Presence::Absent
        ),
        Err(SyncError::IoError)
    );
    assert_eq!(
        reconcile_entry(
            &p("/b/a"),
            &p("/b"),
            Some(EntryKind::File),
            Presence::Present,
            Presence::Unknown
        ),
        Err(SyncError::IoError)
    );
}

#[test]
fn modification_times_play_no_part() {
    let kept = sighting("/b/a", EntryKind::File, Presence::Present, Presence::Present);
    let out = delete_files(&vec![kept], &p("/b")).unwrap();
    assert!(out.removals.is_empty());
    assert!(out.unreadable.is_empty());
}

#[test]
fn a_scan_lists_the_removals_in_order() {
    let sightings = vec![
        sighting("/b/keep.txt", EntryKind::File, Presence::Present, Presence::Present),
        sighting("/b/gone.txt", EntryKind::File, Presence::Present, Presence::Absent),
        sighting("/b/unread.txt", EntryKind::File, Presence::Present, Presence::Unknown),
        sighting("/b/dir", EntryKind::Directory, Presence::Present, Presence::Absent),
        sighting("/b/already", EntryKind::File, Presence::Absent, Presence::Absent),
        sighting("/b/unread2", EntryKind::File, Presence::Unknown, Presence::Absent),
    ];
    let out = delete_files(&sightings, &p("/b")).unwrap();
    assert_eq!(
        out.removals,
        vec![FsAction::RemoveFile(p("/b/gone.txt")), FsAction::RemoveDirAll(p("/b/dir"))]
    );
    assert_eq!(out.unreadable, vec![p("/b/unread.txt"), p("/b/unread2")]);
}

#[test]
fn a_scan_of_nothing_asks_for_nothing() {
    let out = delete_files(&vec![], &p("/b")).unwrap();
    assert!(out.removals.is_empty());
    assert!(out.unreadable.is_empty());
}

#[test]
fn a_broken_assumption_stops_the_scan() {
    let sightings = vec![
        sighting("/b/gone.txt", EntryKind::File, Presence::Present, Presence::Absent),
        sighting("/b/dev", EntryKind::Other, Presence::Present, Presence::Absent),
        sighting("/x/out", EntryKind::File, Presence::Present, Presence::Absent),
    ];
    assert_eq!(delete_files(&sightings, &p("/b")), Err(SyncError::UnhandledEntryKind));
    let sightings = vec![
        sighting("/x/out", EntryKind::File, Presence::Present, Presence::Absent),
        sighting("/b/dev", EntryKind::Other, Presence::Present, Presence::Absent),
    ];
    assert_eq!(delete_files(&sightings, &p("/b")), Err(SyncError::PathOutsideRoot));
}

#[test]
fn an_entry_that_was_gone_already_counts_as_removed() {
    assert_eq!(removal_reported(IoOutcome::Done), Ok(()));
    assert_eq!(removal_reported(IoOutcome::NotFound), Ok(()));
    assert_eq!(removal_reported(IoOutcome::Failed), Err(SyncError::CopyFailure));
}

#[test]
fn the_reconciler_scans_more_often_than_the_supervisor() {
    let flag = ShutdownFlag::new();
    let own = scan_finished(&flag);
    let supervisors = dir_mirror::supervisor::scan_finished(&flag);
    assert_eq!(own, LoopControl::SleepSecs(1));
    match (own, supervisors) {
        (LoopControl::SleepSecs(a), LoopControl::SleepSecs(b)) => assert!(a < b),
        other => panic!("unexpected {:?}", other),
    }
    assert_eq!(scan_finished(&ShutdownFlag::observed(true)), LoopControl::Stop);
}
