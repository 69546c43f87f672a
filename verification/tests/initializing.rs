use dir_mirror::action::FsAction;
use dir_mirror::copy::{CopyEnd, CopyPlan};
use dir_mirror::error::{EntryKind, IoOutcome, SyncError};
use dir_mirror::initializer::{
    clear_entry, copy_reported, initialize, plan_clear, plan_populate, plan_startup,
    populate_entry, recursive_dir, step_reported, WalkEntry,
};
use dir_mirror::path::TreePath;
use dir_mirror::truth::{Resolution, Side};

fn p(text: &str) -> TreePath {
    TreePath::new(
        text.split('/')
            .filter(|part| !part.is_empty())
            .map(|part| part.as_bytes().to_vec())
            .collect(),
    )
}

fn entry(path: &str, kind: EntryKind) -> WalkEntry {
    WalkEntry { path: p(path), kind: Some(kind) }
}

fn copy(source: &str, destination: &str, parent: &str) -> FsAction {
    FsAction::Copy(CopyPlan { source: p(source), destination: p(destination), parent: p(parent) })
}

#[test]
fn recursive_dir_keeps_the_regular_files() {
    let walk = vec![
        entry("/w", EntryKind::Directory),
        entry("/w/a.txt", EntryKind::File),
        entry("/w/link", EntryKind::Symlink),
        WalkEntry { path: p("/w/unknown"), kind: None },
        entry("/w/d", EntryKind::Directory),
        entry("/w/d/b.txt", EntryKind::File),
        entry("/w/dev", EntryKind::Other),
    ];
    assert_eq!(recursive_dir(&walk), vec![p("/w/a.txt"), p("/w/d/b.txt")]);
    assert_eq!(recursive_dir(&vec![]), Vec::<TreePath>::new());
}

#[test]
fn clearing_removes_directories_with_their_content_and_files_alone() {
    let entries = vec![entry("/b/d", EntryKind::Directory), entry("/b/a.txt", EntryKind::File)];
    assert_eq!(
        plan_clear(&entries, &p("/b")),
        Ok(vec![FsAction::RemoveDirAll(p("/b/d")), FsAction::RemoveFile(p("/b/a.txt"))])
    );
    assert_eq!(plan_clear(&vec![], &p("/b")), Ok(vec![]));
}

#[test]
fn clearing_fails_loudly_on_other_kinds() {
    for kind in [EntryKind::Symlink, EntryKind::Other] {
        let entries = vec![entry("/b/a.txt", EntryKind::File), entry("/b/odd", kind)];
        assert_eq!(plan_clear(&entries, &p("/b")), Err(SyncError::UnhandledEntryKind));
    }
    assert_eq!(
        clear_entry(&WalkEntry { path: p("/b/odd"), kind: None }, &p("/b")),
        Err(SyncError::UnhandledEntryKind)
    );
}

#[test]
fn clearing_touches_only_what_lies_below_the_target() {
    assert_eq!(
        clear_entry(&entry("/w/a.txt", EntryKind::File), &p("/b")),
        Err(SyncError::PathOutsideRoot)
    );
    assert_eq!(
        clear_entry(&entry("/b", EntryKind::Directory), &p("/b")),
        Err(SyncError::PathOutsideRoot)
    );
    assert_eq!(
        clear_entry(&entry("/", EntryKind::Directory), &p("/b")),
        Err(SyncError::PathOutsideRoot)
    );
    assert_eq!(
        clear_entry(&entry("/b/d", EntryKind::Directory), &p("/b")),
        Ok(FsAction::RemoveDirAll(p("/b/d")))
    );
}

#[test]
fn filling_copies_files_and_links_and_creates_directories() {
    let walk = vec![
        entry("/w/d", EntryKind::Directory),
        entry("/w/d/a.txt", EntryKind::File),
        entry("/w/link", EntryKind::Symlink),
        entry("/w/dev", EntryKind::Other),
        WalkEntry { path: p("/w/unknown"), kind: None },
    ];
    assert_eq!(
        plan_populate(&walk, &p("/w"), &p("/b")),
        Ok(vec![
            FsAction::CreateDirAll(p("/b/d")),
            copy("/w/d/a.txt", "/b/d/a.txt", "/b/d"),
            copy("/w/link", "/b/link", "/b"),
        ])
    );
}

#[test]
fn filling_fails_on_an_entry_outside_the_authoritative_tree() {
    let walk = vec![entry("/w/a.txt", EntryKind::File), entry("/x/b.txt", EntryKind::File)];
    assert_eq!(plan_populate(&walk, &p("/w"), &p("/b")), Err(SyncError::PathOutsideRoot));
    assert_eq!(
        populate_entry(&entry("/x/d", EntryKind::Directory), &p("/w"), &p("/b")),
        Err(SyncError::PathOutsideRoot)
    );
    assert_eq!(populate_entry(&entry("/x/dev", EntryKind::Other), &p("/w"), &p("/b")), Ok(None));
}

#[test]
fn an_initialization_clears_and_then_fills() {
    let top_level = vec![entry("/b/old", EntryKind::Directory), entry("/b/a.txt", EntryKind::File)];
    let walk = vec![entry("/w/a.txt", EntryKind::File)];
    assert_eq!(
        initialize(&top_level, &walk, &p("/w"), &p("/b")),
        Ok(vec![
            FsAction::RemoveDirAll(p("/b/old")),
            FsAction::RemoveFile(p("/b/a.txt")),
            copy("/w/a.txt", "/b/a.txt", "/b"),
        ])
    );
}

#[test]
fn an_initialization_that_fails_plans_nothing() {
    let walk = vec![entry("/w/a.txt", EntryKind::File)];
    assert_eq!(
        initialize(&vec![entry("/b/odd", EntryKind::Other)], &walk, &p("/w"), &p("/b")),
        Err(SyncError::UnhandledEntryKind)
    );
    assert_eq!(
        initialize(
            &vec![entry("/b/old", EntryKind::File)],
            &vec![entry("/x/a", EntryKind::File)],
            &p("/w"),
            &p("/b")
        ),
        Err(SyncError::PathOutsideRoot)
    );
    assert_eq!(
        initialize(
            &vec![entry("/b/odd", EntryKind::Other)],
            &vec![entry("/x/a", EntryKind::File)],
            &p("/w"),
            &p("/b")
        ),
        Err(SyncError::UnhandledEntryKind)
    );
}

#[test]
fn trees_in_sync_start_without_an_operation() {
    let top_level = vec![entry("/b/a.txt", EntryKind::File)];
    let walk = vec![entry("/w/a.txt", EntryKind::File)];
    assert_eq!(
        plan_startup(Resolution::InSync, &top_level, &walk, &p("/w"), &p("/b")),
        Ok(vec![])
    );
}

#[test]
fn the_start_goes_from_the_authoritative_tree_to_the_other() {
    let from_work = plan_startup(
        Resolution::Mirror { authoritative: Side::Work },
        &vec![entry("/b/old.txt", EntryKind::File)],
        &vec![entry("/w/a.txt", EntryKind::File)],
        &p("/w"),
        &p("/b"),
    );
    assert_eq!(
        from_work,
        Ok(vec![FsAction::RemoveFile(p("/b/old.txt")), copy("/w/a.txt", "/b/a.txt", "/b")])
    );
    let from_backup = plan_startup(
        Resolution::Mirror { authoritative: Side::Backup },
        &vec![entry("/w/old.txt", EntryKind::File)],
        &vec![entry("/b/a.txt", EntryKind::File)],
        &p("/w"),
        &p("/b"),
    );
    assert_eq!(
        from_backup,
        Ok(vec![FsAction::RemoveFile(p("/w/old.txt")), copy("/b/a.txt", "/w/a.txt", "/w")])
    );
}

#[test]
fn anything_but_success_ends_an_initialization() {
    assert_eq!(step_reported(IoOutcome::Done), Ok(()));
    assert_eq!(step_reported(IoOutcome::NotFound), Err(SyncError::IoError));
    assert_eq!(step_reported(IoOutcome::Failed), Err(SyncError::CopyFailure));
    assert_eq!(copy_reported(CopyEnd::Copied), Ok(()));
    assert_eq!(copy_reported(CopyEnd::Vanished), Err(SyncError::IoError));
    assert_eq!(copy_reported(CopyEnd::Failed), Err(SyncError::CopyFailure));
}
