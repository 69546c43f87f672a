use dir_mirror::copy::CopyEnd;
use dir_mirror::error::SyncError;
use dir_mirror::path::TreePath;
use dir_mirror::shutdown::{LoopControl, ShutdownFlag};
use dir_mirror::supervisor::{
    copy_reported, destination_probed, inquire, reap, scan_finished, DestProbe,
    Inquiry, Tracking, WatchTable,
};

fn p(text: &str) -> TreePath {
    TreePath::new(
        text.split('/')
            .filter(|part| !part.is_empty())
            .map(|part| part.as_bytes().to_vec())
            .collect(),
    )
}

#[test]
fn an_untracked_file_asks_for_a_look_at_its_mirror() {
    let table = WatchTable::new();
    assert_eq!(
        inquire(&table, &p("/w/d/a.txt"), &p("/w"), &p("/b")),
        Ok(Inquiry::Destination(p("/b/d/a.txt")))
    );
}

#[test]
fn an_untracked_file_outside_the_work_tree_is_an_error() {
    let table = WatchTable::new();
    assert_eq!(
        inquire(&table, &p("/x/a.txt"), &p("/w"), &p("/b")),
        Err(SyncError::PathOutsideRoot)
    );
}

#[test]
fn a_file_with_a_mirror_gets_a_watcher_seeded_from_the_mirror() {
    let mut table = WatchTable::new();
    let file = p("/w/a.txt");
    let out = destination_probed(
        &mut table,
        &file,
        &p("/w"),
        &p("/b"),
        DestProbe::Present { modified: 1234 },
    );
    assert_eq!(out, Ok(Tracking::Spawn { last_modified: 1234 }));
    assert!(table.tracks(&file));
    assert_eq!(table.seed(&file), Some(1234));
    assert_eq!(inquire(&table, &file, &p("/w"), &p("/b")), Ok(Inquiry::Watched));
}

#[test]
fn a_file_without_a_mirror_is_copied_at_once_and_not_tracked() {
    let mut table = WatchTable::new();
    let file = p("/w/d/a.txt");
    let out = destination_probed(&mut table, &file, &p("/w"), &p("/b"), DestProbe::Missing);
    match out {
        Ok(Tracking::CopyNow(plan)) => {
            assert_eq!(plan.source, file);
            assert_eq!(plan.destination, p("/b/d/a.txt"));
            assert_eq!(plan.parent, p("/b/d"));
        }
        other => panic!("unexpected {:?}", other),
    }
    assert!(!table.tracks(&file));
    assert_eq!(table.seed(&file), None);
}

#[test]
fn a_failed_probe_is_an_error_and_tracks_nothing() {
    let mut table = WatchTable::new();
    let file = p("/w/a.txt");
    assert_eq!(
        destination_probed(&mut table, &file, &p("/w"), &p("/b"), DestProbe::Unreadable),
        Err(SyncError::IoError)
    );
    assert!(!table.tracks(&file));
}

#[test]
fn a_missing_mirror_of_a_file_outside_the_work_tree_is_an_error() {
    let mut table = WatchTable::new();
    assert_eq!(
        destination_probed(&mut table, &p("/x/a"), &p("/w"), &p("/b"), DestProbe::Missing),
        Err(SyncError::PathOutsideRoot)
    );
}

#[test]
fn a_tracked_file_gets_no_second_watcher() {
    let mut table = WatchTable::new();
    let file = p("/w/a.txt");
    destination_probed(&mut table, &file, &p("/w"), &p("/b"), DestProbe::Present { modified: 5 })
        .unwrap();
    for probe in [DestProbe::Present { modified: 9 }, DestProbe::Missing, DestProbe::Unreadable] {
        assert_eq!(
            destination_probed(&mut table, &file, &p("/w"), &p("/b"), probe),
            Ok(Tracking::AlreadyTracked)
        );
    }
    assert_eq!(table.seed(&file), Some(5));
}

#[test]
fn a_running_watcher_keeps_its_entry() {
    let mut table = WatchTable::new();
    let file = p("/w/a.txt");
    table.track(&file, 7);
    reap(&mut table, &vec![]);
    reap(&mut table, &vec![p("/w/other.txt")]);
    assert!(table.tracks(&file));
    assert_eq!(table.seed(&file), Some(7));
}

#[test]
fn an_ended_watcher_loses_its_entry_and_the_file_is_looked_at_afresh() {
    let mut table = WatchTable::new();
    let file = p("/w/a.txt");
    let other = p("/w/b.txt");
    table.track(&file, 7);
    table.track(&other, 8);
    reap(&mut table, &vec![file.clone()]);
    assert!(!table.tracks(&file));
    assert!(table.tracks(&other));
    assert_eq!(table.seed(&other), Some(8));
    assert_eq!(
        inquire(&table, &file, &p("/w"), &p("/b")),
        Ok(Inquiry::Destination(p("/b/a.txt")))
    );
    assert_eq!(
        destination_probed(
            &mut table,
            &file,
            &p("/w"),
            &p("/b"),
            DestProbe::Present { modified: 11 }
        ),
        Ok(Tracking::Spawn { last_modified: 11 })
    );
    assert_eq!(table.seed(&file), Some(11));
}

#[test]
fn reaping_drops_every_ended_watcher() {
    let mut table = WatchTable::new();
    for (name, seed) in [("/w/a", 1), ("/w/b", 2), ("/w/c", 3), ("/w/d", 4)] {
        table.track(&p(name), seed);
    }
    reap(&mut table, &vec![p("/w/d"), p("/w/a"), p("/w/a"), p("/w/zzz")]);
    assert_eq!(table.watched(), vec![p("/w/b"), p("/w/c")]);
    assert_eq!(table.seed(&p("/w/b")), Some(2));
    assert_eq!(table.seed(&p("/w/c")), Some(3));
}

#[test]
fn watched_lists_each_file_once() {
    let mut table = WatchTable::new();
    assert_eq!(table.watched(), Vec::<TreePath>::new());
    table.track(&p("/w/a"), 1);
    table.track(&p("/w/b"), 2);
    table.track(&p("/w/a"), 3);
    assert_eq!(table.watched(), vec![p("/w/a"), p("/w/b")]);
}

#[test]
fn track_and_forget() {
    let mut table = WatchTable::new();
    table.track(&p("/w/a"), 1);
    table.track(&p("/w/a"), 2);
    assert_eq!(table.seed(&p("/w/a")), Some(1));
    table.forget(&p("/w/missing"));
    assert!(table.tracks(&p("/w/a")));
    table.forget(&p("/w/a"));
    assert!(!table.tracks(&p("/w/a")));
    table.track(&p("/w/a"), 3);
    assert_eq!(table.seed(&p("/w/a")), Some(3));
}

#[test]
fn only_a_failed_copy_is_reported() {
    assert_eq!(copy_reported(CopyEnd::Copied), Ok(()));
    assert_eq!(copy_reported(CopyEnd::Vanished), Ok(()));
    assert_eq!(copy_reported(CopyEnd::Failed), Err(SyncError::CopyFailure));
}

#[test]
fn the_supervisor_stops_once_the_flag_is_raised() {
    let mut flag = ShutdownFlag::new();
    assert_eq!(scan_finished(&flag), LoopControl::SleepSecs(5));
    flag.raise();
    assert_eq!(scan_finished(&flag), LoopControl::Stop);
}
